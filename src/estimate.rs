//! One estimation: nearest stations, their freshest observations, two planar
//! interpolations and the heat index.
use vstd::prelude::*;
use crate::calculations::{
    calculate_heat_index, calculate_local_data, collinear, get_located_values, heat_index_scaled,
    plane_den, plane_num, round_nearest, round_quotient,
};
use crate::locator::{closest_indices, get_closest_stations_from_db, three_distinct};
use crate::met::{
    is_complete, metric_value, text_bytes, EstimationError, LocatedValue, Location, Metric,
    Observation, Station, WheatrApiResponseData,
};
use crate::resolver::{get_latest_observations, has_candidate, is_freshest, freshest, resolved};

verus! {

/// The `i`-th of the three stations chosen for `q`.
pub open spec fn chosen(catalog: Seq<Station>, q: Location, i: int) -> Station {
    catalog[closest_indices(catalog, q)[i]]
}

/// The station has a complete observation in the history.
pub open spec fn resolvable(s: Station, history: Seq<Observation>) -> bool {
    has_candidate(history, text_bytes(s.id))
}

/// The station's location with `metric` of its freshest complete observation.
pub open spec fn point_of(s: Station, history: Seq<Observation>, metric: Metric) -> LocatedValue {
    LocatedValue {
        lat: s.lat,
        lon: s.lon,
        val: metric_value(resolved(s, history), metric).unwrap(),
    }
}

/// `metric` interpolated at `q` from the three chosen stations, in hundredths
/// rounded to nearest.
pub open spec fn interpolated(
    catalog: Seq<Station>,
    history: Seq<Observation>,
    q: Location,
    metric: Metric,
) -> int {
    let a = point_of(chosen(catalog, q, 0), history, metric);
    let b = point_of(chosen(catalog, q, 1), history, metric);
    let c = point_of(chosen(catalog, q, 2), history, metric);
    round_nearest(plane_num(a, b, c, q), plane_den(a, b, c))
}

pub open spec fn fits_i16(x: int) -> bool {
    i16::MIN <= x <= i16::MAX
}

/// The first stage of the estimation that fails, if one does.
pub open spec fn failure(catalog: Seq<Station>, history: Seq<Observation>, q: Location) -> Option<
    EstimationError,
> {
    if !three_distinct(catalog) {
        Some(EstimationError::InsufficientStations)
    } else if !(resolvable(chosen(catalog, q, 0), history) && resolvable(chosen(catalog, q, 1), history)
        && resolvable(chosen(catalog, q, 2), history)) {
        Some(EstimationError::IncompleteObservationSet)
    } else if collinear(
        point_of(chosen(catalog, q, 0), history, Metric::Temperature),
        point_of(chosen(catalog, q, 1), history, Metric::Temperature),
        point_of(chosen(catalog, q, 2), history, Metric::Temperature),
    ) {
        Some(EstimationError::DegenerateInterpolation)
    } else if !fits_i16(interpolated(catalog, history, q, Metric::Temperature)) || !fits_i16(
        interpolated(catalog, history, q, Metric::Humidity),
    ) {
        Some(EstimationError::ValueOutOfRange)
    } else {
        None
    }
}

proof fn lemma_points_aligned(
    st: [Station; 3],
    obs: [Observation; 3],
    history: Seq<Observation>,
    metric: Metric,
)
    requires
        obs[0] == resolved(st[0], history),
        obs[1] == resolved(st[1], history),
        obs[2] == resolved(st[2], history),
        is_freshest(history, text_bytes(st[0].id), freshest(history, text_bytes(st[0].id))),
        is_freshest(history, text_bytes(st[1].id), freshest(history, text_bytes(st[1].id))),
        is_freshest(history, text_bytes(st[2].id), freshest(history, text_bytes(st[2].id))),
    ensures
        crate::calculations::located_value(st[0], obs, metric) == Some(point_of(st[0], history, metric)),
        crate::calculations::located_value(st[1], obs, metric) == Some(point_of(st[1], history, metric)),
        crate::calculations::located_value(st[2], obs, metric) == Some(point_of(st[2], history, metric)),
{
    assert(is_complete(obs[0]) && is_complete(obs[1]) && is_complete(obs[2]));
}

/// Estimates temperature, humidity and heat index at `loc` from the station
/// catalog and the observation history. Fails whole, with the error of the
/// first stage that fails; the result otherwise follows from the catalog,
/// the history and `loc` alone.
pub fn get_local_data(loc: &Location, stations: &Vec<Station>, history: &Vec<Observation>) -> (r:
    Result<WheatrApiResponseData, EstimationError>)
    ensures
        !three_distinct(stations@) ==> r == Err::<WheatrApiResponseData, EstimationError>(
            EstimationError::InsufficientStations,
        ),
        three_distinct(stations@) && !(resolvable(chosen(stations@, *loc, 0), history@)
            && resolvable(chosen(stations@, *loc, 1), history@) && resolvable(
            chosen(stations@, *loc, 2),
            history@,
        )) ==> r == Err::<WheatrApiResponseData, EstimationError>(
            EstimationError::IncompleteObservationSet,
        ),
        match r {
            Ok(res) => {
                &&& failure(stations@, history@, *loc) is None
                &&& res.used_stations[0] == chosen(stations@, *loc, 0)
                &&& res.used_stations[1] == chosen(stations@, *loc, 1)
                &&& res.used_stations[2] == chosen(stations@, *loc, 2)
                &&& res.local_lat == loc.lat
                &&& res.local_lon == loc.lon
                &&& res.local_air_temperature == interpolated(stations@, history@, *loc, Metric::Temperature)
                &&& res.local_rel_humidity == interpolated(stations@, history@, *loc, Metric::Humidity)
                &&& res.local_hi == heat_index_scaled(
                    res.local_air_temperature as int,
                    res.local_rel_humidity as int,
                )
            },
            Err(e) => failure(stations@, history@, *loc) == Some(e),
        },
{
    let st = match get_closest_stations_from_db(loc, stations) {
        Ok(v) => v,
        Err(e) => return Err(e),
    };
    let obs = match get_latest_observations(&st, history) {
        Ok(v) => v,
        Err(e) => return Err(e),
    };
    proof {
        lemma_points_aligned(st, obs, history@, Metric::Temperature);
        lemma_points_aligned(st, obs, history@, Metric::Humidity);
    }
    let tv = match get_located_values(&st, &obs, Metric::Temperature) {
        Ok(v) => v,
        Err(e) => return Err(e),
    };
    let hv = match get_located_values(&st, &obs, Metric::Humidity) {
        Ok(v) => v,
        Err(e) => return Err(e),
    };
    let tq = match calculate_local_data(loc, &tv) {
        Ok(v) => v,
        Err(e) => return Err(e),
    };
    let hq = match calculate_local_data(loc, &hv) {
        Ok(v) => v,
        Err(e) => return Err(e),
    };
    let t = round_quotient(tq);
    let h = round_quotient(hq);
    if t < i16::MIN as i128 || t > i16::MAX as i128 || h < i16::MIN as i128 || h > i16::MAX as i128 {
        return Err(EstimationError::ValueOutOfRange);
    }
    let t16 = t as i16;
    let h16 = h as i16;
    let hi = calculate_heat_index(t16, h16);
    Ok(
        WheatrApiResponseData {
            used_stations: st,
            local_lat: loc.lat,
            local_lon: loc.lon,
            local_air_temperature: t16,
            local_rel_humidity: h16,
            local_hi: hi,
        },
    )
}

} // verus!
