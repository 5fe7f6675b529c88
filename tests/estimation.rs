use wheatr::estimate::get_local_data;
use wheatr::locator::{get_closest_stations_from_db, pseudo_distance_of};
use wheatr::met::{EstimationError, Location, Observation, Station};
use wheatr::resolver::{get_latest_observations, latest_observation};

fn station(id: &str, lat: i32, lon: i32) -> Station {
    Station { id: id.to_string(), name: format!("Station {}", id), lat, lon }
}

fn observation(id: &str, time: &str, t: Option<i32>, h: Option<i32>) -> Observation {
    Observation {
        station_id: id.to_string(),
        observation_time: time.to_string(),
        aerial_temperature: t,
        relative_humidity: h,
    }
}

fn ids(stations: &[Station; 3]) -> Vec<String> {
    stations.iter().map(|s| s.id.clone()).collect()
}

#[test]
fn pseudo_distance_uses_absolute_coordinates() {
    let q = Location { lat: 10, lon: -20 };
    assert_eq!(pseudo_distance_of(&station("A", -13, 24), &q), 9 + 16);
    assert_eq!(pseudo_distance_of(&station("A", 13, -24), &q), 9 + 16);
    let far = station("F", i32::MIN, i32::MIN);
    let d = pseudo_distance_of(&far, &Location { lat: 0, lon: 0 });
    assert_eq!(d, 2 * (1u64 << 62));
}

#[test]
fn closest_stations_are_ranked_by_pseudo_distance() {
    let q = Location { lat: 0, lon: 0 };
    let catalog = vec![
        station("D", 40, 0),
        station("A", 10, 0),
        station("C", 30, 0),
        station("B", 20, 0),
    ];
    let chosen = get_closest_stations_from_db(&q, &catalog).unwrap();
    assert_eq!(ids(&chosen), vec!["A", "B", "C"]);
}

#[test]
fn closest_stations_collapse_shared_coordinates_and_break_ties_by_id() {
    let q = Location { lat: 0, lon: 0 };
    let catalog = vec![
        station("Y", 10, 0),
        station("X", 10, 0),
        station("Q", 0, 10),
        station("P", -10, 0),
        station("Z", 50, 50),
    ];
    let chosen = get_closest_stations_from_db(&q, &catalog).unwrap();
    // P, Q and X/Y all lie at pseudo-distance 100; X/Y share coordinates.
    assert_eq!(ids(&chosen), vec!["P", "Q", "X"]);
}

#[test]
fn too_few_distinct_coordinates_are_insufficient() {
    let q = Location { lat: 0, lon: 0 };
    let catalog = vec![station("A", 1, 1), station("B", 1, 1), station("C", 2, 2)];
    assert_eq!(
        get_closest_stations_from_db(&q, &catalog).err(),
        Some(EstimationError::InsufficientStations)
    );
    assert_eq!(
        get_closest_stations_from_db(&q, &vec![]).err(),
        Some(EstimationError::InsufficientStations)
    );
}

#[test]
fn latest_observation_is_freshest_complete() {
    let history = vec![
        observation("A", "2024-01-01T10:00:00", Some(100), Some(10)),
        observation("A", "2024-01-01T12:00:00", Some(120), None),
        observation("B", "2024-01-01T13:00:00", Some(130), Some(13)),
        observation("A", "2024-01-01T11:00:00", Some(110), Some(11)),
        observation("A", "2024-01-01T11:00:00", Some(111), Some(12)),
    ];
    assert_eq!(latest_observation(&"A".to_string(), &history), Ok(3));
    assert_eq!(latest_observation(&"B".to_string(), &history), Ok(2));
    assert_eq!(
        latest_observation(&"C".to_string(), &history),
        Err(EstimationError::NoObservation)
    );
}

#[test]
fn latest_observations_follow_station_order() {
    let stations = [station("B", 0, 0), station("A", 1, 0), station("C", 0, 1)];
    let history = vec![
        observation("A", "2024-01-01T10:00", Some(100), Some(10)),
        observation("C", "2024-01-01T09:00", Some(300), Some(30)),
        observation("B", "2024-01-01T08:00", Some(200), Some(20)),
        observation("B", "2024-01-01T07:00", Some(201), Some(21)),
    ];
    let got = get_latest_observations(&stations, &history).unwrap();
    assert_eq!(got[0].aerial_temperature, Some(200));
    assert_eq!(got[1].aerial_temperature, Some(100));
    assert_eq!(got[2].aerial_temperature, Some(300));
}

#[test]
fn missing_station_observation_is_incomplete_set() {
    let stations = [station("B", 0, 0), station("A", 1, 0), station("C", 0, 1)];
    let history = vec![
        observation("A", "2024-01-01T10:00", Some(100), Some(10)),
        observation("C", "2024-01-01T09:00", None, Some(30)),
        observation("B", "2024-01-01T08:00", Some(200), Some(20)),
    ];
    assert_eq!(
        get_latest_observations(&stations, &history).err(),
        Some(EstimationError::IncompleteObservationSet)
    );
}

fn malaga_catalog() -> Vec<Station> {
    vec![
        station("6155A", 366661200, -44823070),
        station("6156X", 367177850, -44816700),
        station("6172O", 367166630, -44197200),
        station("FAR", 400000000, -30000000),
    ]
}

#[test]
fn estimate_combines_all_stages() {
    let q = Location { lat: 366952842, lon: -44538607 };
    let history = vec![
        observation("6155A", "2024-07-01T12:00:00", Some(4330), Some(4000)),
        observation("6156X", "2024-07-01T12:00:00", Some(4120), Some(4000)),
        observation("6172O", "2024-07-01T12:00:00", Some(3460), Some(4000)),
        observation("6155A", "2024-07-01T11:00:00", Some(1000), Some(9000)),
        observation("FAR", "2024-07-01T12:00:00", Some(0), Some(0)),
    ];
    let res = get_local_data(&q, &malaga_catalog(), &history).unwrap();
    // nearest first by pseudo-distance
    assert_eq!(ids(&res.used_stations), vec!["6156X", "6172O", "6155A"]);
    assert_eq!(res.local_lat, q.lat);
    assert_eq!(res.local_lon, q.lon);
    assert_eq!(res.local_air_temperature, 3910);
    assert_eq!(res.local_rel_humidity, 4000);
    assert_eq!(res.local_hi, wheatr::calculations::calculate_heat_index(3910, 4000));
}

#[test]
fn estimate_fails_whole_on_missing_observation() {
    let q = Location { lat: 366952842, lon: -44538607 };
    let history = vec![
        observation("6155A", "2024-07-01T12:00:00", Some(4330), Some(4000)),
        observation("6156X", "2024-07-01T12:00:00", Some(4120), None),
        observation("6172O", "2024-07-01T12:00:00", Some(3460), Some(4000)),
    ];
    assert_eq!(
        get_local_data(&q, &malaga_catalog(), &history).err(),
        Some(EstimationError::IncompleteObservationSet)
    );
}

#[test]
fn estimate_fails_on_small_catalog() {
    let q = Location { lat: 0, lon: 0 };
    let catalog = vec![station("A", 1, 1), station("B", 2, 2)];
    let history = vec![observation("A", "t", Some(1), Some(1))];
    assert_eq!(
        get_local_data(&q, &catalog, &history).err(),
        Some(EstimationError::InsufficientStations)
    );
}

#[test]
fn estimate_fails_on_collinear_stations() {
    let q = Location { lat: 0, lon: 0 };
    let catalog = vec![station("A", 10, 10), station("B", 20, 20), station("C", 30, 30)];
    let history = vec![
        observation("A", "t", Some(1), Some(1)),
        observation("B", "t", Some(2), Some(2)),
        observation("C", "t", Some(3), Some(3)),
    ];
    assert_eq!(
        get_local_data(&q, &catalog, &history).err(),
        Some(EstimationError::DegenerateInterpolation)
    );
}

#[test]
fn estimate_fails_when_extrapolation_leaves_range() {
    let q = Location { lat: 1000000, lon: 0 };
    let catalog = vec![station("A", 0, 0), station("B", 10, 0), station("C", 0, 10)];
    let history = vec![
        observation("A", "t", Some(0), Some(0)),
        observation("B", "t", Some(100), Some(0)),
        observation("C", "t", Some(0), Some(0)),
    ];
    assert_eq!(
        get_local_data(&q, &catalog, &history).err(),
        Some(EstimationError::ValueOutOfRange)
    );
}
