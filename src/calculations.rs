//! Planar interpolation through three located values, and the heat index.
use vstd::prelude::*;
use vstd::arithmetic::div_mod::{lemma_fundamental_div_mod, lemma_fundamental_div_mod_converse};
use crate::met::{
    bytes_of, is_complete, metric_value, text_bytes, EstimationError, LocatedValue, Location,
    Metric, Observation, Station,
};

verus! {

/// Heat index results are in units of 1e-21 degrees Celsius.
pub const HEAT_INDEX_SCALE: i128 = 1000000000000000000000;

/// Regression coefficients of the heat index, times 1e13.
pub const HI_C1: i128 = -87846947555600;
pub const HI_C2: i128 = 16113941100000;
pub const HI_C3: i128 = 23385488388900;
pub const HI_C4: i128 = -1461160500000;
pub const HI_C5: i128 = -123080940000;
pub const HI_C6: i128 = -164248277778;
pub const HI_C7: i128 = 22117320000;
pub const HI_C8: i128 = 7254600000;
pub const HI_C9: i128 = -35820000;

/// Below this temperature (in hundredths of a degree) the heat index is the
/// temperature itself.
pub const HI_THRESHOLD: i16 = 2000;

/// An exact value `num / den` with a positive denominator.
#[derive(Clone, Copy, Debug, PartialEq, Eq, Structural)]
pub struct Quotient {
    pub num: i128,
    pub den: i128,
}

/// Bound on both parts of a `Quotient` that interpolation yields.
pub const QUOTIENT_BOUND: i128 = 0x10000000000000000000000000;

impl Quotient {
    pub open spec fn wf(&self) -> bool {
        &&& 0 < self.den <= QUOTIENT_BOUND
        &&& -QUOTIENT_BOUND <= self.num <= QUOTIENT_BOUND
    }
}

/// Components of the normal of the plane through `p`, `q`, `r`, taken as
/// points (lat, lon, value).
pub open spec fn normal_lat(p: LocatedValue, q: LocatedValue, r: LocatedValue) -> int {
    (q.lon - p.lon) * (r.val - p.val) - (q.val - p.val) * (r.lon - p.lon)
}

pub open spec fn normal_lon(p: LocatedValue, q: LocatedValue, r: LocatedValue) -> int {
    (q.lat - p.lat) * (r.val - p.val) - (q.val - p.val) * (r.lat - p.lat)
}

pub open spec fn normal_val(p: LocatedValue, q: LocatedValue, r: LocatedValue) -> int {
    (q.lat - p.lat) * (r.lon - p.lon) - (q.lon - p.lon) * (r.lat - p.lat)
}

/// The three points lie on one line in (lat, lon).
pub open spec fn collinear(p: LocatedValue, q: LocatedValue, r: LocatedValue) -> bool {
    normal_val(p, q, r) == 0
}

/// `normal_val` times the plane's value at `(x, y)`.
pub open spec fn plane_numerator(
    p: LocatedValue,
    q: LocatedValue,
    r: LocatedValue,
    x: int,
    y: int,
) -> int {
    normal_lat(p, q, r) * p.lat - normal_lon(p, q, r) * p.lon + normal_val(p, q, r) * p.val
        - normal_lat(p, q, r) * x + normal_lon(p, q, r) * y
}

/// Numerator of the plane's value at `loc`, over a positive denominator.
pub open spec fn plane_num(p: LocatedValue, q: LocatedValue, r: LocatedValue, loc: Location) -> int {
    let n = plane_numerator(p, q, r, loc.lat as int, loc.lon as int);
    if normal_val(p, q, r) > 0 {
        n
    } else {
        -n
    }
}

/// Denominator of the plane's value: the size of `normal_val`.
pub open spec fn plane_den(p: LocatedValue, q: LocatedValue, r: LocatedValue) -> int {
    let d = normal_val(p, q, r);
    if d > 0 {
        d
    } else {
        -d
    }
}

/// The location of a located value.
pub open spec fn location_of(p: LocatedValue) -> Location {
    Location { lat: p.lat, lon: p.lon }
}

proof fn lemma_mul_sub(x: int, u: int, v: int) by (nonlinear_arith)
    ensures
        x * (u - v) == x * u - x * v,
{
}

proof fn lemma_sub_mul_three(x: int, y: int, z: int, w: int, m: int) by (nonlinear_arith)
    ensures
        (x * y - z * w) * m == x * y * m - z * w * m,
{
}

proof fn lemma_mul_rotate(x: int, y: int, z: int) by (nonlinear_arith)
    ensures
        x * y * z == x * z * y,
        x * y * z == y * x * z,
        x * y * z == y * z * x,
        x * y * z == z * x * y,
        x * y * z == z * y * x,
{
}

proof fn lemma_normal_orthogonal(a: int, b: int, c: int, d: int, e: int, f: int)
    ensures
        (b * f - c * e) * a - (a * f - c * d) * b + (a * e - b * d) * c == 0,
        (b * f - c * e) * d - (a * f - c * d) * e + (a * e - b * d) * f == 0,
{
    lemma_sub_mul_three(b, f, c, e, a);
    lemma_sub_mul_three(a, f, c, d, b);
    lemma_sub_mul_three(a, e, b, d, c);
    lemma_sub_mul_three(b, f, c, e, d);
    lemma_sub_mul_three(a, f, c, d, e);
    lemma_sub_mul_three(a, e, b, d, f);
    lemma_mul_rotate(a, b, f);
    lemma_mul_rotate(a, c, e);
    lemma_mul_rotate(b, c, d);
    lemma_mul_rotate(b, d, f);
    lemma_mul_rotate(c, d, e);
    lemma_mul_rotate(a, e, f);
}

/// For three points that are not collinear, the plane through them takes at
/// each of them exactly that point's value.
pub proof fn lemma_plane_reproduces_points(p: LocatedValue, q: LocatedValue, r: LocatedValue)
    requires
        !collinear(p, q, r),
    ensures
        plane_num(p, q, r, location_of(p)) == p.val * plane_den(p, q, r),
        plane_num(p, q, r, location_of(q)) == q.val * plane_den(p, q, r),
        plane_num(p, q, r, location_of(r)) == r.val * plane_den(p, q, r),
{
    let (a, b, c) = (q.lat - p.lat, q.lon - p.lon, q.val - p.val);
    let (d, e, f) = (r.lat - p.lat, r.lon - p.lon, r.val - p.val);
    lemma_normal_orthogonal(a, b, c, d, e, f);
    let nl = normal_lat(p, q, r);
    let no = normal_lon(p, q, r);
    let nv = normal_val(p, q, r);
    assert(nl == b * f - c * e);
    assert(no == a * f - c * d);
    assert(nv == a * e - b * d);
    lemma_mul_sub(nl, q.lat as int, p.lat as int);
    lemma_mul_sub(no, q.lon as int, p.lon as int);
    lemma_mul_sub(nv, q.val as int, p.val as int);
    lemma_mul_sub(nl, r.lat as int, p.lat as int);
    lemma_mul_sub(no, r.lon as int, p.lon as int);
    lemma_mul_sub(nv, r.val as int, p.val as int);
    assert(nl * a - no * b + nv * c == 0);
    assert(nl * d - no * e + nv * f == 0);
    assert(plane_numerator(p, q, r, q.lat as int, q.lon as int) == nv * q.val);
    assert(plane_numerator(p, q, r, r.lat as int, r.lon as int) == nv * r.val);
    assert(plane_numerator(p, q, r, p.lat as int, p.lon as int) == nv * p.val);
    assert(-(nv * p.val) == p.val * (-nv)) by (nonlinear_arith);
    assert(-(nv * q.val) == q.val * (-nv)) by (nonlinear_arith);
    assert(-(nv * r.val) == r.val * (-nv)) by (nonlinear_arith);
    assert(nv * p.val == p.val * nv) by (nonlinear_arith);
    assert(nv * q.val == q.val * nv) by (nonlinear_arith);
    assert(nv * r.val == r.val * nv) by (nonlinear_arith);
}

proof fn lemma_mul_bound(a: int, b: int, x: int, y: int) by (nonlinear_arith)
    requires
        -x <= a <= x,
        -y <= b <= y,
    ensures
        -(x * y) <= a * b <= x * y,
{
}

/// Evaluates at `location` the plane through the three located values.
/// Collinear points give `DegenerateInterpolation`; every other input gives
/// the exact value, extrapolated where `location` lies outside the triangle.
pub fn calculate_local_data(location: &Location, known_points: &[LocatedValue; 3]) -> (r: Result<
    Quotient,
    EstimationError,
>)
    ensures
        match r {
            Ok(v) => {
                &&& !collinear(known_points[0], known_points[1], known_points[2])
                &&& v.num == plane_num(known_points[0], known_points[1], known_points[2], *location)
                &&& v.den == plane_den(known_points[0], known_points[1], known_points[2])
                &&& v.wf()
            },
            Err(e) => {
                &&& collinear(known_points[0], known_points[1], known_points[2])
                &&& e == EstimationError::DegenerateInterpolation
            },
        },
{
    let p = known_points[0];
    let q = known_points[1];
    let s = known_points[2];
    let ghost (gp, gq, gr) = (p, q, s);
    let b32: i128 = 0x100000000;
    let e1_lat = q.lat as i128 - p.lat as i128;
    let e1_lon = q.lon as i128 - p.lon as i128;
    let e1_val = q.val as i128 - p.val as i128;
    let e2_lat = s.lat as i128 - p.lat as i128;
    let e2_lon = s.lon as i128 - p.lon as i128;
    let e2_val = s.val as i128 - p.val as i128;
    proof {
        lemma_mul_bound(e1_lon as int, e2_val as int, b32 as int, b32 as int);
        lemma_mul_bound(e1_val as int, e2_lon as int, b32 as int, b32 as int);
        lemma_mul_bound(e1_lat as int, e2_val as int, b32 as int, b32 as int);
        lemma_mul_bound(e1_val as int, e2_lat as int, b32 as int, b32 as int);
        lemma_mul_bound(e1_lat as int, e2_lon as int, b32 as int, b32 as int);
        lemma_mul_bound(e1_lon as int, e2_lat as int, b32 as int, b32 as int);
    }
    let n_lat = e1_lon * e2_val - e1_val * e2_lon;
    let n_lon = e1_lat * e2_val - e1_val * e2_lat;
    let n_val = e1_lat * e2_lon - e1_lon * e2_lat;
    assert(n_val == normal_val(gp, gq, gr));
    assert(n_lat == normal_lat(gp, gq, gr));
    assert(n_lon == normal_lon(gp, gq, gr));
    if n_val == 0 {
        return Err(EstimationError::DegenerateInterpolation);
    }
    let b65: i128 = 0x20000000000000000;
    let b31: i128 = 0x80000000;
    proof {
        lemma_mul_bound(n_lat as int, p.lat as int, b65 as int, b31 as int);
        lemma_mul_bound(n_lon as int, p.lon as int, b65 as int, b31 as int);
        lemma_mul_bound(n_val as int, p.val as int, b65 as int, b31 as int);
        lemma_mul_bound(n_lat as int, location.lat as int, b65 as int, b31 as int);
        lemma_mul_bound(n_lon as int, location.lon as int, b65 as int, b31 as int);
    }
    let num = n_lat * (p.lat as i128) - n_lon * (p.lon as i128) + n_val * (p.val as i128) - n_lat
        * (location.lat as i128) + n_lon * (location.lon as i128);
    if n_val > 0 {
        Ok(Quotient { num, den: n_val })
    } else {
        Ok(Quotient { num: -num, den: -n_val })
    }
}

/// The heat index at temperature `t` and humidity `h` (both in hundredths),
/// in units of 1e-21 degrees Celsius: the temperature itself below 20 degrees,
/// the nine-term regression otherwise.
pub open spec fn heat_index_scaled(t: int, h: int) -> int {
    if t < HI_THRESHOLD {
        t * 10000000000000000000
    } else {
        HI_C1 * 100000000 + HI_C2 * t * 1000000 + HI_C3 * h * 1000000 + HI_C4 * t * h * 10000
            + HI_C5 * t * t * 10000 + HI_C6 * h * h * 10000 + HI_C7 * t * t * h * 100 + HI_C8 * t
            * h * h * 100 + HI_C9 * t * t * h * h
    }
}

/// The heat index for `temperature` and `humidity` (hundredths of a degree
/// Celsius and of a percent), exactly, in units of 1 / `HEAT_INDEX_SCALE`
/// degrees Celsius.
pub fn calculate_heat_index(temperature: i16, humidity: i16) -> (r: i128)
    ensures
        r == heat_index_scaled(temperature as int, humidity as int),
        temperature < HI_THRESHOLD ==> r == temperature as int * (HEAT_INDEX_SCALE / 100),
{
    let t = temperature as i128;
    let h = humidity as i128;
    if temperature < HI_THRESHOLD {
        return t * 10000000000000000000;
    }
    let b15: i128 = 0x8000;
    let b30: i128 = 0x40000000;
    let b45: i128 = 0x200000000000;
    proof {
        lemma_mul_bound(t as int, h as int, b15 as int, b15 as int);
        lemma_mul_bound(t as int, t as int, b15 as int, b15 as int);
        lemma_mul_bound(h as int, h as int, b15 as int, b15 as int);
    }
    let tt = t * t;
    let hh = h * h;
    let th = t * h;
    proof {
        lemma_mul_bound(tt as int, h as int, b30 as int, b15 as int);
        lemma_mul_bound(t as int, hh as int, b15 as int, b30 as int);
    }
    let tth = tt * h;
    let thh = t * hh;
    proof {
        lemma_mul_bound(tth as int, h as int, b45 as int, b15 as int);
    }
    let tthh = tth * h;
    let hi = HI_C1 * 100000000 + HI_C2 * t * 1000000 + HI_C3 * h * 1000000 + HI_C4 * th * 10000
        + HI_C5 * tt * 10000 + HI_C6 * hh * 10000 + HI_C7 * tth * 100 + HI_C8 * thh * 100 + HI_C9
        * tthh;
    proof {
        assert(HI_C4 * th * 10000 == HI_C4 * t * h * 10000) by (nonlinear_arith)
            requires th == t * h;
        assert(HI_C5 * tt * 10000 == HI_C5 * t * t * 10000) by (nonlinear_arith)
            requires tt == t * t;
        assert(HI_C6 * hh * 10000 == HI_C6 * h * h * 10000) by (nonlinear_arith)
            requires hh == h * h;
        assert(HI_C7 * tth * 100 == HI_C7 * t * t * h * 100) by (nonlinear_arith)
            requires tth == t * t * h;
        assert(HI_C8 * thh * 100 == HI_C8 * t * h * h * 100) by (nonlinear_arith)
            requires thh == t * (h * h);
        assert(HI_C9 * tthh == HI_C9 * t * t * h * h) by (nonlinear_arith)
            requires tthh == t * t * h * h;
    }
    hi
}

/// `num / den` rounded to the nearest integer, halves upwards.
pub open spec fn round_nearest(num: int, den: int) -> int {
    (2 * num + den) / (2 * den)
}

/// Rounds a quotient to the nearest integer, halves upwards.
pub fn round_quotient(v: Quotient) -> (r: i128)
    requires
        v.wf(),
    ensures
        r == round_nearest(v.num as int, v.den as int),
{
    let n2 = 2 * v.num + v.den;
    let d2 = 2 * v.den;
    if n2 >= 0 {
        (n2 as u128 / d2 as u128) as i128
    } else {
        let m = (-n2) as u128;
        let k = (m + d2 as u128 - 1) / d2 as u128;
        proof {
            let x: int = m + d2 - 1;
            let dd: int = d2 as int;
            lemma_fundamental_div_mod(x, dd);
            assert(k * dd <= x && x < k * dd + dd) by (nonlinear_arith)
                requires
                    x == dd * (x / dd) + x % dd,
                    k == x / dd,
                    0 <= x % dd < dd,
            ;
            lemma_mul_bound(k as int, d2 as int, QUOTIENT_BOUND as int * 8, QUOTIENT_BOUND as int * 8);
            assert((-k) * dd == -(k * dd)) by (nonlinear_arith);
            lemma_fundamental_div_mod_converse(n2 as int, dd, -k, k * dd - m);
        }
        -(k as i128)
    }
}

/// Position of the first of the three observations whose station id is `id`,
/// or -1 where none is.
pub open spec fn match_index(observations: [Observation; 3], id: Seq<u8>) -> int {
    if text_bytes(observations[0].station_id) == id {
        0
    } else if text_bytes(observations[1].station_id) == id {
        1
    } else if text_bytes(observations[2].station_id) == id {
        2
    } else {
        -1
    }
}

/// The station's location with the metric of its observation, where the
/// observation is there and reports the metric.
pub open spec fn located_value(
    station: Station,
    observations: [Observation; 3],
    metric: Metric,
) -> Option<LocatedValue> {
    let j = match_index(observations, text_bytes(station.id));
    if 0 <= j && metric_value(observations[j], metric).is_some() {
        Some(
            LocatedValue {
                lat: station.lat,
                lon: station.lon,
                val: metric_value(observations[j], metric).unwrap(),
            },
        )
    } else {
        None
    }
}

fn same_text(a: &String, b: &String) -> (r: bool)
    ensures
        r == (text_bytes(*a) == text_bytes(*b)),
{
    crate::lexical::compare_bytes(bytes_of(a), bytes_of(b)) == 0
}

fn locate_one(station: &Station, observations: &[Observation; 3], metric: Metric) -> (r: Option<
    LocatedValue,
>)
    ensures
        r == located_value(*station, *observations, metric),
{
    let j: usize = if same_text(&observations[0].station_id, &station.id) {
        0
    } else if same_text(&observations[1].station_id, &station.id) {
        1
    } else if same_text(&observations[2].station_id, &station.id) {
        2
    } else {
        return None;
    };
    let o = &observations[j];
    let value = match metric {
        Metric::Temperature => o.aerial_temperature,
        Metric::Humidity => o.relative_humidity,
    };
    match value {
        Some(val) => Some(LocatedValue { lat: station.lat, lon: station.lon, val }),
        None => None,
    }
}

/// Pairs each station, in order, with the chosen metric of the first
/// observation that carries its id. A station without such an observation, or
/// whose observation lacks the metric, is a `ProgrammingError`.
pub fn get_located_values(
    stations: &[Station; 3],
    observations: &[Observation; 3],
    metric: Metric,
) -> (r: Result<[LocatedValue; 3], EstimationError>)
    ensures
        match r {
            Ok(v) => {
                &&& located_value(stations[0], *observations, metric) == Some(v[0])
                &&& located_value(stations[1], *observations, metric) == Some(v[1])
                &&& located_value(stations[2], *observations, metric) == Some(v[2])
            },
            Err(e) => {
                &&& e == EstimationError::ProgrammingError
                &&& {
                    ||| located_value(stations[0], *observations, metric) is None
                    ||| located_value(stations[1], *observations, metric) is None
                    ||| located_value(stations[2], *observations, metric) is None
                }
            },
        },
{
    let a = match locate_one(&stations[0], observations, metric) {
        Some(v) => v,
        None => return Err(EstimationError::ProgrammingError),
    };
    let b = match locate_one(&stations[1], observations, metric) {
        Some(v) => v,
        None => return Err(EstimationError::ProgrammingError),
    };
    let c = match locate_one(&stations[2], observations, metric) {
        Some(v) => v,
        None => return Err(EstimationError::ProgrammingError),
    };
    Ok([a, b, c])
}

} // verus!
