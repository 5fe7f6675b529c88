use wheatr::calculations::{
    calculate_heat_index, calculate_local_data, get_located_values, round_quotient, Quotient,
    HEAT_INDEX_SCALE,
};
use wheatr::met::{EstimationError, LocatedValue, Location, Metric, Observation, Station};

fn quotient_as_f64(q: Quotient) -> f64 {
    q.num as f64 / q.den as f64
}

fn heat_index_as_f64(hi: i128) -> f64 {
    hi as f64 / HEAT_INDEX_SCALE as f64
}

fn close(actual: f64, expected: f64, relative: f64) -> bool {
    (actual - expected).abs() <= relative * expected.abs()
}

#[test]
fn calculate_temperature() {
    let location = Location { lat: 366952842, lon: -44538607 };
    let point_1 = LocatedValue { lat: 366661200, lon: -44823070, val: 4330 };
    let point_2 = LocatedValue { lat: 367177850, lon: -44816700, val: 4120 };
    let point_3 = LocatedValue { lat: 367166630, lon: -44197200, val: 3460 };

    let temp = calculate_local_data(&location, &[point_1, point_2, point_3]).unwrap();

    assert!(close(quotient_as_f64(temp) / 100.0, 39.10227, 1e-3));
}

#[test]
fn calculate_hi() {
    assert_eq!(calculate_heat_index(1900, 4000), 19 * HEAT_INDEX_SCALE);
    assert!(close(heat_index_as_f64(calculate_heat_index(2900, 4000)), 28.606316, 1e-4));
    assert!(close(heat_index_as_f64(calculate_heat_index(3500, 6000)), 45.050167, 1e-4));
}

#[test]
fn heat_index_below_threshold_is_temperature() {
    for t in [-4000i16, -1, 0, 1000, 1999] {
        for h in [0i16, 5000, 10000, -300] {
            assert_eq!(calculate_heat_index(t, h), t as i128 * (HEAT_INDEX_SCALE / 100));
        }
    }
}

#[test]
fn heat_index_exact_at_threshold() {
    // 20 degrees and 50 percent, computed exactly from the regression.
    let expected: i128 = -87846947555600 * 100000000
        + 16113941100000 * 2000 * 1000000
        + 23385488388900 * 5000 * 1000000
        + -1461160500000 * 2000 * 5000 * 10000
        + -123080940000 * 2000 * 2000 * 10000
        + -164248277778 * 5000 * 5000 * 10000
        + 22117320000 * 2000 * 2000 * 5000 * 100
        + 7254600000 * 2000 * 5000 * 5000 * 100
        + -35820000 * 2000 * 2000 * 5000 * 5000;
    assert_eq!(calculate_heat_index(2000, 5000), expected);
}

#[test]
fn heat_index_extreme_inputs_do_not_overflow() {
    let _ = calculate_heat_index(i16::MAX, i16::MAX);
    let _ = calculate_heat_index(i16::MAX, i16::MIN);
    let _ = calculate_heat_index(2000, i16::MIN);
}

#[test]
fn plane_reproduces_each_point() {
    let p = LocatedValue { lat: 366661200, lon: -44823070, val: 4330 };
    let q = LocatedValue { lat: 367177850, lon: -44816700, val: 4120 };
    let r = LocatedValue { lat: 367166630, lon: -44197200, val: 3460 };
    for v in [p, q, r] {
        let at = Location { lat: v.lat, lon: v.lon };
        let z = calculate_local_data(&at, &[p, q, r]).unwrap();
        assert!(z.den > 0);
        assert_eq!(z.num, v.val as i128 * z.den);
    }
}

#[test]
fn plane_extrapolates_outside_triangle() {
    // value = lat + 2 * lon on a plane through three points
    let p = LocatedValue { lat: 0, lon: 0, val: 0 };
    let q = LocatedValue { lat: 10, lon: 0, val: 10 };
    let r = LocatedValue { lat: 0, lon: 10, val: 20 };
    let z = calculate_local_data(&Location { lat: 100, lon: -50 }, &[p, q, r]).unwrap();
    assert_eq!(z.num, 0);
    let z = calculate_local_data(&Location { lat: 30, lon: 40 }, &[p, q, r]).unwrap();
    assert_eq!(z.num, 110 * z.den);
}

#[test]
fn collinear_points_are_degenerate() {
    let p = LocatedValue { lat: 0, lon: 0, val: 100 };
    let q = LocatedValue { lat: 10, lon: 10, val: 200 };
    let r = LocatedValue { lat: 30, lon: 30, val: 50 };
    let at = Location { lat: 5, lon: 7 };
    assert_eq!(calculate_local_data(&at, &[p, q, r]), Err(EstimationError::DegenerateInterpolation));
    let same = LocatedValue { lat: 1, lon: 1, val: 1 };
    assert_eq!(
        calculate_local_data(&at, &[same, same, q]),
        Err(EstimationError::DegenerateInterpolation)
    );
}

#[test]
fn extreme_coordinates_do_not_overflow() {
    let p = LocatedValue { lat: i32::MIN, lon: i32::MIN, val: i32::MIN };
    let q = LocatedValue { lat: i32::MAX, lon: i32::MIN, val: i32::MAX };
    let r = LocatedValue { lat: i32::MIN, lon: i32::MAX, val: i32::MAX };
    let z = calculate_local_data(&Location { lat: i32::MAX, lon: i32::MAX }, &[p, q, r]).unwrap();
    assert!(z.den > 0);
}

#[test]
fn rounding_goes_to_nearest_with_halves_up() {
    assert_eq!(round_quotient(Quotient { num: 7, den: 2 }), 4);
    assert_eq!(round_quotient(Quotient { num: -7, den: 2 }), -3);
    assert_eq!(round_quotient(Quotient { num: 10, den: 3 }), 3);
    assert_eq!(round_quotient(Quotient { num: -10, den: 3 }), -3);
    assert_eq!(round_quotient(Quotient { num: -11, den: 3 }), -4);
    assert_eq!(round_quotient(Quotient { num: 0, den: 5 }), 0);
}

fn station(id: &str, lat: i32, lon: i32) -> Station {
    Station { id: id.to_string(), name: format!("Station {}", id), lat, lon }
}

fn observation(id: &str, time: &str, t: Option<i32>, h: Option<i32>) -> Observation {
    Observation {
        station_id: id.to_string(),
        observation_time: time.to_string(),
        aerial_temperature: t,
        relative_humidity: h,
    }
}

#[test]
fn located_values_follow_station_order() {
    let stations = [station("A", 1, 2), station("B", 3, 4), station("C", 5, 6)];
    let observations = [
        observation("C", "t", Some(300), Some(30)),
        observation("A", "t", Some(100), Some(10)),
        observation("B", "t", Some(200), Some(20)),
    ];
    let temps = get_located_values(&stations, &observations, Metric::Temperature).unwrap();
    assert_eq!(temps[0], LocatedValue { lat: 1, lon: 2, val: 100 });
    assert_eq!(temps[1], LocatedValue { lat: 3, lon: 4, val: 200 });
    assert_eq!(temps[2], LocatedValue { lat: 5, lon: 6, val: 300 });
    let hums = get_located_values(&stations, &observations, Metric::Humidity).unwrap();
    assert_eq!(hums[0].val, 10);
    assert_eq!(hums[1].val, 20);
    assert_eq!(hums[2].val, 30);
}

#[test]
fn located_values_without_match_is_programming_error() {
    let stations = [station("A", 1, 2), station("B", 3, 4), station("Z", 5, 6)];
    let observations = [
        observation("C", "t", Some(300), Some(30)),
        observation("A", "t", Some(100), Some(10)),
        observation("B", "t", Some(200), Some(20)),
    ];
    assert_eq!(
        get_located_values(&stations, &observations, Metric::Temperature).err(),
        Some(EstimationError::ProgrammingError)
    );
}
