use wheatr::ingest::{
    convert_to_data_objects, vec_to_string, write_items_to_db, SqlValue, ToSqlParams,
};
use wheatr::met::{AemetData, Observation, Station};

fn entry(id: &str, ta: Option<i32>, hr: Option<i32>) -> AemetData {
    AemetData {
        fint: "2024-07-01T12:00:00".to_string(),
        idema: id.to_string(),
        hr,
        lat: 366661200,
        lon: -44823070,
        ta,
        ubi: format!("Place {}", id),
    }
}

#[test]
fn data_set_splits_into_stations_and_complete_observations() {
    let data = vec![
        entry("A", Some(2500), Some(6000)),
        entry("B", None, Some(6000)),
        entry("C", Some(2000), None),
        entry("D", Some(1800), Some(7000)),
    ];
    let md = convert_to_data_objects(&data);
    assert_eq!(md.stations.len(), 4);
    assert_eq!(md.stations[1].id, "B");
    assert_eq!(md.stations[1].name, "Place B");
    assert_eq!(md.stations[3].lat, 366661200);
    assert_eq!(md.observations.len(), 2);
    assert_eq!(md.observations[0].station_id, "A");
    assert_eq!(md.observations[1].station_id, "D");
    assert_eq!(md.observations[1].aerial_temperature, Some(1800));
    assert_eq!(md.observations[1].relative_humidity, Some(7000));
}

#[test]
fn empty_data_set_gives_nothing() {
    let md = convert_to_data_objects(&vec![]);
    assert!(md.stations.is_empty());
    assert!(md.observations.is_empty());
}

#[test]
fn latin9_bytes_decode_with_their_own_table() {
    assert_eq!(vec_to_string(vec![0x41, 0xA4, 0xE9, 0xBD]).unwrap(), "A\u{20AC}\u{e9}\u{153}");
    assert_eq!(vec_to_string(vec![]).unwrap(), "");
}

fn text(v: &SqlValue) -> String {
    match v {
        SqlValue::Text(s) => s.clone(),
        _ => panic!("not text"),
    }
}

fn integer(v: &SqlValue) -> Option<i64> {
    match v {
        SqlValue::Integer(i) => Some(*i),
        SqlValue::Null => None,
        SqlValue::Text(_) => panic!("text"),
    }
}

#[test]
fn station_rows_hold_its_fields() {
    let s = Station { id: "X1".to_string(), name: "Here".to_string(), lat: -5, lon: 7 };
    let (a, b, c, d) = s.to_sql_params();
    assert_eq!(text(&a), "X1");
    assert_eq!(text(&b), "Here");
    assert_eq!(integer(&c), Some(-5));
    assert_eq!(integer(&d), Some(7));
}

#[test]
fn observation_rows_in_item_order() {
    let items = vec![
        Observation {
            station_id: "A".to_string(),
            observation_time: "t1".to_string(),
            aerial_temperature: Some(2100),
            relative_humidity: None,
        },
        Observation {
            station_id: "B".to_string(),
            observation_time: "t2".to_string(),
            aerial_temperature: Some(-300),
            relative_humidity: Some(5000),
        },
    ];
    let rows = write_items_to_db(&items);
    assert_eq!(rows.len(), 2);
    assert_eq!(text(&rows[0].0), "A");
    assert_eq!(text(&rows[0].1), "t1");
    assert_eq!(integer(&rows[0].2), Some(2100));
    assert_eq!(integer(&rows[0].3), None);
    assert_eq!(text(&rows[1].0), "B");
    assert_eq!(integer(&rows[1].2), Some(-300));
    assert_eq!(integer(&rows[1].3), Some(5000));
}
