//! Turning a downloaded data set into stations and observations, and the
//! parameter rows that store them.
use vstd::prelude::*;
use crate::met::{AemetData, MeteoData, Observation, Station};
use std::io::Read;

verus! {

/// One parameter of a store statement.
#[derive(Clone, Debug)]
pub enum SqlValue {
    Null,
    Integer(i64),
    Text(String),
}

/// The four parameters that store one record.
pub type SqlParams = (SqlValue, SqlValue, SqlValue, SqlValue);

/// A record that the store writes as one row of four parameters.
pub trait ToSqlParams {
    spec fn sql_params(&self) -> SqlParams;

    fn to_sql_params(&self) -> (r: SqlParams)
        ensures
            r == self.sql_params(),
    ;
}

pub open spec fn optional_integer(v: Option<i32>) -> SqlValue {
    match v {
        Some(x) => SqlValue::Integer(x as i64),
        None => SqlValue::Null,
    }
}

fn optional_integer_of(v: Option<i32>) -> (r: SqlValue)
    ensures
        r == optional_integer(v),
{
    match v {
        Some(x) => SqlValue::Integer(x as i64),
        None => SqlValue::Null,
    }
}

impl ToSqlParams for Station {
    /// Id, name, latitude and longitude.
    open spec fn sql_params(&self) -> SqlParams {
        (
            SqlValue::Text(self.id),
            SqlValue::Text(self.name),
            SqlValue::Integer(self.lat as i64),
            SqlValue::Integer(self.lon as i64),
        )
    }

    fn to_sql_params(&self) -> (r: SqlParams) {
        (
            SqlValue::Text(self.id.clone()),
            SqlValue::Text(self.name.clone()),
            SqlValue::Integer(self.lat as i64),
            SqlValue::Integer(self.lon as i64),
        )
    }
}

impl ToSqlParams for Observation {
    /// Station id, observation time, temperature and humidity.
    open spec fn sql_params(&self) -> SqlParams {
        (
            SqlValue::Text(self.station_id),
            SqlValue::Text(self.observation_time),
            optional_integer(self.aerial_temperature),
            optional_integer(self.relative_humidity),
        )
    }

    fn to_sql_params(&self) -> (r: SqlParams) {
        (
            SqlValue::Text(self.station_id.clone()),
            SqlValue::Text(self.observation_time.clone()),
            optional_integer_of(self.aerial_temperature),
            optional_integer_of(self.relative_humidity),
        )
    }
}

/// The parameter rows that writing `items` executes, one per item and in
/// order; the caller runs them in one transaction.
pub fn write_items_to_db<T: ToSqlParams>(items: &Vec<T>) -> (r: Vec<SqlParams>)
    ensures
        r@.len() == items@.len(),
        forall|i: int| 0 <= i < items@.len() ==> r@[i] == #[trigger] items@[i].sql_params(),
{
    let mut rows: Vec<SqlParams> = Vec::new();
    let mut i: usize = 0;
    while i < items.len()
        invariant
            i <= items@.len(),
            rows@.len() == i,
            forall|k: int| 0 <= k < i ==> rows@[k] == #[trigger] items@[k].sql_params(),
        decreases items@.len() - i,
    {
        rows.push(items[i].to_sql_params());
        i = i + 1;
    }
    rows
}

/// The station that a data-set entry describes.
pub open spec fn station_of(d: AemetData) -> Station {
    Station { id: d.idema, name: d.ubi, lat: d.lat, lon: d.lon }
}

/// The observations of a data set: one for each entry that reports both
/// temperature and humidity, in order.
pub open spec fn observations_of(data: Seq<AemetData>) -> Seq<Observation>
    decreases data.len(),
{
    if data.len() == 0 {
        seq![]
    } else {
        let rest = observations_of(data.drop_last());
        let d = data.last();
        if d.ta.is_some() && d.hr.is_some() {
            rest.push(
                Observation {
                    station_id: d.idema,
                    observation_time: d.fint,
                    aerial_temperature: d.ta,
                    relative_humidity: d.hr,
                },
            )
        } else {
            rest
        }
    }
}

/// Splits a data set into one station per entry and the observations of the
/// entries that report both metrics.
pub fn convert_to_data_objects(data_set: &Vec<AemetData>) -> (r: MeteoData)
    ensures
        r.stations@.len() == data_set@.len(),
        forall|i: int| 0 <= i < data_set@.len() ==> r.stations@[i] == station_of(#[trigger] data_set@[i]),
        r.observations@ == observations_of(data_set@),
{
    let mut stations: Vec<Station> = Vec::new();
    let mut observations: Vec<Observation> = Vec::new();
    let mut i: usize = 0;
    while i < data_set.len()
        invariant
            i <= data_set@.len(),
            stations@.len() == i,
            forall|k: int| 0 <= k < i ==> stations@[k] == station_of(#[trigger] data_set@[k]),
            observations@ == observations_of(data_set@.subrange(0, i as int)),
        decreases data_set@.len() - i,
    {
        let d = &data_set[i];
        stations.push(Station { id: d.idema.clone(), name: d.ubi.clone(), lat: d.lat, lon: d.lon });
        proof {
            assert(data_set@.subrange(0, i + 1).drop_last() =~= data_set@.subrange(0, i as int));
            assert(data_set@.subrange(0, i + 1).last() == data_set@[i as int]);
        }
        if d.ta.is_some() && d.hr.is_some() {
            observations.push(
                Observation {
                    station_id: d.idema.clone(),
                    observation_time: d.fint.clone(),
                    aerial_temperature: d.ta,
                    relative_humidity: d.hr,
                },
            );
        }
        i = i + 1;
    }
    assert(data_set@.subrange(0, data_set@.len() as int) =~= data_set@);
    MeteoData { stations, observations }
}

/// The character that ISO-8859-15 gives a byte: Latin-1's, but for eight
/// positions.
pub open spec fn latin9_char(b: u8) -> char {
    if b == 0xA4 {
        '\u{20AC}'
    } else if b == 0xA6 {
        '\u{0160}'
    } else if b == 0xA8 {
        '\u{0161}'
    } else if b == 0xB4 {
        '\u{017D}'
    } else if b == 0xB8 {
        '\u{017E}'
    } else if b == 0xBC {
        '\u{0152}'
    } else if b == 0xBD {
        '\u{0153}'
    } else if b == 0xBE {
        '\u{0178}'
    } else {
        b as char
    }
}

pub open spec fn latin9_text(b: Seq<u8>) -> Seq<char> {
    Seq::new(b.len(), |i: int| latin9_char(b[i]))
}

/// Relies on encoding_rs_io's `DecodeReaderBytesBuilder` and encoding_rs's
/// `ISO_8859_15`: with an explicit encoding no BOM is sniffed, and a
/// single-byte decoder turns each byte into the character of the encoding's
/// table, which `read_to_string` collects.
#[verifier::external_body]
fn decode_latin9(content: Vec<u8>) -> (r: Option<String>)
    ensures
        r matches Some(s) ==> s@ == latin9_text(content@),
{
    let mut rdr = encoding_rs_io::DecodeReaderBytesBuilder::new()
        .encoding(Some(encoding_rs::ISO_8859_15))
        .build(std::io::Cursor::new(content));
    let mut text = String::new();
    match rdr.read_to_string(&mut text) {
        Ok(_) => Some(text),
        Err(_) => None,
    }
}

/// Why downloaded bytes could not be read as text.
#[derive(Clone, Copy, Debug, PartialEq, Eq, Structural)]
pub enum DecodeError {
    Unreadable,
}

/// Reads the service's ISO-8859-15 bytes as text.
pub fn vec_to_string(content: Vec<u8>) -> (r: Result<String, DecodeError>)
    ensures
        r matches Ok(s) ==> s@ == latin9_text(content@),
{
    match decode_latin9(content) {
        Some(s) => Ok(s),
        None => Err(DecodeError::Unreadable),
    }
}

} // verus!
