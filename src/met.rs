//! The records the estimation engine reads and produces.
use vstd::prelude::*;

verus! {

/// Latitude and longitude in units of 1e-7 degrees.
#[derive(Clone, Copy, Debug, PartialEq, Eq, Structural)]
pub struct Location {
    pub lat: i32,
    pub lon: i32,
}

/// A fixed monitoring station.
#[derive(Clone, Debug)]
pub struct Station {
    pub id: String,
    pub name: String,
    pub lat: i32,
    pub lon: i32,
}

/// One report of a station. Temperature and humidity are in hundredths of a
/// degree Celsius and of a percent; either may be missing.
#[derive(Clone, Debug)]
pub struct Observation {
    pub station_id: String,
    pub observation_time: String,
    pub aerial_temperature: Option<i32>,
    pub relative_humidity: Option<i32>,
}

/// The metric that a `LocatedValue` carries.
#[derive(Clone, Copy, Debug, PartialEq, Eq, Structural)]
pub enum Metric {
    Temperature,
    Humidity,
}

/// A station's location tagged with one metric value.
#[derive(Clone, Copy, Debug, Default, PartialEq, Eq, Structural)]
pub struct LocatedValue {
    pub lat: i32,
    pub lon: i32,
    pub val: i32,
}

/// Why an estimation could not be made.
#[derive(Clone, Copy, Debug, PartialEq, Eq, Structural)]
pub enum EstimationError {
    /// The catalog holds fewer than three distinct station coordinates.
    InsufficientStations,
    /// A station has no observation with both temperature and humidity.
    NoObservation,
    /// Fewer than three located stations have a usable observation.
    IncompleteObservationSet,
    /// The three stations are collinear, so no plane passes through them.
    DegenerateInterpolation,
    /// An interpolated temperature or humidity lies outside the range that the
    /// heat index takes (a 16-bit count of hundredths).
    ValueOutOfRange,
    /// Stations and observations were paired inconsistently.
    ProgrammingError,
}

/// What one estimation returns: the query location, the interpolated
/// temperature and humidity (hundredths, rounded to nearest), the heat index in
/// units of `HEAT_INDEX_SCALE`-ths of a degree Celsius, and the stations used.
#[derive(Clone, Debug)]
pub struct WheatrApiResponseData {
    pub used_stations: [Station; 3],
    pub local_lat: i32,
    pub local_lon: i32,
    pub local_air_temperature: i16,
    pub local_rel_humidity: i16,
    pub local_hi: i128,
}

/// Stations and observations parsed out of one download.
#[derive(Clone, Debug)]
pub struct MeteoData {
    pub stations: Vec<Station>,
    pub observations: Vec<Observation>,
}

/// One entry of the weather service's data set: observation time, station id,
/// relative humidity, location, air temperature and station name.
#[derive(Clone, Debug)]
pub struct AemetData {
    pub fint: String,
    pub idema: String,
    pub hr: Option<i32>,
    pub lat: i32,
    pub lon: i32,
    pub ta: Option<i32>,
    pub ubi: String,
}

/// The weather service's first answer: a status and where the data set lies.
#[derive(Clone, Debug)]
pub struct AemetFirstResponse {
    pub estado: i32,
    pub datos: String,
    pub metadatos: String,
}

} // verus!

verus! {

/// The UTF-8 bytes of a string; ids and timestamps are compared by them.
pub open spec fn text_bytes(s: String) -> Seq<u8> {
    vstd::utf8::encode_utf8(s@)
}

/// The bytes of `s`, as `text_bytes` describes them.
pub fn bytes_of(s: &String) -> (r: &[u8])
    ensures
        r@ == text_bytes(*s),
{
    s.as_str().as_bytes()
}

/// The value of `metric` in an observation, if it was reported.
pub open spec fn metric_value(o: Observation, metric: Metric) -> Option<i32> {
    match metric {
        Metric::Temperature => o.aerial_temperature,
        Metric::Humidity => o.relative_humidity,
    }
}

/// An observation reports both temperature and humidity.
pub open spec fn is_complete(o: Observation) -> bool {
    o.aerial_temperature.is_some() && o.relative_humidity.is_some()
}

/// A field-for-field copy of a station.
pub fn copy_station(s: &Station) -> (r: Station)
    ensures
        r == *s,
{
    Station { id: s.id.clone(), name: s.name.clone(), lat: s.lat, lon: s.lon }
}

/// A field-for-field copy of an observation.
pub fn copy_observation(o: &Observation) -> (r: Observation)
    ensures
        r == *o,
{
    Observation {
        station_id: o.station_id.clone(),
        observation_time: o.observation_time.clone(),
        aerial_temperature: o.aerial_temperature,
        relative_humidity: o.relative_humidity,
    }
}

} // verus!
