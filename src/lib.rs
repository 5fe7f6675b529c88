//! Local weather estimation from a sparse network of monitoring stations.
//!
//! Coordinates are fixed-point integers in units of 1e-7 degrees; temperature
//! and relative humidity are fixed-point integers in hundredths (of a degree
//! Celsius, of a percent).
pub mod lexical;
pub mod met;
pub mod calculations;
pub mod locator;
pub mod resolver;
pub mod estimate;
pub mod ingest;
