//! Validation and enrichment of geotagged sensor readings, with the spatial
//! index that resolves a coordinate to its region.

pub mod arithmetic;
pub mod config;
pub mod double;
pub mod geo;
pub mod influx_writer;
pub mod processor;
pub mod proto;
pub mod rounding;
pub mod text;
