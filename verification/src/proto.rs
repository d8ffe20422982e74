//! The reading that the pipeline works on.

use crate::double::Double;
use vstd::prelude::*;

verus! {

/// One timestamped, geolocated measurement of a named variable.
#[derive(Debug)]
pub struct DataPoint {
    pub source: String,
    pub category: String,
    pub variable: String,
    pub value: Double,
    pub units: String,
    pub lat: Double,
    pub lon: Double,
    pub epoch_ms: i64,
}

pub struct DataPointView {
    pub source: Seq<char>,
    pub category: Seq<char>,
    pub variable: Seq<char>,
    pub value: Double,
    pub units: Seq<char>,
    pub lat: Double,
    pub lon: Double,
    pub epoch_ms: i64,
}

impl View for DataPoint {
    type V = DataPointView;

    open spec fn view(&self) -> DataPointView {
        DataPointView {
            source: self.source@,
            category: self.category@,
            variable: self.variable@,
            value: self.value,
            units: self.units@,
            lat: self.lat,
            lon: self.lon,
            epoch_ms: self.epoch_ms,
        }
    }
}

impl Clone for DataPoint {
    fn clone(&self) -> (r: Self)
        ensures
            r@ == self@,
    {
        DataPoint {
            source: self.source.clone(),
            category: self.category.clone(),
            variable: self.variable.clone(),
            value: self.value,
            units: self.units.clone(),
            lat: self.lat,
            lon: self.lon,
            epoch_ms: self.epoch_ms,
        }
    }
}

} // verus!
