//! The plain row: the five columns that are written when no expression is
//! asked for.

use crate::record::FakeData;
use vstd::prelude::*;

verus! {

/// The kind, the identifier, the name and the position of a record.
#[derive(Debug, Clone, PartialEq)]
pub struct CSVData {
    pub location_type: String,
    pub _id: u32,
    pub name: String,
    pub latitude: String,
    pub longitude: String,
}

impl From<FakeData> for CSVData {
    /// Takes the five columns out of the record, unchanged.
    fn from(data: FakeData) -> (row: CSVData) {
        CSVData {
            location_type: data.location_type,
            _id: data._id,
            name: data.name,
            latitude: data.geo_position.latitude,
            longitude: data.geo_position.longitude,
        }
    }
}

impl vstd::std_specs::convert::FromSpecImpl<FakeData> for CSVData {
    open spec fn obeys_from_spec() -> bool {
        true
    }

    open spec fn from_spec(data: FakeData) -> CSVData {
        CSVData {
            location_type: data.location_type,
            _id: data._id,
            name: data.name,
            latitude: data.geo_position.latitude,
            longitude: data.geo_position.longitude,
        }
    }
}

} // verus!
