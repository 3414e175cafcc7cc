//! The raw record shapes found in a location-history export document.
//!
//! These are plain data carriers: a collaborator parses the JSON document and
//! hands the engine values of these types.

use vstd::prelude::*;

verus! {

/// The top-level document: a list of raw location records.
pub struct JsonDocument {
    pub locations: Vec<JsonRecord>,
}

/// One raw location record. Latitude and longitude are fixed-point degrees
/// scaled by ten million; either may be absent. The timestamp is an RFC 3339
/// date-time string.
pub struct JsonRecord {
    pub latitude: Option<i64>,
    pub longitude: Option<i64>,
    pub accuracy: Option<i64>,
    pub vertical_accuracy: Option<i64>,
    pub source: Option<JsonSource>,
    pub timestamp: String,
}

/// The source tags that appear verbatim in raw records.
#[derive(Clone, Copy, Debug, PartialEq, Eq, Structural, Hash)]
pub enum JsonSource {
    Wifi,
    Unknown,
    GPS,
    Cell,
    VisitDeparture,
    VisitArrival,
    Manual,
}

} // verus!
