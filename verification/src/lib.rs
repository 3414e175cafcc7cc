//! A border-crossing detection engine for location-history exports.
//!
//! The library turns a chronologically ordered stream of location fixes, each
//! annotated with the set of administrative regions that contain it, into a
//! filtered, deduplicated sequence of border-crossing events, and renders that
//! sequence as a human-readable report with inter-crossing durations.

pub mod data;
pub mod detect;
pub mod filter;
pub mod report;
pub mod json;
pub mod time;
