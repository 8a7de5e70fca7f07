//! Conversion of waypoint listings in the `$FormatGEO` text format into
//! GPX 1.0 documents.
pub mod formatter;
pub mod parser;
pub mod waypoint;

pub use waypoint::{Coordinate, Waypoint};
