//! Maximum genome size per species from an assembly catalog: parsing the
//! tab-delimited catalog, admitting rows, aggregating sizes per species, and
//! rendering a sorted comma-separated report.
pub mod decode;
pub mod index;
pub mod laws;
pub mod order;
pub mod parse;
pub mod record;
pub mod render;
pub mod report;
pub mod size;
mod text;
