//! The transform stage of a small country-data pipeline: JSON documents of
//! unknown shape become rows of a fixed schema, serialised as CSV.

pub mod json;
pub mod decimal;
pub mod csv;
pub mod transform;
pub mod laws;
pub mod config;
pub mod loader;
pub mod rounding;
