//! Core logic of an environmental sensor-reading service: a dictionary that
//! maps location and sensor names to stable integer identifiers, an
//! append-only store of timestamped readings, and an adaptive-resolution
//! query engine that picks a time-bucket granularity from the width of the
//! requested interval and returns per-bucket groups in ascending time order.

pub mod aggregate;
pub mod bucket;
pub mod calendar;
pub mod dictionary;
pub mod errors;
pub mod queries;
pub mod store;
