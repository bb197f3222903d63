//! Dates, times and timestamps.

pub mod cast;
pub mod timestamp;
pub mod timezone;
