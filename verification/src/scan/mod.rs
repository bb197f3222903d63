//! Scanning a layout: splits, sampling of running scans.

pub mod probe;
pub mod repeated_scan;
pub mod scanpark;
