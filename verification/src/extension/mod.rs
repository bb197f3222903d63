//! Extension types: types with a meaning of their own, stored as other types.

pub mod datetime;
