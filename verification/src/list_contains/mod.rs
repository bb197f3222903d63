//! Whether a list contains a value.

pub mod byte_set;
pub mod compute;
pub mod hash;
pub mod inputs;
pub mod kernels;
pub mod probe;
