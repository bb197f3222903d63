//! Arrays of values, and what is computed on them.

pub mod array;
pub mod arrow_map;
pub mod decimal_cast;
pub mod dict_take;
pub mod extension_cast;
pub mod min_max;
pub mod validity;
pub mod views_side;
