pub mod arrays;
pub mod dtype;
pub mod ext_scalar;
pub mod ext_scalar_key;
pub mod expr;
pub mod extension;
pub mod layout;
pub mod list_contains;
pub mod parallelism;
pub mod persistent;
pub mod scalar;
pub mod scan;
pub mod sorting;
pub mod text;
