//! What the readers of a file's layout share.

pub mod expr_cache;
pub mod footer;
pub mod reader_context;
pub mod segment_cache;
pub mod tree;
pub mod tree_writer;
