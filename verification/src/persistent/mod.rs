//! Reading and writing files of a table: schemas, pruning, splitting.

pub mod evaluation;
pub mod in_list;
pub mod open;
pub mod opener;
pub mod physical_expr;
pub mod schema;
pub mod sink;
pub mod stopping_stream;
