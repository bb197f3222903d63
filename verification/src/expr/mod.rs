//! Expressions over the rows of an array.

pub mod case_when;
pub mod case_when_format;
pub mod display;
pub mod expression;
pub mod extract_conjuncts;
