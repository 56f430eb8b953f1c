//! Conversion of comma-separated text into one of two JSON shapes: a map from
//! column name to the column's values, or a list of row records.

pub mod accumulate;
pub mod driver;
pub mod error;
pub mod json;
pub mod laws;
pub mod shape;
pub mod tokenize;
