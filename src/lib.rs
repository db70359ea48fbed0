//! Typed, columnar loading of delimited text.
pub mod agreement;
pub mod column;
pub mod dataframe;
pub mod lineparser;
pub mod schema;
pub mod stringpool;
pub mod text;
