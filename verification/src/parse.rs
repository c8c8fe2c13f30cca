//! Parse the input into a syntax tree.

pub mod integer;
pub mod grammar;
pub mod params;
pub mod parser;
pub mod string;
