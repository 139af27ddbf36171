pub mod bool_laws;
pub mod chain_laws;
pub mod bool_parse;

pub use crate::parser::bool_parse::{BooleanEvaluator, BooleanParser};
