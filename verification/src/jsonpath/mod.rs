//! JSONPath queries: their syntax tree, parser and evaluator.
pub mod ast;
pub mod error;
pub mod evaluator;
pub mod parser;
