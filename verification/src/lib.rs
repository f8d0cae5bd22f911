//! An arithmetic expression language: a lexer, a precedence-climbing parser,
//! and an evaluator over exact rational numbers.
//!
//! The pipeline turns a text such as `"2 + 3 * 4"` into a sequence of tokens,
//! parses the tokens into an expression tree, and evaluates the tree to a
//! single rational value, or to a defined failure (no expression, division by
//! zero, a value outside the machine range).

pub mod eval;
pub mod expr;
pub mod laws;
pub mod lexer;
pub mod parser;
pub mod rat;
pub mod token;
