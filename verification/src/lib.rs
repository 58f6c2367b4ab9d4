//! Small verified utilities: an arithmetic-expression evaluator
//! (lexer, recursive-descent parser, integer evaluation with
//! explicit error values) and an IPv4 address helper.

pub mod decimal;
pub mod errors;
pub mod ipv4;
pub mod laws;
pub mod lexer;
pub mod parser;
pub mod token;
