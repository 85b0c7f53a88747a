//! Front end of a small dynamically-typed expression language: a scanner
//! that turns source text into a sequence of classified tokens (collecting
//! lexical errors without aborting), and a recursive-descent parser that
//! turns the token sequence into an expression tree over a fixed
//! precedence ladder.

pub mod token;
pub mod error;
pub mod scan_spec;
pub mod lexer;
pub mod expr;
pub mod parser;
pub mod interpreter;
pub mod laws;
