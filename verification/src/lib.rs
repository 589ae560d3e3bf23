//! Front end of a small interpreted language: a lexer that turns source text
//! into positioned tokens, and a recursive-descent parser with precedence
//! climbing that turns tokens into an abstract syntax tree.
//!
//! Both passes are pure functions of their input and fail fast: the first
//! lexical or grammatical error aborts the call and is returned as a value.

pub mod lexer;
pub mod parser;
