//! S# ("Scratch in text form"): a lexer, a recursive-descent parser and the
//! statement scheduler of a small educational language, with their behaviour
//! stated as Verus contracts.

pub mod error;
pub mod interpreter;
pub mod lexer;
pub mod parser;
pub mod text;
