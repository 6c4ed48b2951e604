//! The one error type of the lexer, the parser and the interpreter.
use vstd::prelude::*;
use crate::text::{decimal, push_decimal};

verus! {

#[derive(Debug, Clone, PartialEq)]
pub enum SSharpError {
    LexError { message: String, line: usize, column: usize },
    ParseError { message: String, line: usize, column: usize },
    RuntimeError { message: String },
}

/// The text shown for an error: where it was found, then its message.
pub open spec fn error_text(e: SSharpError) -> Seq<char> {
    match e {
        SSharpError::LexError { message, line, column } => "Lex Error at line "@ + decimal(
            line as nat,
        ) + ", column "@ + decimal(column as nat) + ": "@ + message@,
        SSharpError::ParseError { message, line, column } => "Parse Error at line "@ + decimal(
            line as nat,
        ) + ", column "@ + decimal(column as nat) + ": "@ + message@,
        SSharpError::RuntimeError { message } => "Runtime Error: "@ + message@,
    }
}

impl SSharpError {
    /// The human-readable text of the error, as the command-line tool prints it.
    pub fn to_text(&self) -> (s: String)
        ensures
            s@ == error_text(*self),
    {
        match self {
            SSharpError::LexError { message, line, column } => {
                let mut s = String::new();
                s.append("Lex Error at line ");
                push_decimal(&mut s, *line);
                s.append(", column ");
                push_decimal(&mut s, *column);
                s.append(": ");
                s.append(message.as_str());
                s
            },
            SSharpError::ParseError { message, line, column } => {
                let mut s = String::new();
                s.append("Parse Error at line ");
                push_decimal(&mut s, *line);
                s.append(", column ");
                push_decimal(&mut s, *column);
                s.append(": ");
                s.append(message.as_str());
                s
            },
            SSharpError::RuntimeError { message } => {
                let mut s = String::new();
                s.append("Runtime Error: ");
                s.append(message.as_str());
                s
            },
        }
    }
}

} // verus!
