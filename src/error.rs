//! The errors of the front end.
use crate::text::push_text;
use vstd::prelude::*;

verus! {

/// A lexical or syntactic error; each stops the compilation.
#[derive(Debug)]
pub enum ParseError {
    InvalidToken(String),
    UnexpectedToken(String),
    UnexpectedEndOfInput,
    InvalidNumber(String),
}

/// The message shown for an error.
pub open spec fn error_message(e: ParseError) -> Seq<char> {
    match e {
        ParseError::InvalidToken(m) => "Invalid token: "@ + m@,
        ParseError::UnexpectedToken(m) => "Unexpected token: "@ + m@,
        ParseError::UnexpectedEndOfInput => "Unexpected end of input"@,
        ParseError::InvalidNumber(m) => "Invalid number: "@ + m@,
    }
}

impl ParseError {
    pub fn message(&self) -> (r: String)
        ensures
            r@ == error_message(*self),
    {
        match self {
            ParseError::InvalidToken(m) => {
                let mut r = String::from_str("Invalid token: ");
                push_text(&mut r, m);
                r
            },
            ParseError::UnexpectedToken(m) => {
                let mut r = String::from_str("Unexpected token: ");
                push_text(&mut r, m);
                r
            },
            ParseError::UnexpectedEndOfInput => String::from_str("Unexpected end of input"),
            ParseError::InvalidNumber(m) => {
                let mut r = String::from_str("Invalid number: ");
                push_text(&mut r, m);
                r
            },
        }
    }
}

} // verus!
