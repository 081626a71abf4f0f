//! `EngineError`, every failure the engine surfaces to a host. Lex/parse
//! errors carry character offsets into the source line so UIs can render a
//! caret under the offending column.

use vstd::prelude::*;
use crate::text::{int_text, i64_text};

verus! {

#[derive(Debug, Clone, PartialEq, Eq)]
pub enum EngineError {
    LexError { message: String, position: usize },
    ParseError { message: String, position: usize },
    DivisionByZero,
    UnknownVariable { name: String },
    UnknownFunction { name: String },
    ArityMismatch { function: String, expected: String, got: usize },
    DomainError { message: String },
}

impl EngineError {
    /// A domain error carrying `message`.
    pub fn domain(message: String) -> (r: Self)
        ensures
            r matches EngineError::DomainError { message: m } && m@ == message@,
    {
        EngineError::DomainError { message }
    }

    /// Column to point a caret at, when the error is positional.
    pub fn position(&self) -> (r: Option<usize>)
        ensures
            r == match self {
                EngineError::LexError { position, .. } => Some(*position),
                EngineError::ParseError { position, .. } => Some(*position),
                _ => None::<usize>,
            },
    {
        match self {
            EngineError::LexError { position, .. } => Some(*position),
            EngineError::ParseError { position, .. } => Some(*position),
            _ => None,
        }
    }
}

/// The message a host shows for an error.
pub open spec fn error_text(e: EngineError) -> Seq<char> {
    match e {
        EngineError::LexError { message, position } => "syntax error at column "@ + int_text(position + 1) + ": "@
            + message@,
        EngineError::ParseError { message, position } => "parse error at column "@ + int_text(position + 1) + ": "@
            + message@,
        EngineError::DivisionByZero => "division by zero"@,
        EngineError::UnknownVariable { name } => "unknown variable '"@ + name@ + seq!['\''],
        EngineError::UnknownFunction { name } => "unknown function '"@ + name@ + seq!['\''],
        EngineError::ArityMismatch { function, expected, got } => function@ + "() expects "@ + expected@
            + " argument"@ + (if expected@ == "1"@ { Seq::empty() } else { seq!['s'] }) + ", got "@
            + int_text(got as int),
        EngineError::DomainError { message } => message@,
    }
}

impl EngineError {
    /// The message a host shows (the error's `Display` text).
    pub fn to_string(&self) -> (r: String)
        requires
            self matches EngineError::LexError { position, .. } ==> position < i64::MAX,
            self matches EngineError::ParseError { position, .. } ==> position < i64::MAX,
            self matches EngineError::ArityMismatch { got, .. } ==> got <= i64::MAX,
        ensures
            r@ == error_text(*self),
    {
        match self {
            EngineError::LexError { message, position } => {
                let mut out = String::from_str("syntax error at column ");
                let column = i64_text(*position as i64 + 1);
                out.append(column.as_str());
                out.append(": ");
                out.append(message.as_str());
                out
            }
            EngineError::ParseError { message, position } => {
                let mut out = String::from_str("parse error at column ");
                let column = i64_text(*position as i64 + 1);
                out.append(column.as_str());
                out.append(": ");
                out.append(message.as_str());
                out
            }
            EngineError::DivisionByZero => String::from_str("division by zero"),
            EngineError::UnknownVariable { name } => {
                let mut out = String::from_str("unknown variable '");
                out.append(name.as_str());
                out.append("'");
                proof {
                    reveal_strlit("'");
                }
                out
            }
            EngineError::UnknownFunction { name } => {
                let mut out = String::from_str("unknown function '");
                out.append(name.as_str());
                out.append("'");
                proof {
                    reveal_strlit("'");
                }
                out
            }
            EngineError::ArityMismatch { function, expected, got } => {
                let mut out = function.clone();
                out.append("() expects ");
                out.append(expected.as_str());
                out.append(" argument");
                if !crate::eval::currency::str_equal(expected.as_str(), "1") {
                    out.append("s");
                    proof {
                        reveal_strlit("s");
                    }
                }
                out.append(", got ");
                let count = i64_text(*got as i64);
                out.append(count.as_str());
                out
            }
            EngineError::DomainError { message } => message.clone(),
        }
    }
}

} // verus!
