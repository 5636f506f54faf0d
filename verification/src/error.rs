//! Error kinds surfaced by the parser, encoder and decoder.
//!
//! Tree construction is total over any text, so most kinds are reserved for
//! wrappers of a line source's failures or for a future strict mode.

use vstd::prelude::*;
use crate::text::dec_str;

verus! {

/// Ghost model of an error.
pub ghost enum ErrorV {
    ParseError { line: nat, message: Seq<char> },
    InvalidNesting { line: nat, expected: nat, actual: nat },
    UnknownBlockType { block_type: Seq<char> },
    InvalidAttribute { line: nat, attribute: Seq<char> },
    IoError(Seq<char>),
    Utf8Error(Seq<char>),
}

#[derive(Debug, Clone, PartialEq)]
pub enum BloxError {
    ParseError { line: usize, message: String },
    InvalidNesting { line: usize, expected: usize, actual: usize },
    UnknownBlockType { block_type: String },
    InvalidAttribute { line: usize, attribute: String },
    IoError(String),
    Utf8Error(String),
}

impl View for BloxError {
    type V = ErrorV;

    open spec fn view(&self) -> ErrorV {
        match self {
            BloxError::ParseError { line, message } => ErrorV::ParseError {
                line: *line as nat,
                message: message@,
            },
            BloxError::InvalidNesting { line, expected, actual } => ErrorV::InvalidNesting {
                line: *line as nat,
                expected: *expected as nat,
                actual: *actual as nat,
            },
            BloxError::UnknownBlockType { block_type } => ErrorV::UnknownBlockType {
                block_type: block_type@,
            },
            BloxError::InvalidAttribute { line, attribute } => ErrorV::InvalidAttribute {
                line: *line as nat,
                attribute: attribute@,
            },
            BloxError::IoError(s) => ErrorV::IoError(s@),
            BloxError::Utf8Error(s) => ErrorV::Utf8Error(s@),
        }
    }
}

/// The human-readable message of an error.
pub open spec fn error_message_spec(e: ErrorV) -> Seq<char> {
    match e {
        ErrorV::ParseError { line, message } => "Parse error at line "@ + dec_str(line) + ": "@
            + message,
        ErrorV::InvalidNesting { line, expected, actual } => "Invalid block nesting at line "@
            + dec_str(line) + ": expected level "@ + dec_str(expected) + ", got "@ + dec_str(
            actual,
        ),
        ErrorV::UnknownBlockType { block_type } => "Unknown block type: "@ + block_type,
        ErrorV::InvalidAttribute { line, attribute } => "Invalid attribute syntax at line "@
            + dec_str(line) + ": "@ + attribute,
        ErrorV::IoError(s) => "IO error: "@ + s,
        ErrorV::Utf8Error(s) => "UTF-8 encoding error: "@ + s,
    }
}

impl BloxError {
    /// The message a caller would print for this error.
    pub fn message(&self) -> (r: String)
        ensures
            r@ == error_message_spec(self@),
    {
        let mut s = String::new();
        match self {
            BloxError::ParseError { line, message } => {
                s.append("Parse error at line ");
                crate::text::push_usize(&mut s, *line);
                s.append(": ");
                s.append(message.as_str());
            },
            BloxError::InvalidNesting { line, expected, actual } => {
                s.append("Invalid block nesting at line ");
                crate::text::push_usize(&mut s, *line);
                s.append(": expected level ");
                crate::text::push_usize(&mut s, *expected);
                s.append(", got ");
                crate::text::push_usize(&mut s, *actual);
            },
            BloxError::UnknownBlockType { block_type } => {
                s.append("Unknown block type: ");
                s.append(block_type.as_str());
            },
            BloxError::InvalidAttribute { line, attribute } => {
                s.append("Invalid attribute syntax at line ");
                crate::text::push_usize(&mut s, *line);
                s.append(": ");
                s.append(attribute.as_str());
            },
            BloxError::IoError(m) => {
                s.append("IO error: ");
                s.append(m.as_str());
            },
            BloxError::Utf8Error(m) => {
                s.append("UTF-8 encoding error: ");
                s.append(m.as_str());
            },
        }
        proof {
            assert(s@ =~= error_message_spec(self@));
        }
        s
    }
}

pub type ParseResult<T> = Result<T, BloxError>;

} // verus!
