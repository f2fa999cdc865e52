//! Error kinds shared by every operation of the library.

use crate::text::{chars_to_string, push_str_chars};
use vstd::prelude::*;

verus! {

/// The failure cases a library operation can report.
///
/// `Io` carries the text of an underlying storage error; the library itself
/// never performs I/O, callers that do can funnel their failures through it.
#[derive(Debug, Clone)]
pub enum BinfiddleError {
    /// Underlying storage access failure, by message.
    Io(String),
    /// A well-formed-looking value failed domain-specific parsing.
    Parse(String),
    /// A requested offset or range falls outside the buffer or is inverted.
    InvalidRange(String),
    /// A chunk size of zero, or one larger than the data allows.
    InvalidChunkSize(usize),
    /// A malformed or semantically empty argument.
    InvalidInput(String),
    /// An operation the library does not support.
    UnsupportedOperation(String),
}

/// A message of the shape `prefix`, offending fragment, `suffix`.
pub fn join_msg(prefix: &str, frag: &str, suffix: &str) -> (m: String)
    ensures
        m@ == prefix@ + frag@ + suffix@,
{
    let mut out: Vec<char> = Vec::new();
    push_str_chars(&mut out, prefix);
    push_str_chars(&mut out, frag);
    push_str_chars(&mut out, suffix);
    chars_to_string(&out)
}

impl BinfiddleError {
    /// An `InvalidInput` error whose message quotes the offending fragment.
    pub fn invalid_input(prefix: &str, frag: &str, suffix: &str) -> (e: BinfiddleError)
        ensures
            e matches BinfiddleError::InvalidInput(m) && m@ == prefix@ + frag@ + suffix@,
    {
        BinfiddleError::InvalidInput(join_msg(prefix, frag, suffix))
    }

    /// A `Parse` error whose message quotes the offending fragment.
    pub fn parse(prefix: &str, frag: &str, suffix: &str) -> (e: BinfiddleError)
        ensures
            e matches BinfiddleError::Parse(m) && m@ == prefix@ + frag@ + suffix@,
    {
        BinfiddleError::Parse(join_msg(prefix, frag, suffix))
    }
    /// A short label naming the error kind, usable as a message prefix.
    pub fn kind_label(&self) -> (r: &'static str)
        ensures
            r == match self {
                BinfiddleError::Io(_) => "I/O error",
                BinfiddleError::Parse(_) => "Parse error",
                BinfiddleError::InvalidRange(_) => "Invalid range",
                BinfiddleError::InvalidChunkSize(_) => "Invalid chunk size",
                BinfiddleError::InvalidInput(_) => "Invalid input",
                BinfiddleError::UnsupportedOperation(_) => "Operation not supported",
            },
    {
        match self {
            BinfiddleError::Io(_) => "I/O error",
            BinfiddleError::Parse(_) => "Parse error",
            BinfiddleError::InvalidRange(_) => "Invalid range",
            BinfiddleError::InvalidChunkSize(_) => "Invalid chunk size",
            BinfiddleError::InvalidInput(_) => "Invalid input",
            BinfiddleError::UnsupportedOperation(_) => "Operation not supported",
        }
    }
}

} // verus!
