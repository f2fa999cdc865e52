//! The plain configuration kinds of text conversion: newline style, byte
//! order mark handling, and the error mode for invalid sequences. The
//! encoding work itself happens outside the library.

use crate::errors::BinfiddleError;
use crate::text::{eq_ignore_ascii_case, spec_ci_eq, str_to_chars};
use vstd::prelude::*;

verus! {

/// Newline conversion mode.
#[derive(Debug, Clone, Copy, PartialEq, Eq, Structural)]
pub enum NewlineMode {
    /// Unix-style: LF (`\n`)
    Unix,
    /// Windows-style: CRLF (`\r\n`)
    Windows,
    /// Classic Mac OS-style: CR (`\r`)
    Mac,
    /// Keep original line endings unchanged
    Keep,
}

impl Default for NewlineMode {
    fn default() -> (r: Self)
        ensures
            r == NewlineMode::Keep,
    {
        NewlineMode::Keep
    }
}

/// The newline mode a given keyword names, `None` for an unknown keyword.
pub open spec fn spec_newline_mode_of(s: Seq<char>) -> Option<NewlineMode> {
    if spec_ci_eq(s, ("unix")@) || spec_ci_eq(s, ("lf")@) {
        Some(NewlineMode::Unix)
    } else if spec_ci_eq(s, ("windows")@) || spec_ci_eq(s, ("crlf")@) || spec_ci_eq(s, ("dos")@) {
        Some(NewlineMode::Windows)
    } else if spec_ci_eq(s, ("mac")@) || spec_ci_eq(s, ("cr")@) {
        Some(NewlineMode::Mac)
    } else if spec_ci_eq(s, ("keep")@) || spec_ci_eq(s, ("preserve")@) {
        Some(NewlineMode::Keep)
    } else {
        None
    }
}

impl NewlineMode {
    /// Parse a newline mode from a string, case-insensitively.
    pub fn from_str(s: &str) -> (r: Result<Self, BinfiddleError>)
        ensures
            match r {
                Ok(m) => spec_newline_mode_of(s@) == Some(m),
                Err(e) => spec_newline_mode_of(s@) is None && e matches
                    BinfiddleError::InvalidInput(_),
            },
    {
        let v = str_to_chars(s);
        if eq_ignore_ascii_case(&v, "unix") || eq_ignore_ascii_case(&v, "lf") {
            Ok(NewlineMode::Unix)
        } else if eq_ignore_ascii_case(&v, "windows") || eq_ignore_ascii_case(&v, "crlf")
            || eq_ignore_ascii_case(&v, "dos") {
            Ok(NewlineMode::Windows)
        } else if eq_ignore_ascii_case(&v, "mac") || eq_ignore_ascii_case(&v, "cr") {
            Ok(NewlineMode::Mac)
        } else if eq_ignore_ascii_case(&v, "keep") || eq_ignore_ascii_case(&v, "preserve") {
            Ok(NewlineMode::Keep)
        } else {
            Err(
                BinfiddleError::invalid_input(
                    "Unknown newline mode: '",
                    s,
                    "'. Supported: unix, windows, mac, keep",
                ),
            )
        }
    }

    /// The newline byte sequence for this mode; `Keep` falls back to LF.
    pub fn as_bytes(&self) -> (r: Vec<u8>)
        ensures
            r@ == match self {
                NewlineMode::Unix => seq![10u8],
                NewlineMode::Windows => seq![13u8, 10u8],
                NewlineMode::Mac => seq![13u8],
                NewlineMode::Keep => seq![10u8],
            },
    {
        let mut r: Vec<u8> = Vec::new();
        match self {
            NewlineMode::Unix => {
                r.push(10);
                assert(r@ =~= seq![10u8]);
            },
            NewlineMode::Windows => {
                r.push(13);
                r.push(10);
                assert(r@ =~= seq![13u8, 10u8]);
            },
            NewlineMode::Mac => {
                r.push(13);
                assert(r@ =~= seq![13u8]);
            },
            NewlineMode::Keep => {
                r.push(10);
                assert(r@ =~= seq![10u8]);
            },
        }
        r
    }
}

/// Byte order mark handling mode.
#[derive(Debug, Clone, Copy, PartialEq, Eq, Structural)]
pub enum BomMode {
    /// Add a BOM appropriate for the target encoding
    Add,
    /// Remove any existing BOM
    Remove,
    /// Keep existing BOM (or absence thereof)
    Keep,
}

impl Default for BomMode {
    fn default() -> (r: Self)
        ensures
            r == BomMode::Keep,
    {
        BomMode::Keep
    }
}

/// The BOM mode a given keyword names, `None` for an unknown keyword.
pub open spec fn spec_bom_mode_of(s: Seq<char>) -> Option<BomMode> {
    if spec_ci_eq(s, ("add")@) || spec_ci_eq(s, ("yes")@) || spec_ci_eq(s, ("true")@) {
        Some(BomMode::Add)
    } else if spec_ci_eq(s, ("remove")@) || spec_ci_eq(s, ("strip")@) || spec_ci_eq(s, ("no")@)
        || spec_ci_eq(s, ("false")@) {
        Some(BomMode::Remove)
    } else if spec_ci_eq(s, ("keep")@) || spec_ci_eq(s, ("preserve")@) {
        Some(BomMode::Keep)
    } else {
        None
    }
}

impl BomMode {
    /// Parse a BOM mode from a string, case-insensitively.
    pub fn from_str(s: &str) -> (r: Result<Self, BinfiddleError>)
        ensures
            match r {
                Ok(m) => spec_bom_mode_of(s@) == Some(m),
                Err(e) => spec_bom_mode_of(s@) is None && e matches BinfiddleError::InvalidInput(
                    _,
                ),
            },
    {
        let v = str_to_chars(s);
        if eq_ignore_ascii_case(&v, "add") || eq_ignore_ascii_case(&v, "yes")
            || eq_ignore_ascii_case(&v, "true") {
            Ok(BomMode::Add)
        } else if eq_ignore_ascii_case(&v, "remove") || eq_ignore_ascii_case(&v, "strip")
            || eq_ignore_ascii_case(&v, "no") || eq_ignore_ascii_case(&v, "false") {
            Ok(BomMode::Remove)
        } else if eq_ignore_ascii_case(&v, "keep") || eq_ignore_ascii_case(&v, "preserve") {
            Ok(BomMode::Keep)
        } else {
            Err(
                BinfiddleError::invalid_input(
                    "Unknown BOM mode: '",
                    s,
                    "'. Supported: add, remove, keep",
                ),
            )
        }
    }
}

/// Error handling mode for encoding and decoding.
#[derive(Debug, Clone, Copy, PartialEq, Eq, Structural)]
pub enum ErrorMode {
    /// Fail immediately on any encoding/decoding error
    Strict,
    /// Replace invalid characters with the replacement character
    Replace,
    /// Skip invalid byte sequences (may lose data)
    Ignore,
}

impl Default for ErrorMode {
    fn default() -> (r: Self)
        ensures
            r == ErrorMode::Replace,
    {
        ErrorMode::Replace
    }
}

/// The error mode a given keyword names, `None` for an unknown keyword.
pub open spec fn spec_error_mode_of(s: Seq<char>) -> Option<ErrorMode> {
    if spec_ci_eq(s, ("strict")@) || spec_ci_eq(s, ("error")@) || spec_ci_eq(s, ("fail")@) {
        Some(ErrorMode::Strict)
    } else if spec_ci_eq(s, ("replace")@) || spec_ci_eq(s, ("substitute")@) {
        Some(ErrorMode::Replace)
    } else if spec_ci_eq(s, ("ignore")@) || spec_ci_eq(s, ("skip")@) {
        Some(ErrorMode::Ignore)
    } else {
        None
    }
}

impl ErrorMode {
    /// Parse an error mode from a string, case-insensitively.
    pub fn from_str(s: &str) -> (r: Result<Self, BinfiddleError>)
        ensures
            match r {
                Ok(m) => spec_error_mode_of(s@) == Some(m),
                Err(e) => spec_error_mode_of(s@) is None && e matches BinfiddleError::InvalidInput(
                    _,
                ),
            },
    {
        let v = str_to_chars(s);
        if eq_ignore_ascii_case(&v, "strict") || eq_ignore_ascii_case(&v, "error")
            || eq_ignore_ascii_case(&v, "fail") {
            Ok(ErrorMode::Strict)
        } else if eq_ignore_ascii_case(&v, "replace") || eq_ignore_ascii_case(&v, "substitute") {
            Ok(ErrorMode::Replace)
        } else if eq_ignore_ascii_case(&v, "ignore") || eq_ignore_ascii_case(&v, "skip") {
            Ok(ErrorMode::Ignore)
        } else {
            Err(
                BinfiddleError::invalid_input(
                    "Unknown error mode: '",
                    s,
                    "'. Supported: strict, replace, ignore",
                ),
            )
        }
    }
}

} // verus!
