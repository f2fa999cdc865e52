//! The plain kinds of structure-template parsing: field byte order, the
//! field data types with their fixed sizes, and the output format. The
//! template loading and field interpretation happen outside the library.

use crate::errors::BinfiddleError;
use crate::text::{eq_ignore_ascii_case, spec_ci_eq, str_to_chars};
use vstd::prelude::*;

verus! {

/// Endianness for multi-byte field interpretation.
#[derive(Debug, Clone, Copy, PartialEq, Eq, Structural)]
pub enum Endianness {
    /// Little-endian byte order (least significant byte first)
    Little,
    /// Big-endian byte order (most significant byte first)
    Big,
}

impl Default for Endianness {
    fn default() -> (r: Self)
        ensures
            r == Endianness::Little,
    {
        Endianness::Little
    }
}

/// The endianness a given keyword names, `None` for an unknown keyword.
pub open spec fn spec_endianness_of(s: Seq<char>) -> Option<Endianness> {
    if spec_ci_eq(s, ("little")@) || spec_ci_eq(s, ("le")@) || spec_ci_eq(s, ("little-endian")@)
        || spec_ci_eq(s, ("littleendian")@) {
        Some(Endianness::Little)
    } else if spec_ci_eq(s, ("big")@) || spec_ci_eq(s, ("be")@) || spec_ci_eq(s, ("big-endian")@)
        || spec_ci_eq(s, ("bigendian")@) {
        Some(Endianness::Big)
    } else {
        None
    }
}

impl Endianness {
    /// Parses an endianness string, case-insensitively.
    pub fn from_str(s: &str) -> (r: Result<Self, BinfiddleError>)
        ensures
            match r {
                Ok(m) => spec_endianness_of(s@) == Some(m),
                Err(e) => spec_endianness_of(s@) is None && e matches BinfiddleError::Parse(_),
            },
    {
        let v = str_to_chars(s);
        if eq_ignore_ascii_case(&v, "little") || eq_ignore_ascii_case(&v, "le")
            || eq_ignore_ascii_case(&v, "little-endian") || eq_ignore_ascii_case(
            &v,
            "littleendian",
        ) {
            Ok(Endianness::Little)
        } else if eq_ignore_ascii_case(&v, "big") || eq_ignore_ascii_case(&v, "be")
            || eq_ignore_ascii_case(&v, "big-endian") || eq_ignore_ascii_case(&v, "bigendian") {
            Ok(Endianness::Big)
        } else {
            Err(
                BinfiddleError::parse("Invalid endianness '", s, "': expected 'little' or 'big'"),
            )
        }
    }
}

/// Output format for struct command results.
#[derive(Debug, Clone, Copy, PartialEq, Eq, Structural)]
pub enum StructOutputFormat {
    /// Human-readable table format
    Human,
    /// JSON format
    Json,
    /// YAML format
    Yaml,
}

impl Default for StructOutputFormat {
    fn default() -> (r: Self)
        ensures
            r == StructOutputFormat::Human,
    {
        StructOutputFormat::Human
    }
}

/// The struct output format a given keyword names, `None` for an unknown
/// keyword.
pub open spec fn spec_struct_output_format_of(s: Seq<char>) -> Option<StructOutputFormat> {
    if spec_ci_eq(s, ("human")@) || spec_ci_eq(s, ("table")@) || spec_ci_eq(s, ("text")@) {
        Some(StructOutputFormat::Human)
    } else if spec_ci_eq(s, ("json")@) {
        Some(StructOutputFormat::Json)
    } else if spec_ci_eq(s, ("yaml")@) || spec_ci_eq(s, ("yml")@) {
        Some(StructOutputFormat::Yaml)
    } else {
        None
    }
}

impl StructOutputFormat {
    /// Parses an output format string, case-insensitively.
    pub fn from_str(s: &str) -> (r: Result<Self, BinfiddleError>)
        ensures
            match r {
                Ok(m) => spec_struct_output_format_of(s@) == Some(m),
                Err(e) => spec_struct_output_format_of(s@) is None && e matches
                    BinfiddleError::Parse(_),
            },
    {
        let v = str_to_chars(s);
        if eq_ignore_ascii_case(&v, "human") || eq_ignore_ascii_case(&v, "table")
            || eq_ignore_ascii_case(&v, "text") {
            Ok(StructOutputFormat::Human)
        } else if eq_ignore_ascii_case(&v, "json") {
            Ok(StructOutputFormat::Json)
        } else if eq_ignore_ascii_case(&v, "yaml") || eq_ignore_ascii_case(&v, "yml") {
            Ok(StructOutputFormat::Yaml)
        } else {
            Err(
                BinfiddleError::parse(
                    "Invalid output format '",
                    s,
                    "': expected 'human', 'json', or 'yaml'",
                ),
            )
        }
    }
}

/// Field data type for template fields.
#[derive(Debug, Clone, PartialEq, Eq, Structural)]
pub enum FieldType {
    /// Unsigned 8-bit integer
    U8,
    /// Unsigned 16-bit integer
    U16,
    /// Unsigned 32-bit integer
    U32,
    /// Unsigned 64-bit integer
    U64,
    /// Signed 8-bit integer
    I8,
    /// Signed 16-bit integer
    I16,
    /// Signed 32-bit integer
    I32,
    /// Signed 64-bit integer
    I64,
    /// Hexadecimal string representation of bytes
    HexString,
    /// ASCII/UTF-8 string (null-terminated or fixed length)
    String,
    /// Raw byte array
    Bytes,
}

impl Default for FieldType {
    fn default() -> (r: Self)
        ensures
            r == FieldType::Bytes,
    {
        FieldType::Bytes
    }
}

/// The field type a given keyword names, `None` for an unknown keyword.
pub open spec fn spec_field_type_of(s: Seq<char>) -> Option<FieldType> {
    if spec_ci_eq(s, ("u8")@) || spec_ci_eq(s, ("uint8")@) || spec_ci_eq(s, ("byte")@) {
        Some(FieldType::U8)
    } else if spec_ci_eq(s, ("u16")@) || spec_ci_eq(s, ("uint16")@) || spec_ci_eq(s, ("word")@)
        || spec_ci_eq(s, ("ushort")@) {
        Some(FieldType::U16)
    } else if spec_ci_eq(s, ("u32")@) || spec_ci_eq(s, ("uint32")@) || spec_ci_eq(s, ("dword")@)
        || spec_ci_eq(s, ("uint")@) {
        Some(FieldType::U32)
    } else if spec_ci_eq(s, ("u64")@) || spec_ci_eq(s, ("uint64")@) || spec_ci_eq(s, ("qword")@)
        || spec_ci_eq(s, ("ulong")@) {
        Some(FieldType::U64)
    } else if spec_ci_eq(s, ("i8")@) || spec_ci_eq(s, ("int8")@) || spec_ci_eq(s, ("sbyte")@) {
        Some(FieldType::I8)
    } else if spec_ci_eq(s, ("i16")@) || spec_ci_eq(s, ("int16")@) || spec_ci_eq(s, ("short")@) {
        Some(FieldType::I16)
    } else if spec_ci_eq(s, ("i32")@) || spec_ci_eq(s, ("int32")@) || spec_ci_eq(s, ("int")@) {
        Some(FieldType::I32)
    } else if spec_ci_eq(s, ("i64")@) || spec_ci_eq(s, ("int64")@) || spec_ci_eq(s, ("long")@) {
        Some(FieldType::I64)
    } else if spec_ci_eq(s, ("hex_string")@) || spec_ci_eq(s, ("hexstring")@) || spec_ci_eq(
        s,
        ("hex")@,
    ) {
        Some(FieldType::HexString)
    } else if spec_ci_eq(s, ("string")@) || spec_ci_eq(s, ("str")@) || spec_ci_eq(s, ("ascii")@)
        || spec_ci_eq(s, ("utf8")@) {
        Some(FieldType::String)
    } else if spec_ci_eq(s, ("bytes")@) || spec_ci_eq(s, ("raw")@) || spec_ci_eq(s, ("data")@) {
        Some(FieldType::Bytes)
    } else {
        None
    }
}

impl FieldType {
    /// Returns the expected size for this field type, if fixed.
    pub fn expected_size(&self) -> (r: Option<usize>)
        ensures
            r == match self {
                FieldType::U8 | FieldType::I8 => Some(1usize),
                FieldType::U16 | FieldType::I16 => Some(2usize),
                FieldType::U32 | FieldType::I32 => Some(4usize),
                FieldType::U64 | FieldType::I64 => Some(8usize),
                _ => None::<usize>,
            },
    {
        match self {
            FieldType::U8 | FieldType::I8 => Some(1),
            FieldType::U16 | FieldType::I16 => Some(2),
            FieldType::U32 | FieldType::I32 => Some(4),
            FieldType::U64 | FieldType::I64 => Some(8),
            _ => None,
        }
    }

    /// Parses a field type from string, case-insensitively.
    pub fn from_str(s: &str) -> (r: Result<Self, BinfiddleError>)
        ensures
            match r {
                Ok(m) => spec_field_type_of(s@) == Some(m),
                Err(e) => spec_field_type_of(s@) is None && e matches BinfiddleError::Parse(_),
            },
    {
        let v = str_to_chars(s);
        if eq_ignore_ascii_case(&v, "u8") || eq_ignore_ascii_case(&v, "uint8")
            || eq_ignore_ascii_case(&v, "byte") {
            Ok(FieldType::U8)
        } else if eq_ignore_ascii_case(&v, "u16") || eq_ignore_ascii_case(&v, "uint16")
            || eq_ignore_ascii_case(&v, "word") || eq_ignore_ascii_case(&v, "ushort") {
            Ok(FieldType::U16)
        } else if eq_ignore_ascii_case(&v, "u32") || eq_ignore_ascii_case(&v, "uint32")
            || eq_ignore_ascii_case(&v, "dword") || eq_ignore_ascii_case(&v, "uint") {
            Ok(FieldType::U32)
        } else if eq_ignore_ascii_case(&v, "u64") || eq_ignore_ascii_case(&v, "uint64")
            || eq_ignore_ascii_case(&v, "qword") || eq_ignore_ascii_case(&v, "ulong") {
            Ok(FieldType::U64)
        } else if eq_ignore_ascii_case(&v, "i8") || eq_ignore_ascii_case(&v, "int8")
            || eq_ignore_ascii_case(&v, "sbyte") {
            Ok(FieldType::I8)
        } else if eq_ignore_ascii_case(&v, "i16") || eq_ignore_ascii_case(&v, "int16")
            || eq_ignore_ascii_case(&v, "short") {
            Ok(FieldType::I16)
        } else if eq_ignore_ascii_case(&v, "i32") || eq_ignore_ascii_case(&v, "int32")
            || eq_ignore_ascii_case(&v, "int") {
            Ok(FieldType::I32)
        } else if eq_ignore_ascii_case(&v, "i64") || eq_ignore_ascii_case(&v, "int64")
            || eq_ignore_ascii_case(&v, "long") {
            Ok(FieldType::I64)
        } else if eq_ignore_ascii_case(&v, "hex_string") || eq_ignore_ascii_case(&v, "hexstring")
            || eq_ignore_ascii_case(&v, "hex") {
            Ok(FieldType::HexString)
        } else if eq_ignore_ascii_case(&v, "string") || eq_ignore_ascii_case(&v, "str")
            || eq_ignore_ascii_case(&v, "ascii") || eq_ignore_ascii_case(&v, "utf8") {
            Ok(FieldType::String)
        } else if eq_ignore_ascii_case(&v, "bytes") || eq_ignore_ascii_case(&v, "raw")
            || eq_ignore_ascii_case(&v, "data") {
            Ok(FieldType::Bytes)
        } else {
            Err(
                BinfiddleError::parse(
                    "Invalid field type '",
                    s,
                    "': expected u8, u16, u32, u64, i8, i16, i32, i64, hex_string, string, or bytes",
                ),
            )
        }
    }
}

} // verus!
