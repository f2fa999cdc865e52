//! Binary-data inspection toolkit: pattern search over byte buffers,
//! statistical analysis (byte frequencies, index of coincidence), and
//! byte-level diffing with hunk grouping and textual rendering.

pub mod analyze;
pub mod buffer;
pub mod color;
pub mod convert;
pub mod diff;
pub mod diff_render;
pub mod diff_side;
pub mod diff_summary;
pub mod errors;
pub mod parsing;
pub mod search;
pub mod search_parallel;
pub mod struct_cmd;
pub mod text;

pub use analyze::{AnalysisType, AnalyzeCommand, AnalyzeConfig, OutputFormat};
pub use buffer::{BinaryData, Chunk, Command, EditCommand, EditOperation, WriteCommand};
pub use color::ColorMode;
pub use convert::{BomMode, ErrorMode, NewlineMode};
pub use diff::{DiffCommand, DiffConfig, DiffEntry, DiffFormat};
pub use errors::BinfiddleError;
pub use parsing::{parse_ignore_ranges, parse_index, parse_range};
pub use search::{SearchCommand, SearchConfig, SearchMatch, SearchPattern};
pub use struct_cmd::{Endianness, FieldType, StructOutputFormat};
