//! Types for the Unicode Character Database's `Blocks.txt`.
//!
//! The text format is parsed into a table of named, inclusive codepoint
//! ranges, and the table answers "which block holds this character" by
//! binary search.

pub mod errors;
pub mod laws;
pub mod parse;
pub mod scan;
pub mod table;

pub use table::BlockEntry;
pub use table::Blocks;
pub use table::EntryV;

pub use errors::FromFileError;
pub use errors::FromFileErrorKind;
pub use errors::IntErrorKind;
pub use errors::ParseError;
pub use errors::ParseErrorKind;
