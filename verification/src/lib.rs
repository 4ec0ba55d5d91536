//! A round-trip-preserving parser and in-memory document model for a
//! configuration format of nested tables, array-of-tables and typed values.
//! Every whitespace run, comment and quoting style is retained verbatim, so
//! an unmodified document serializes back byte-for-byte.

pub mod ast;
pub mod objects;
pub mod parser;
pub mod primitives;
mod text;

pub use text::is_keychar;
