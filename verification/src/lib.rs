//! A tokenizing reader/writer pair for delimiter-separated text.
//!
//! The library turns in-memory text into a stream of delimiter-separated
//! tokens, each parsed into a caller-chosen type, and pairs it with a
//! buffered writer.  Console and file plumbing lives outside the library;
//! the tokenization, parsing and formatting logic here is verified.

pub mod geometry;
pub mod io;
pub mod numeric;
pub mod parse;
pub mod text;
pub mod tokens;
