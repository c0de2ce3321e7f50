//! Buffered line/token reader for whitespace- and line-delimited text,
//! aimed at parsing known-correct input quickly.
//!
//! The reader owns the whole input as one text buffer, keeps a cursor into
//! it, and hands out lines, space-separated tokens, and decoded values on
//! demand. Every accessor carries a contract that says exactly which part
//! of the buffer it returns and how the cursor moves.

pub mod decode;
pub mod reader;
pub mod text;

pub use decode::FastParse;
pub use decode::Str;
pub use reader::FastInput;
pub use text::is_space;
