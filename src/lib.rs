//! Strings of bytes with no guarantee of their encoding.
//!
//! `RawStr` and `RawString` are the equivalents of `str` and `String`, but
//! without any guarantees about the encoding. They are useful in all places
//! where one would otherwise use `[u8]` and `Vec<u8>` to represent strings,
//! and they render as text: lossy for display, escaped for debugging.
pub mod cmp;
pub mod index;
pub mod raw_str;
pub mod raw_str_mut;
pub mod raw_string;
pub mod render;
pub mod utf8;
pub mod utf8_chunks;

pub use index::{ByteRange, RawStrIndex};
pub use raw_str::{RawStr, Utf8Error};
pub use raw_str_mut::RawStrMut;
pub use raw_string::{FromUtf8Error, RawString};
pub use utf8_chunks::{Utf8Chunk, Utf8ChunksIter};
