//! Bidirectional, line-granularity navigation over a byte-addressable
//! source: move forwards, backwards, or to a random line without
//! consuming an iterator, optionally accelerated by a prebuilt index
//! of line spans.

use vstd::prelude::*;

pub mod error;
mod trusted;
pub mod laws;
pub mod model;
mod scan;
pub mod reader;
pub mod source;

pub use error::Error;
pub use reader::EasyReader;
pub use source::ByteSource;
pub use source::MemSource;

verus! {

/// Line feed, the byte that terminates a line.
pub const LF_BYTE: u8 = 10;

/// Carriage return, stripped when it directly precedes a line feed.
pub const CR_BYTE: u8 = 13;

} // verus!
