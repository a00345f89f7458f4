//! The failures a reader can report.

use vstd::prelude::*;

verus! {

/// Everything that can go wrong while opening a reader or resolving a
/// line.
#[derive(Clone, Copy, Debug, PartialEq, Eq, Structural)]
pub enum Error {
    /// The source holds no bytes at all, so no reader is created.
    EmptyFile,
    /// The source failed to deliver bytes; reported to the caller
    /// unchanged, never retried.
    Io,
    /// The resolved byte span is not valid UTF-8; carries the span's
    /// boundaries.
    Decode { start: u64, end: u64 },
}

} // verus!
