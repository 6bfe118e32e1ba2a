//! The ways in which reading or writing a varint can fail.

use vstd::prelude::*;

verus! {

/// Why a varint could not be read or written.
#[derive(Clone, Copy, Debug, PartialEq, Eq, Structural)]
pub enum VarintError {
    /// The byte source ran dry before a byte with a clear continuation flag
    /// was read.
    EndOfInput,
    /// As many groups as the target width permits were read, and the last of
    /// them still asked for more.
    Overflow,
    /// The byte source or sink reported a failure of its own.
    IoFailure,
}

} // verus!
