//! The one question asked of a byte's bits, answered by the `bit_utils` crate.

use bit_utils::BitInformation;
use vstd::prelude::*;

verus! {

/// Asks `bit_utils::BitInformation::has_most_signifigant_bit` about a byte.
///
/// Not proved, taken from that crate's source: for a `u8` the method tests
/// bit 7, so it answers `true` exactly for the bytes from 128 up.
#[verifier::external_body]
pub(crate) fn has_most_significant_bit(byte: u8) -> (set: bool)
    ensures
        set == (byte >= 128),
{
    byte.has_most_signifigant_bit()
}

} // verus!
