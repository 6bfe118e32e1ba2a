//! The codec on values in memory: a number to its bytes, and bytes to the
//! number at their front.

use crate::decoder::{Decoder32, Decoder64, Step32, Step64};
use crate::error::VarintError;
use crate::iooperations::VarintWriter;
use crate::rawio::VarintWrite;
use crate::sink::{write_unsigned_32, write_unsigned_64, ByteSink};
use crate::wire::{
    all_continue, decoding_32, decoding_64, encoding, groups_needed,
    lemma_decoding_ignores_rest, lemma_decoding_overflow, lemma_decoding_unfinished,
    lemma_encoding_len, lemma_round_trip_32, lemma_round_trip_64, signed_decoding_32,
    signed_decoding_64,
};
use crate::zigzag::{zigzag_encode, ZigZag};
use crate::{VARINT_32_MAX_BYTES, VARINT_64_MAX_BYTES};
use vstd::prelude::*;

verus! {

/// A growable buffer takes every byte at its end.
impl ByteSink for Vec<u8> {
    type Aside = ();

    open spec fn aside(&self) -> () {
        ()
    }

    open spec fn written(&self) -> Seq<u8> {
        self@
    }

    open spec fn ahead(&self) -> Seq<u8> {
        Seq::empty()
    }

    open spec fn refusals(&self) -> Seq<VarintError> {
        Seq::empty()
    }

    open spec fn unfailing(&self) -> bool {
        true
    }

    /// Appends `byte`.
    fn write_byte(&mut self, byte: u8) -> (r: Result<(), VarintError>) {
        self.push(byte);
        Ok(())
    }
}

impl VarintWrite for Vec<u8> {

}

impl VarintWriter for Vec<u8> {

}

/// The bytes of an unsigned 32-bit value: one to five of them, as few as
/// hold its bits.
pub fn encode_unsigned_32(value: u32) -> (bytes: Vec<u8>)
    ensures
        bytes@ == encoding(value as nat),
        bytes@.len() == groups_needed(value as nat),
        1 <= bytes@.len() <= VARINT_32_MAX_BYTES,
{
    let mut bytes: Vec<u8> = Vec::new();
    let _ = write_unsigned_32(&mut bytes, value);
    proof {
        assert(bytes@ =~= bytes@.skip(0));
        lemma_encoding_len(value as nat);
        lemma_round_trip_32(value, Seq::empty());
    }
    bytes
}

/// The bytes of an unsigned 64-bit value: one to ten of them, as few as hold
/// its bits.
pub fn encode_unsigned_64(value: u64) -> (bytes: Vec<u8>)
    ensures
        bytes@ == encoding(value as nat),
        bytes@.len() == groups_needed(value as nat),
        1 <= bytes@.len() <= VARINT_64_MAX_BYTES,
{
    let mut bytes: Vec<u8> = Vec::new();
    let _ = write_unsigned_64(&mut bytes, value);
    proof {
        assert(bytes@ =~= bytes@.skip(0));
        lemma_encoding_len(value as nat);
        lemma_round_trip_64(value, Seq::empty());
    }
    bytes
}

/// The bytes of a signed 32-bit value: those of its zig-zag fold.
pub fn encode_signed_32(value: i32) -> (bytes: Vec<u8>)
    ensures
        bytes@ == encoding(zigzag_encode(value as int)),
        1 <= bytes@.len() <= VARINT_32_MAX_BYTES,
{
    encode_unsigned_32(value.zigzag())
}

/// The bytes of a signed 64-bit value: those of its zig-zag fold.
pub fn encode_signed_64(value: i64) -> (bytes: Vec<u8>)
    ensures
        bytes@ == encoding(zigzag_encode(value as int)),
        1 <= bytes@.len() <= VARINT_64_MAX_BYTES,
{
    encode_unsigned_64(value.zigzag())
}

/// Decodes the unsigned 32-bit varint at the front of `bytes`, and says how
/// many bytes it takes up.
///
/// It fails with `EndOfInput` where `bytes` ends before a byte with a clear
/// continuation flag, and with `Overflow` where the first five bytes all have
/// the flag set.
pub fn decode_unsigned_32(bytes: &[u8]) -> (r: Result<(u32, usize), VarintError>)
    ensures
        match r {
            Ok((value, taken)) => decoding_32(bytes@) == Ok::<(nat, nat), VarintError>(
                (value as nat, taken as nat),
            ),
            Err(e) => decoding_32(bytes@) == Err::<(nat, nat), VarintError>(e),
        },
{
    let mut decoder = Decoder32::new();
    let mut index: usize = 0;
    while index < bytes.len()
        invariant
            index <= bytes.len(),
            decoder@ == bytes@.take(index as int),
            all_continue(decoder@),
            decoder@.len() < 5,
        decreases bytes.len() - index,
    {
        let ghost taken = bytes@.take(index + 1);
        proof {
            assert(taken =~= decoder@.push(bytes[index as int]));
            assert(bytes@ =~= taken + bytes@.skip(index + 1));
        }
        match decoder.push(bytes[index]) {
            Step32::More(next) => {
                decoder = next;
                index = index + 1;
            },
            Step32::Done(value) => {
                proof {
                    lemma_decoding_ignores_rest(taken, bytes@.skip(index + 1), 5, 0x1_0000_0000);
                }
                return Ok((value, index + 1));
            },
            Step32::Overflow => {
                proof {
                    assert(taken.take(5) =~= taken);
                    lemma_decoding_overflow(taken, 5, 0x1_0000_0000);
                    lemma_decoding_ignores_rest(taken, bytes@.skip(index + 1), 5, 0x1_0000_0000);
                }
                return Err(VarintError::Overflow);
            },
        }
    }
    proof {
        assert(bytes@.take(index as int) =~= bytes@);
        lemma_decoding_unfinished(bytes@, 5, 0x1_0000_0000);
    }
    Err(VarintError::EndOfInput)
}

/// Decodes the unsigned 64-bit varint at the front of `bytes`, and says how
/// many bytes it takes up.
///
/// It fails with `EndOfInput` where `bytes` ends before a byte with a clear
/// continuation flag, and with `Overflow` where the first ten bytes all have
/// the flag set.
pub fn decode_unsigned_64(bytes: &[u8]) -> (r: Result<(u64, usize), VarintError>)
    ensures
        match r {
            Ok((value, taken)) => decoding_64(bytes@) == Ok::<(nat, nat), VarintError>(
                (value as nat, taken as nat),
            ),
            Err(e) => decoding_64(bytes@) == Err::<(nat, nat), VarintError>(e),
        },
{
    let mut decoder = Decoder64::new();
    let mut index: usize = 0;
    while index < bytes.len()
        invariant
            index <= bytes.len(),
            decoder@ == bytes@.take(index as int),
            all_continue(decoder@),
            decoder@.len() < 10,
        decreases bytes.len() - index,
    {
        let ghost taken = bytes@.take(index + 1);
        proof {
            assert(taken =~= decoder@.push(bytes[index as int]));
            assert(bytes@ =~= taken + bytes@.skip(index + 1));
        }
        match decoder.push(bytes[index]) {
            Step64::More(next) => {
                decoder = next;
                index = index + 1;
            },
            Step64::Done(value) => {
                proof {
                    lemma_decoding_ignores_rest(
                        taken,
                        bytes@.skip(index + 1),
                        10,
                        0x1_0000_0000_0000_0000,
                    );
                }
                return Ok((value, index + 1));
            },
            Step64::Overflow => {
                proof {
                    assert(taken.take(10) =~= taken);
                    lemma_decoding_overflow(taken, 10, 0x1_0000_0000_0000_0000);
                    lemma_decoding_ignores_rest(
                        taken,
                        bytes@.skip(index + 1),
                        10,
                        0x1_0000_0000_0000_0000,
                    );
                }
                return Err(VarintError::Overflow);
            },
        }
    }
    proof {
        assert(bytes@.take(index as int) =~= bytes@);
        lemma_decoding_unfinished(bytes@, 10, 0x1_0000_0000_0000_0000);
    }
    Err(VarintError::EndOfInput)
}

/// Decodes the signed 32-bit varint at the front of `bytes`: the unsigned
/// one, unfolded.
pub fn decode_signed_32(bytes: &[u8]) -> (r: Result<(i32, usize), VarintError>)
    ensures
        match r {
            Ok((value, taken)) => signed_decoding_32(bytes@) == Ok::<(int, nat), VarintError>(
                (value as int, taken as nat),
            ),
            Err(e) => signed_decoding_32(bytes@) == Err::<(int, nat), VarintError>(e),
        },
{
    match decode_unsigned_32(bytes) {
        Ok((folded, taken)) => Ok((folded.zigzag(), taken)),
        Err(error) => Err(error),
    }
}

/// Decodes the signed 64-bit varint at the front of `bytes`: the unsigned
/// one, unfolded.
pub fn decode_signed_64(bytes: &[u8]) -> (r: Result<(i64, usize), VarintError>)
    ensures
        match r {
            Ok((value, taken)) => signed_decoding_64(bytes@) == Ok::<(int, nat), VarintError>(
                (value as int, taken as nat),
            ),
            Err(e) => signed_decoding_64(bytes@) == Err::<(int, nat), VarintError>(e),
        },
{
    match decode_unsigned_64(bytes) {
        Ok((folded, taken)) => Ok((folded.zigzag(), taken)),
        Err(error) => Err(error),
    }
}

} // verus!
