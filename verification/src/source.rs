//! Where the bytes of a varint come from: anything that hands out one byte
//! at a time.

use crate::decoder::{Decoder32, Decoder64, Step32, Step64};
use crate::error::VarintError;
use crate::wire::{
    all_continue, bytes_taken, decoding, lemma_decoding_ignores_rest, lemma_decoding_overflow,
    lemma_decoding_unfinished,
};
use crate::zigzag::{lemma_zigzag_encode_decode, zigzag_encode, ZigZag};
use vstd::prelude::*;

verus! {

/// A source of bytes, read one at a time.
pub trait ByteSource {
    /// What there is to the source besides the bytes read and to be read:
    /// the type of `aside`.
    type Aside;

    /// The bytes that this source has handed out so far, oldest first.
    spec fn consumed(&self) -> Seq<u8>;

    /// What reading leaves as it is.
    spec fn aside(&self) -> Self::Aside;

    /// The bytes still to come, for a source whose contents are fixed in
    /// advance (a buffer in memory); `None` for a source that learns of its
    /// bytes as they arrive (a connection).
    spec fn upcoming(&self) -> Option<Seq<u8>>;

    /// The errors that this source has answered reads with so far, oldest
    /// first.
    spec fn failures(&self) -> Seq<VarintError>;

    /// Pulls exactly one byte.
    ///
    /// It fails with `EndOfInput` where the source has run dry and with
    /// `IoFailure` where the source broke. A read that succeeds adds its byte
    /// to the bytes handed out, a read that fails adds its error to the
    /// failures, and neither does anything else.
    fn read_byte(&mut self) -> (r: Result<u8, VarintError>)
        ensures
            match r {
                Ok(byte) => {
                    &&& final(self).consumed() == old(self).consumed().push(byte)
                    &&& final(self).failures() == old(self).failures()
                },
                Err(e) => {
                    &&& final(self).consumed() == old(self).consumed()
                    &&& final(self).failures() == old(self).failures().push(e)
                },
            },
            match old(self).upcoming() {
                Some(rest) => if rest.len() > 0 {
                    &&& r == Ok::<u8, VarintError>(rest[0])
                    &&& final(self).upcoming() == Some(rest.drop_first())
                } else {
                    &&& r == Err::<u8, VarintError>(VarintError::EndOfInput)
                    &&& final(self).upcoming() == Some(rest)
                },
                None => final(self).upcoming() is None,
            },
            final(self).aside() == old(self).aside(),
    ;
}

/// What an attempt to read one varint of at most `max_groups` groups does
/// to a source, and what it returns.
///
/// `outcome` is the unsigned value read, or the error. Whatever the source
/// did, the bytes it handed out during the attempt and the reads it failed
/// are accounted for. A success took exactly the bytes of one varint, the
/// value is theirs, and no read failed. `Overflow` that the source did not
/// report took `max_groups` bytes that all asked for more, and no read
/// failed. Any other error is the source's own, as it came: it was the one
/// read that failed and the last to be made, after fewer bytes than
/// `max_groups`, which all asked for more.
///
/// For a source whose contents are fixed, the bytes it held before the
/// attempt decide all of it: the bytes taken are the first of them, the
/// outcome is what `decoding` makes of them, and the source has moved past
/// the bytes that a decoder takes. What the source keeps aside stays as it
/// was.
pub open spec fn reads_varint<S: ByteSource>(
    before: S,
    after: S,
    max_groups: nat,
    modulus: nat,
    outcome: Result<nat, VarintError>,
) -> bool {
    let start = before.consumed().len() as int;
    let taken = after.consumed().skip(start);
    &&& start <= after.consumed().len()
    &&& after.consumed() == before.consumed() + taken
    &&& match outcome {
        Ok(value) => {
            &&& decoding(taken, max_groups, modulus) == Ok::<(nat, nat), VarintError>(
                (value, taken.len()),
            )
            &&& after.failures() == before.failures()
        },
        Err(e) => {
            &&& all_continue(taken)
            &&& {
                ||| {
                    &&& e == VarintError::Overflow
                    &&& taken.len() == max_groups
                    &&& after.failures() == before.failures()
                }
                ||| {
                    &&& taken.len() < max_groups
                    &&& after.failures() == before.failures().push(e)
                }
            }
        },
    }
    &&& match before.upcoming() {
        Some(rest) => {
            &&& taken.len() == bytes_taken(rest, max_groups)
            &&& taken == rest.take(taken.len() as int)
            &&& after.upcoming() == Some(rest.skip(taken.len() as int))
            &&& match outcome {
                Ok(value) => decoding(rest, max_groups, modulus) == Ok::<(nat, nat), VarintError>(
                    (value, taken.len()),
                ),
                Err(e) => decoding(rest, max_groups, modulus) == Err::<(nat, nat), VarintError>(
                    e,
                ),
            }
        },
        None => after.upcoming() is None,
    }
    &&& after.aside() == before.aside()
}

/// Reads an unsigned 32-bit varint from `source`.
///
/// One byte is pulled at a time and handed to a `Decoder32`, until the
/// decoder has the value or gives up, or the source fails. The source's
/// error is returned as it came.
pub fn read_unsigned_32<S: ByteSource>(source: &mut S) -> (r: Result<u32, VarintError>)
    ensures
        reads_varint(
            *old(source),
            *final(source),
            5,
            0x1_0000_0000,
            match r {
                Ok(value) => Ok(value as nat),
                Err(e) => Err(e),
            },
        ),
{
    let ghost start = source.consumed();
    let ghost fixed = source.upcoming();
    let mut decoder = Decoder32::new();
    loop
        invariant
            start == old(source).consumed(),
            fixed == old(source).upcoming(),
            source.aside() == old(source).aside(),
            source.failures() == old(source).failures(),
            source.consumed() == start + decoder@,
            all_continue(decoder@),
            decoder@.len() < 5,
            match fixed {
                Some(rest) => {
                    &&& decoder@.len() <= rest.len()
                    &&& decoder@ == rest.take(decoder@.len() as int)
                    &&& source.upcoming() == Some(rest.skip(decoder@.len() as int))
                },
                None => source.upcoming() is None,
            },
        decreases 5 - decoder@.len(),
    {
        let ghost seen = decoder@;
        let byte = match source.read_byte() {
            Ok(byte) => byte,
            Err(e) => {
                proof {
                    assert((start + seen).skip(start.len() as int) =~= seen);
                    assert((start + seen).take(start.len() as int) =~= start);
                    lemma_decoding_unfinished(seen, 5, 0x1_0000_0000);
                    if let Some(rest) = fixed {
                        assert(rest =~= seen);
                        assert(rest.skip(seen.len() as int) =~= rest.skip(rest.len() as int));
                    }
                }
                return Err(e);
            },
        };
        let ghost taken = seen.push(byte);
        proof {
            assert(source.consumed() =~= start + taken);
            assert((start + taken).skip(start.len() as int) =~= taken);
            assert((start + taken).take(start.len() as int) =~= start);
            if let Some(rest) = fixed {
                assert(rest.skip(seen.len() as int)[0] == rest[seen.len() as int]);
                assert(taken =~= rest.take(taken.len() as int));
                assert(rest.skip(seen.len() as int).drop_first() =~= rest.skip(
                    taken.len() as int,
                ));
                assert(rest =~= taken + rest.skip(taken.len() as int));
            }
        }
        match decoder.push(byte) {
            Step32::More(next) => {
                decoder = next;
            },
            Step32::Done(value) => {
                proof {
                    if let Some(rest) = fixed {
                        lemma_decoding_ignores_rest(
                            taken,
                            rest.skip(taken.len() as int),
                            5,
                            0x1_0000_0000,
                        );
                    }
                }
                return Ok(value);
            },
            Step32::Overflow => {
                proof {
                    assert(taken.take(5) =~= taken);
                    lemma_decoding_overflow(taken, 5, 0x1_0000_0000);
                    if let Some(rest) = fixed {
                        lemma_decoding_ignores_rest(
                            taken,
                            rest.skip(taken.len() as int),
                            5,
                            0x1_0000_0000,
                        );
                    }
                }
                return Err(VarintError::Overflow);
            },
        }
    }
}

/// Reads a signed 32-bit varint from `source`: the unsigned varint, unfolded.
/// The value returned is the one whose zig-zag fold was read.
pub fn read_signed_32<S: ByteSource>(source: &mut S) -> (r: Result<i32, VarintError>)
    ensures
        reads_varint(
            *old(source),
            *final(source),
            5,
            0x1_0000_0000,
            match r {
                Ok(value) => Ok(zigzag_encode(value as int)),
                Err(e) => Err(e),
            },
        ),
{
    match read_unsigned_32(source) {
        Ok(value) => {
            proof {
                lemma_zigzag_encode_decode(value as nat);
            }
            Ok(value.zigzag())
        },
        Err(error) => Err(error),
    }
}

/// Reads an unsigned 64-bit varint from `source`.
///
/// One byte is pulled at a time and handed to a `Decoder64`, until the
/// decoder has the value or gives up, or the source fails. The source's
/// error is returned as it came.
pub fn read_unsigned_64<S: ByteSource>(source: &mut S) -> (r: Result<u64, VarintError>)
    ensures
        reads_varint(
            *old(source),
            *final(source),
            10,
            0x1_0000_0000_0000_0000,
            match r {
                Ok(value) => Ok(value as nat),
                Err(e) => Err(e),
            },
        ),
{
    let ghost start = source.consumed();
    let ghost fixed = source.upcoming();
    let mut decoder = Decoder64::new();
    loop
        invariant
            start == old(source).consumed(),
            fixed == old(source).upcoming(),
            source.aside() == old(source).aside(),
            source.failures() == old(source).failures(),
            source.consumed() == start + decoder@,
            all_continue(decoder@),
            decoder@.len() < 10,
            match fixed {
                Some(rest) => {
                    &&& decoder@.len() <= rest.len()
                    &&& decoder@ == rest.take(decoder@.len() as int)
                    &&& source.upcoming() == Some(rest.skip(decoder@.len() as int))
                },
                None => source.upcoming() is None,
            },
        decreases 10 - decoder@.len(),
    {
        let ghost seen = decoder@;
        let byte = match source.read_byte() {
            Ok(byte) => byte,
            Err(e) => {
                proof {
                    assert((start + seen).skip(start.len() as int) =~= seen);
                    assert((start + seen).take(start.len() as int) =~= start);
                    lemma_decoding_unfinished(seen, 10, 0x1_0000_0000_0000_0000);
                    if let Some(rest) = fixed {
                        assert(rest =~= seen);
                        assert(rest.skip(seen.len() as int) =~= rest.skip(rest.len() as int));
                    }
                }
                return Err(e);
            },
        };
        let ghost taken = seen.push(byte);
        proof {
            assert(source.consumed() =~= start + taken);
            assert((start + taken).skip(start.len() as int) =~= taken);
            assert((start + taken).take(start.len() as int) =~= start);
            if let Some(rest) = fixed {
                assert(rest.skip(seen.len() as int)[0] == rest[seen.len() as int]);
                assert(taken =~= rest.take(taken.len() as int));
                assert(rest.skip(seen.len() as int).drop_first() =~= rest.skip(
                    taken.len() as int,
                ));
                assert(rest =~= taken + rest.skip(taken.len() as int));
            }
        }
        match decoder.push(byte) {
            Step64::More(next) => {
                decoder = next;
            },
            Step64::Done(value) => {
                proof {
                    if let Some(rest) = fixed {
                        lemma_decoding_ignores_rest(
                            taken,
                            rest.skip(taken.len() as int),
                            10,
                            0x1_0000_0000_0000_0000,
                        );
                    }
                }
                return Ok(value);
            },
            Step64::Overflow => {
                proof {
                    assert(taken.take(10) =~= taken);
                    lemma_decoding_overflow(taken, 10, 0x1_0000_0000_0000_0000);
                    if let Some(rest) = fixed {
                        lemma_decoding_ignores_rest(
                            taken,
                            rest.skip(taken.len() as int),
                            10,
                            0x1_0000_0000_0000_0000,
                        );
                    }
                }
                return Err(VarintError::Overflow);
            },
        }
    }
}

/// Reads a signed 64-bit varint from `source`: the unsigned varint, unfolded.
/// The value returned is the one whose zig-zag fold was read.
pub fn read_signed_64<S: ByteSource>(source: &mut S) -> (r: Result<i64, VarintError>)
    ensures
        reads_varint(
            *old(source),
            *final(source),
            10,
            0x1_0000_0000_0000_0000,
            match r {
                Ok(value) => Ok(zigzag_encode(value as int)),
                Err(e) => Err(e),
            },
        ),
{
    match read_unsigned_64(source) {
        Ok(value) => {
            proof {
                lemma_zigzag_encode_decode(value as nat);
            }
            Ok(value.zigzag())
        },
        Err(error) => Err(error),
    }
}

} // verus!
