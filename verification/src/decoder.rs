//! Decoding one byte at a time: a shift counter and an accumulator.
//!
//! A decoder is fed the bytes of a varint in order. After each byte it says
//! whether it wants more, has the value, or gives up because the target
//! width permits no further group.

use crate::bits::has_most_significant_bit;
use crate::error::VarintError;
use crate::wire::{
    all_continue, continues, decoding_32, decoding_64, groups_value, lemma_decoding_overflow,
    lemma_decoding_unfinished, lemma_groups_value_bound, lemma_groups_value_push,
    lemma_leading_continuations_is, payload, weight,
};
use vstd::prelude::*;

verus! {

/// The state of decoding a varint into 32 bits.
///
/// Its view is the run of bytes taken so far; all of them had their
/// continuation flag set, and there are fewer than five.
pub struct Decoder32 {
    value: u32,
    shift: u32,
    seen: Ghost<Seq<u8>>,
}

/// What a `Decoder32` makes of one more byte.
pub enum Step32 {
    /// The byte asked for more: go on with this state.
    More(Decoder32),
    /// The byte ended the varint, and this is its value.
    Done(u32),
    /// The byte was the fifth and still asked for more.
    Overflow,
}

impl View for Decoder32 {
    type V = Seq<u8>;

    closed spec fn view(&self) -> Seq<u8> {
        self.seen@
    }
}

impl Decoder32 {
    #[verifier::type_invariant]
    spec fn well_formed(self) -> bool {
        &&& self.seen@.len() < 5
        &&& self.shift == 7 * self.seen@.len()
        &&& all_continue(self.seen@)
        &&& self.value == groups_value(self.seen@)
    }

    /// A decoder that has taken no byte yet.
    pub fn new() -> (decoder: Self)
        ensures
            decoder@ == Seq::<u8>::empty(),
    {
        Decoder32 { value: 0, shift: 0, seen: Ghost(Seq::empty()) }
    }

    /// Takes the next byte of the varint.
    ///
    /// The low seven bits of `byte` are shifted to their position and joined
    /// to the value. Bits that a fifth group carries above bit 31 are dropped.
    pub fn push(self, byte: u8) -> (step: Step32)
        ensures
            match step {
                Step32::More(next) => {
                    &&& continues(byte)
                    &&& self@.len() < 4
                    &&& next@ == self@.push(byte)
                    &&& decoding_32(next@) == Err::<(nat, nat), VarintError>(
                        VarintError::EndOfInput,
                    )
                },
                Step32::Done(value) => {
                    &&& !continues(byte)
                    &&& decoding_32(self@.push(byte)) == Ok::<(nat, nat), VarintError>(
                        (value as nat, self@.len() + 1),
                    )
                },
                Step32::Overflow => {
                    &&& continues(byte)
                    &&& self@.len() == 4
                    &&& decoding_32(self@.push(byte)) == Err::<(nat, nat), VarintError>(
                        VarintError::Overflow,
                    )
                },
            },
            all_continue(self@),
            self@.len() < 5,
    {
        proof {
            use_type_invariant(&self);
        }
        let ghost before = self.seen@;
        let ghost after = before.push(byte);
        let value: u32 = self.value;
        let shift: u32 = self.shift;
        let low: u8 = byte & 0b0111_1111;
        let joined: u32 = value | ((low as u32) << shift);
        proof {
            reveal_with_fuel(weight, 6);
            lemma_groups_value_bound(before);
            lemma_groups_value_push(before, byte);
            assert(low == byte % 128) by (bit_vector)
                requires
                    low == byte & 0b0111_1111,
            ;
            assert({
                &&& shift == 0 ==> joined == value + low * 1
                &&& shift == 7 ==> joined == value + low * 0x80
                &&& shift == 14 ==> joined == value + low * 0x4000
                &&& shift == 21 ==> joined == value + low * 0x20_0000
                &&& shift == 28 ==> joined == (value + low * 0x1000_0000) % 0x1_0000_0000
            }) by (bit_vector)
                requires
                    joined == value | ((low as u32) << shift),
                    low < 128,
                    shift == 0 ==> value < 1,
                    shift == 7 ==> value < 0x80,
                    shift == 14 ==> value < 0x4000,
                    shift == 21 ==> value < 0x20_0000,
                    shift == 28 ==> value < 0x1000_0000,
            ;
            assert(payload(byte) * weight(before.len()) == low * weight(before.len()));
            assert(joined == groups_value(after) % 0x1_0000_0000);
            assert(after.take(before.len() as int) =~= before);
            assert(after.take(after.len() as int) =~= after);
        }
        if has_most_significant_bit(byte) {
            proof {
                assert(all_continue(after));
                if shift == 28 {
                    lemma_decoding_overflow(after, 5, 0x1_0000_0000);
                } else {
                    lemma_decoding_unfinished(after, 5, 0x1_0000_0000);
                }
            }
            if shift == 28 {
                Step32::Overflow
            } else {
                Step32::More(Decoder32 { value: joined, shift: shift + 7, seen: Ghost(after) })
            }
        } else {
            proof {
                lemma_leading_continuations_is(after, before.len());
            }
            Step32::Done(joined)
        }
    }
}

/// The state of decoding a varint into 64 bits.
///
/// Its view is the run of bytes taken so far; all of them had their
/// continuation flag set, and there are fewer than ten.
pub struct Decoder64 {
    value: u64,
    shift: u32,
    seen: Ghost<Seq<u8>>,
}

/// What a `Decoder64` makes of one more byte.
pub enum Step64 {
    /// The byte asked for more: go on with this state.
    More(Decoder64),
    /// The byte ended the varint, and this is its value.
    Done(u64),
    /// The byte was the tenth and still asked for more.
    Overflow,
}

impl View for Decoder64 {
    type V = Seq<u8>;

    closed spec fn view(&self) -> Seq<u8> {
        self.seen@
    }
}

impl Decoder64 {
    #[verifier::type_invariant]
    spec fn well_formed(self) -> bool {
        &&& self.seen@.len() < 10
        &&& self.shift == 7 * self.seen@.len()
        &&& all_continue(self.seen@)
        &&& self.value == groups_value(self.seen@)
    }

    /// A decoder that has taken no byte yet.
    pub fn new() -> (decoder: Self)
        ensures
            decoder@ == Seq::<u8>::empty(),
    {
        Decoder64 { value: 0, shift: 0, seen: Ghost(Seq::empty()) }
    }

    /// Takes the next byte of the varint.
    ///
    /// The low seven bits of `byte` are shifted to their position and joined
    /// to the value. Bits that a tenth group carries above bit 63 are dropped.
    pub fn push(self, byte: u8) -> (step: Step64)
        ensures
            match step {
                Step64::More(next) => {
                    &&& continues(byte)
                    &&& self@.len() < 9
                    &&& next@ == self@.push(byte)
                    &&& decoding_64(next@) == Err::<(nat, nat), VarintError>(
                        VarintError::EndOfInput,
                    )
                },
                Step64::Done(value) => {
                    &&& !continues(byte)
                    &&& decoding_64(self@.push(byte)) == Ok::<(nat, nat), VarintError>(
                        (value as nat, self@.len() + 1),
                    )
                },
                Step64::Overflow => {
                    &&& continues(byte)
                    &&& self@.len() == 9
                    &&& decoding_64(self@.push(byte)) == Err::<(nat, nat), VarintError>(
                        VarintError::Overflow,
                    )
                },
            },
            all_continue(self@),
            self@.len() < 10,
    {
        proof {
            use_type_invariant(&self);
        }
        let ghost before = self.seen@;
        let ghost after = before.push(byte);
        let value: u64 = self.value;
        let shift: u32 = self.shift;
        let low: u8 = byte & 0b0111_1111;
        let joined: u64 = value | ((low as u64) << shift);
        proof {
            reveal_with_fuel(weight, 11);
            lemma_groups_value_bound(before);
            lemma_groups_value_push(before, byte);
            assert(low == byte % 128) by (bit_vector)
                requires
                    low == byte & 0b0111_1111,
            ;
            assert({
                &&& shift == 0 ==> joined == value + low * 1
                &&& shift == 7 ==> joined == value + low * 0x80
                &&& shift == 14 ==> joined == value + low * 0x4000
                &&& shift == 21 ==> joined == value + low * 0x20_0000
                &&& shift == 28 ==> joined == value + low * 0x1000_0000
                &&& shift == 35 ==> joined == value + low * 0x8_0000_0000
                &&& shift == 42 ==> joined == value + low * 0x400_0000_0000
                &&& shift == 49 ==> joined == value + low * 0x2_0000_0000_0000
                &&& shift == 56 ==> joined == value + low * 0x100_0000_0000_0000
                &&& shift == 63 ==> joined == (value + low * 0x8000_0000_0000_0000)
                    % 0x1_0000_0000_0000_0000
            }) by (bit_vector)
                requires
                    joined == value | ((low as u64) << shift),
                    low < 128,
                    shift == 0 ==> value < 1,
                    shift == 7 ==> value < 0x80,
                    shift == 14 ==> value < 0x4000,
                    shift == 21 ==> value < 0x20_0000,
                    shift == 28 ==> value < 0x1000_0000,
                    shift == 35 ==> value < 0x8_0000_0000,
                    shift == 42 ==> value < 0x400_0000_0000,
                    shift == 49 ==> value < 0x2_0000_0000_0000,
                    shift == 56 ==> value < 0x100_0000_0000_0000,
                    shift == 63 ==> value < 0x8000_0000_0000_0000,
            ;
            assert(payload(byte) * weight(before.len()) == low * weight(before.len()));
            assert(joined == groups_value(after) % 0x1_0000_0000_0000_0000);
            assert(after.take(before.len() as int) =~= before);
            assert(after.take(after.len() as int) =~= after);
        }
        if has_most_significant_bit(byte) {
            proof {
                assert(all_continue(after));
                if shift == 63 {
                    lemma_decoding_overflow(after, 10, 0x1_0000_0000_0000_0000);
                } else {
                    lemma_decoding_unfinished(after, 10, 0x1_0000_0000_0000_0000);
                }
            }
            if shift == 63 {
                Step64::Overflow
            } else {
                Step64::More(Decoder64 { value: joined, shift: shift + 7, seen: Ghost(after) })
            }
        } else {
            proof {
                lemma_leading_continuations_is(after, before.len());
            }
            Step64::Done(joined)
        }
    }
}

} // verus!
