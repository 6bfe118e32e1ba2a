//! Zig-zag encoding of integral values.
//!
//! The fold interleaves the two signs, so that a signed integer of small
//! magnitude becomes a small unsigned integer: 0, -1, 1, -2, 2, ... go to
//! 0, 1, 2, 3, 4, ...

use vstd::prelude::*;

verus! {

/// The zig-zag fold of a signed integer: twice the integer where it is not
/// negative, and one less than twice its magnitude where it is.
pub open spec fn zigzag_encode(v: int) -> nat {
    if v >= 0 {
        (2 * v) as nat
    } else {
        (-2 * v - 1) as nat
    }
}

/// The inverse fold: an even number goes to its half, an odd one to the
/// negative that lies as far below -1 as its half lies above 0.
pub open spec fn zigzag_decode(u: nat) -> int {
    if u % 2 == 0 {
        (u / 2) as int
    } else {
        -((u / 2) as int) - 1
    }
}

/// A trait for enabling zig-zag encoding of various values.
///
/// A signed type is folded into the unsigned type of its width, and an
/// unsigned type is unfolded into the signed one; each implementation states
/// which of `zigzag_encode` and `zigzag_decode` it computes.
pub trait ZigZag<T> {
    /// Encodes this ZigZag-enabled type into the type specified by implementation.
    fn zigzag(&self) -> T;
}

impl ZigZag<u8> for i8 {
    /// Encodes this i8 as a zigzagged u8: `(self << 1) ^ (self >> 7)`, the
    /// right shift filling with the sign.
    fn zigzag(&self) -> (r: u8)
        ensures
            r == zigzag_encode(*self as int),
    {
        let v: i8 = *self;
        let r: u8 = #[verifier::truncate] (((v << 1) ^ (v >> 7)) as u8);
        assert(r as int == (if v >= 0 {
            2 * v
        } else {
            -2 * v - 1
        })) by (bit_vector)
            requires
                r == ((v << 1) ^ (v >> 7)) as u8,
        ;
        r
    }
}

impl ZigZag<i8> for u8 {
    /// Encodes this u8 as a zigzagged i8: `(self >> 1) ^ -(self & 1)`, the
    /// negation made on the signed type.
    fn zigzag(&self) -> (r: i8)
        ensures
            r == zigzag_decode(*self as nat),
    {
        let u: u8 = *self;
        let half: u8 = u >> 1;
        let low: u8 = u & 1;
        assert(half == u / 2 && low == u % 2) by (bit_vector)
            requires
                half == u >> 1,
                low == u & 1,
        ;
        let mask: i8 = -(low as i8);
        let r: i8 = (half as i8) ^ mask;
        assert(r == (if low == 0 {
            half as int
        } else {
            -(half as int) - 1
        })) by (bit_vector)
            requires
                r == (half as i8) ^ mask,
                half <= 0x7f,
                (low == 0 && mask == 0) || (low == 1 && mask == -1),
        ;
        r
    }
}

impl ZigZag<u16> for i16 {
    /// Encodes this i16 as a zigzagged u16: `(self << 1) ^ (self >> 15)`, the
    /// right shift filling with the sign.
    fn zigzag(&self) -> (r: u16)
        ensures
            r == zigzag_encode(*self as int),
    {
        let v: i16 = *self;
        let r: u16 = #[verifier::truncate] (((v << 1) ^ (v >> 15)) as u16);
        assert(r as int == (if v >= 0 {
            2 * v
        } else {
            -2 * v - 1
        })) by (bit_vector)
            requires
                r == ((v << 1) ^ (v >> 15)) as u16,
        ;
        r
    }
}

impl ZigZag<i16> for u16 {
    /// Encodes this u16 as a zigzagged i16: `(self >> 1) ^ -(self & 1)`, the
    /// negation made on the signed type.
    fn zigzag(&self) -> (r: i16)
        ensures
            r == zigzag_decode(*self as nat),
    {
        let u: u16 = *self;
        let half: u16 = u >> 1;
        let low: u16 = u & 1;
        assert(half == u / 2 && low == u % 2) by (bit_vector)
            requires
                half == u >> 1,
                low == u & 1,
        ;
        let mask: i16 = -(low as i16);
        let r: i16 = (half as i16) ^ mask;
        assert(r == (if low == 0 {
            half as int
        } else {
            -(half as int) - 1
        })) by (bit_vector)
            requires
                r == (half as i16) ^ mask,
                half <= 0x7fff,
                (low == 0 && mask == 0) || (low == 1 && mask == -1),
        ;
        r
    }
}

impl ZigZag<u32> for i32 {
    /// Encodes this i32 as a zigzagged u32: `(self << 1) ^ (self >> 31)`, the
    /// right shift filling with the sign.
    fn zigzag(&self) -> (r: u32)
        ensures
            r == zigzag_encode(*self as int),
    {
        let v: i32 = *self;
        let r: u32 = #[verifier::truncate] (((v << 1) ^ (v >> 31)) as u32);
        assert(r as int == (if v >= 0 {
            2 * v
        } else {
            -2 * v - 1
        })) by (bit_vector)
            requires
                r == ((v << 1) ^ (v >> 31)) as u32,
        ;
        r
    }
}

impl ZigZag<i32> for u32 {
    /// Encodes this u32 as a zigzagged i32: `(self >> 1) ^ -(self & 1)`, the
    /// negation made on the signed type.
    fn zigzag(&self) -> (r: i32)
        ensures
            r == zigzag_decode(*self as nat),
    {
        let u: u32 = *self;
        let half: u32 = u >> 1;
        let low: u32 = u & 1;
        assert(half == u / 2 && low == u % 2) by (bit_vector)
            requires
                half == u >> 1,
                low == u & 1,
        ;
        let mask: i32 = -(low as i32);
        let r: i32 = (half as i32) ^ mask;
        assert(r == (if low == 0 {
            half as int
        } else {
            -(half as int) - 1
        })) by (bit_vector)
            requires
                r == (half as i32) ^ mask,
                half <= 0x7fffffff,
                (low == 0 && mask == 0) || (low == 1 && mask == -1),
        ;
        r
    }
}

impl ZigZag<u64> for i64 {
    /// Encodes this i64 as a zigzagged u64: `(self << 1) ^ (self >> 63)`, the
    /// right shift filling with the sign.
    fn zigzag(&self) -> (r: u64)
        ensures
            r == zigzag_encode(*self as int),
    {
        let v: i64 = *self;
        let r: u64 = #[verifier::truncate] (((v << 1) ^ (v >> 63)) as u64);
        assert(r as int == (if v >= 0 {
            2 * v
        } else {
            -2 * v - 1
        })) by (bit_vector)
            requires
                r == ((v << 1) ^ (v >> 63)) as u64,
        ;
        r
    }
}

impl ZigZag<i64> for u64 {
    /// Encodes this u64 as a zigzagged i64: `(self >> 1) ^ -(self & 1)`, the
    /// negation made on the signed type.
    fn zigzag(&self) -> (r: i64)
        ensures
            r == zigzag_decode(*self as nat),
    {
        let u: u64 = *self;
        let half: u64 = u >> 1;
        let low: u64 = u & 1;
        assert(half == u / 2 && low == u % 2) by (bit_vector)
            requires
                half == u >> 1,
                low == u & 1,
        ;
        let mask: i64 = -(low as i64);
        let r: i64 = (half as i64) ^ mask;
        assert(r == (if low == 0 {
            half as int
        } else {
            -(half as int) - 1
        })) by (bit_vector)
            requires
                r == (half as i64) ^ mask,
                half <= 0x7fffffffffffffff,
                (low == 0 && mask == 0) || (low == 1 && mask == -1),
        ;
        r
    }
}

/// Unfolding undoes folding, for every integer.
pub proof fn lemma_zigzag_decode_encode(v: int)
    ensures
        zigzag_decode(zigzag_encode(v)) == v,
{
}

/// Folding undoes unfolding, for every natural number.
pub proof fn lemma_zigzag_encode_decode(u: nat)
    ensures
        zigzag_encode(zigzag_decode(u)) == u,
{
}

/// The fold of an integer is at most twice its magnitude: integers near zero,
/// of either sign, go to small numbers.
pub proof fn lemma_zigzag_encode_small(v: int)
    ensures
        v >= 0 ==> zigzag_encode(v) == 2 * v,
        v < 0 ==> zigzag_encode(v) == 2 * (-v) - 1,
{
}

/// The fold keeps to the width: the signed integers from `-half` up to but
/// not `half` go to the natural numbers below `2 * half`, and those come back
/// from there.
pub proof fn lemma_zigzag_keeps_width(half: nat, v: int, u: nat)
    ensures
        -half <= v < half ==> zigzag_encode(v) < 2 * half,
        u < 2 * half ==> -half <= zigzag_decode(u) < half,
{
}

/// At 8 bits the two folds stay within the width and undo each other:
/// unfolding the fold of a signed value gives it back, and folding the
/// unfolding of an unsigned one does.
pub proof fn lemma_zigzag_bijection_8(v: i8, u: u8)
    ensures
        zigzag_encode(v as int) <= u8::MAX,
        zigzag_decode(zigzag_encode(v as int)) == v,
        i8::MIN <= zigzag_decode(u as nat) <= i8::MAX,
        zigzag_encode(zigzag_decode(u as nat)) == u,
{
}

/// At 16 bits the two folds stay within the width and undo each other:
/// unfolding the fold of a signed value gives it back, and folding the
/// unfolding of an unsigned one does.
pub proof fn lemma_zigzag_bijection_16(v: i16, u: u16)
    ensures
        zigzag_encode(v as int) <= u16::MAX,
        zigzag_decode(zigzag_encode(v as int)) == v,
        i16::MIN <= zigzag_decode(u as nat) <= i16::MAX,
        zigzag_encode(zigzag_decode(u as nat)) == u,
{
}

/// At 32 bits the two folds stay within the width and undo each other:
/// unfolding the fold of a signed value gives it back, and folding the
/// unfolding of an unsigned one does.
pub proof fn lemma_zigzag_bijection_32(v: i32, u: u32)
    ensures
        zigzag_encode(v as int) <= u32::MAX,
        zigzag_decode(zigzag_encode(v as int)) == v,
        i32::MIN <= zigzag_decode(u as nat) <= i32::MAX,
        zigzag_encode(zigzag_decode(u as nat)) == u,
{
}

/// At 64 bits the two folds stay within the width and undo each other:
/// unfolding the fold of a signed value gives it back, and folding the
/// unfolding of an unsigned one does.
pub proof fn lemma_zigzag_bijection_64(v: i64, u: u64)
    ensures
        zigzag_encode(v as int) <= u64::MAX,
        zigzag_decode(zigzag_encode(v as int)) == v,
        i64::MIN <= zigzag_decode(u as nat) <= i64::MAX,
        zigzag_encode(zigzag_decode(u as nat)) == u,
{
}

} // verus!
