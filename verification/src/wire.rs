//! The wire format as mathematics: which bytes stand for a number, and which
//! number a run of bytes stands for.
//!
//! A varint is a run of bytes. Each byte carries seven bits of the number in
//! its low bits, least significant group first; bit 7 is set on every byte
//! but the last.

use crate::error::VarintError;
use crate::zigzag::{lemma_zigzag_decode_encode, zigzag_decode, zigzag_encode};
use vstd::prelude::*;

verus! {

/// The seven payload bits of a byte.
pub open spec fn payload(byte: u8) -> nat {
    (byte % 128) as nat
}

/// Whether the continuation flag of a byte is set: more bytes follow.
pub open spec fn continues(byte: u8) -> bool {
    byte >= 128
}

/// 128 to the power `n`: the weight of the group at position `n`.
pub open spec fn weight(n: nat) -> nat
    decreases n,
{
    if n == 0 {
        1
    } else {
        128 * weight((n - 1) as nat)
    }
}

/// The bytes that stand for `value`: its 7-bit groups from the least
/// significant up, with no group of leading zeros, a single zero byte for 0.
pub open spec fn encoding(value: nat) -> Seq<u8>
    decreases value,
{
    if value < 128 {
        seq![value as u8]
    } else {
        seq![(128 + value % 128) as u8] + encoding(value / 128)
    }
}

/// The number of binary digits of `value`; 0 has none.
pub open spec fn bit_length(value: nat) -> nat
    decreases value,
{
    if value == 0 {
        0
    } else {
        1 + bit_length(value / 2)
    }
}

/// The number of 7-bit groups that `value` needs: its bit length over 7,
/// rounded up, and 1 for 0.
pub open spec fn groups_needed(value: nat) -> nat {
    if value == 0 {
        1
    } else {
        (bit_length(value) + 6) / 7
    }
}

/// The number that the payloads of `bytes` spell, least significant group
/// first. The continuation flags play no part.
pub open spec fn groups_value(bytes: Seq<u8>) -> nat
    decreases bytes.len(),
{
    if bytes.len() == 0 {
        0
    } else {
        payload(bytes[0]) + 128 * groups_value(bytes.drop_first())
    }
}

/// How many bytes at the front of `bytes` have their continuation flag set.
pub open spec fn leading_continuations(bytes: Seq<u8>) -> nat
    decreases bytes.len(),
{
    if bytes.len() > 0 && continues(bytes[0]) {
        1 + leading_continuations(bytes.drop_first())
    } else {
        0
    }
}

/// What a decoder that reads at most `max_groups` bytes makes of `bytes`.
///
/// With `k` continuing bytes at the front: if `k` reaches `max_groups` the
/// input is refused as `Overflow`; if the input ends with those `k` bytes it
/// is `EndOfInput`; otherwise byte `k` ends the varint, and the result is the
/// value of the first `k + 1` groups, reduced modulo `modulus`, together with
/// the count `k + 1` of bytes used. Bytes after those are not looked at.
pub open spec fn decoding(bytes: Seq<u8>, max_groups: nat, modulus: nat) -> Result<
    (nat, nat),
    VarintError,
> {
    let k = leading_continuations(bytes) as int;
    if k >= max_groups {
        Err(VarintError::Overflow)
    } else if k >= bytes.len() {
        Err(VarintError::EndOfInput)
    } else {
        Ok((groups_value(bytes.take(k + 1)) % modulus, (k + 1) as nat))
    }
}

/// `decoding` for a 32-bit target: at most 5 groups, bits above bit 31 dropped.
pub open spec fn decoding_32(bytes: Seq<u8>) -> Result<(nat, nat), VarintError> {
    decoding(bytes, 5, 0x1_0000_0000)
}

/// `decoding` for a 64-bit target: at most 10 groups, bits above bit 63 dropped.
pub open spec fn decoding_64(bytes: Seq<u8>) -> Result<(nat, nat), VarintError> {
    decoding(bytes, 10, 0x1_0000_0000_0000_0000)
}

/// The number of bytes that a decoder takes from its source on `bytes`: the
/// bytes of the varint where there is one, `max_groups` where it gives up,
/// all there is where the input ends too early.
pub open spec fn bytes_taken(bytes: Seq<u8>, max_groups: nat) -> nat {
    let k = leading_continuations(bytes);
    if k >= max_groups {
        max_groups
    } else if k >= bytes.len() {
        bytes.len()
    } else {
        k + 1
    }
}

/// Every byte of `bytes` has its continuation flag set.
pub open spec fn all_continue(bytes: Seq<u8>) -> bool {
    forall|i: int| 0 <= i < bytes.len() ==> continues(#[trigger] bytes[i])
}

/// `bytes` is one whole varint and nothing else: every byte but the last has
/// its continuation flag set, and the last has not.
pub open spec fn is_varint(bytes: Seq<u8>) -> bool {
    &&& bytes.len() > 0
    &&& all_continue(bytes.drop_last())
    &&& !continues(bytes.last())
}

/// The count of leading continuing bytes is at most the length; the bytes it
/// counts all continue, and the byte after them, if there is one, does not.
pub proof fn lemma_leading_continuations(bytes: Seq<u8>)
    ensures
        leading_continuations(bytes) <= bytes.len(),
        all_continue(bytes.take(leading_continuations(bytes) as int)),
        leading_continuations(bytes) < bytes.len() ==> !continues(
            bytes[leading_continuations(bytes) as int],
        ),
    decreases bytes.len(),
{
    if bytes.len() > 0 && continues(bytes[0]) {
        let rest = bytes.drop_first();
        lemma_leading_continuations(rest);
        let k = leading_continuations(rest) as int;
        assert forall|i: int| 0 <= i < k + 1 implies continues(
            #[trigger] bytes.take(k + 1)[i],
        ) by {
            if i > 0 {
                assert(bytes.take(k + 1)[i] == rest.take(k)[i - 1]);
            }
        }
    }
}

/// Where the first `k` bytes continue and byte `k` is missing or does not,
/// the count of leading continuing bytes is `k`.
pub proof fn lemma_leading_continuations_is(bytes: Seq<u8>, k: nat)
    requires
        k <= bytes.len(),
        all_continue(bytes.take(k as int)),
        k < bytes.len() ==> !continues(bytes[k as int]),
    ensures
        leading_continuations(bytes) == k,
    decreases k,
{
    if k > 0 {
        assert(bytes[0] == bytes.take(k as int)[0]);
        let rest = bytes.drop_first();
        assert forall|i: int| 0 <= i < k - 1 implies continues(
            #[trigger] rest.take(k - 1)[i],
        ) by {
            assert(rest.take(k - 1)[i] == bytes.take(k as int)[i + 1]);
        }
        lemma_leading_continuations_is(rest, (k - 1) as nat);
    }
}

/// Every weight is at least 1.
pub proof fn lemma_weight_positive(n: nat)
    ensures
        weight(n) >= 1,
    decreases n,
{
    if n > 0 {
        lemma_weight_positive((n - 1) as nat);
    }
}

/// The value of a run of groups is below the weight of the next position.
pub proof fn lemma_groups_value_bound(bytes: Seq<u8>)
    ensures
        groups_value(bytes) < weight(bytes.len()),
    decreases bytes.len(),
{
    if bytes.len() > 0 {
        lemma_groups_value_bound(bytes.drop_first());
    }
}

/// One more group at the end adds its payload at the weight of its position.
pub proof fn lemma_groups_value_push(bytes: Seq<u8>, byte: u8)
    ensures
        groups_value(bytes.push(byte)) == groups_value(bytes) + payload(byte) * weight(
            bytes.len(),
        ),
    decreases bytes.len(),
{
    let longer = bytes.push(byte);
    let p = payload(byte);
    assert(longer[0] == if bytes.len() == 0 {
        byte
    } else {
        bytes[0]
    });
    assert(groups_value(longer) == payload(longer[0]) + 128 * groups_value(longer.drop_first()));
    if bytes.len() == 0 {
        assert(longer.drop_first() =~= Seq::<u8>::empty());
        assert(groups_value(longer.drop_first()) == 0);
        assert(groups_value(bytes) == 0);
        assert(weight(bytes.len()) == 1);
        assert(p * 1 == p) by (nonlinear_arith);
    } else {
        let rest = bytes.drop_first();
        let w = weight(rest.len());
        lemma_groups_value_push(rest, byte);
        assert(longer.drop_first() =~= rest.push(byte));
        assert(groups_value(longer.drop_first()) == groups_value(rest) + p * w);
        assert(groups_value(bytes) == payload(bytes[0]) + 128 * groups_value(rest));
        assert(weight(bytes.len()) == 128 * w);
        assert(128 * (p * w) == p * (128 * w)) by (nonlinear_arith);
    }
}

/// What follows a varint, or follows the bytes at which a decoder gives up,
/// does not change what the decoder makes of the input.
pub proof fn lemma_decoding_ignores_rest(
    bytes: Seq<u8>,
    rest: Seq<u8>,
    max_groups: nat,
    modulus: nat,
)
    requires
        decoding(bytes, max_groups, modulus) != Err::<(nat, nat), VarintError>(
            VarintError::EndOfInput,
        ),
    ensures
        decoding(bytes + rest, max_groups, modulus) == decoding(bytes, max_groups, modulus),
        bytes_taken(bytes + rest, max_groups) == bytes_taken(bytes, max_groups),
{
    let k = leading_continuations(bytes) as int;
    let whole = bytes + rest;
    lemma_leading_continuations(bytes);
    if k < bytes.len() {
        assert forall|i: int| 0 <= i < k implies continues(#[trigger] whole.take(k as int)[i]) by {
            assert(whole.take(k as int)[i] == bytes.take(k as int)[i]);
        }
        lemma_leading_continuations_is(whole, k as nat);
        assert(whole.take(k + 1) =~= bytes.take(k + 1));
    } else {
        // the decoder gives up inside `bytes`: more than enough bytes continue
        assert(k >= max_groups);
        lemma_leading_continuations(whole);
        let m = leading_continuations(whole);
        if m < k {
            assert(bytes.take(k as int)[m as int] == whole[m as int]);
        }
    }
}

/// A run of continuing bytes that is shorter than the limit is an input that
/// ends too early, and a decoder takes all of it.
pub proof fn lemma_decoding_unfinished(bytes: Seq<u8>, max_groups: nat, modulus: nat)
    requires
        all_continue(bytes),
        bytes.len() < max_groups,
    ensures
        decoding(bytes, max_groups, modulus) == Err::<(nat, nat), VarintError>(
            VarintError::EndOfInput,
        ),
        bytes_taken(bytes, max_groups) == bytes.len(),
{
    assert(bytes.take(bytes.len() as int) =~= bytes);
    lemma_leading_continuations_is(bytes, bytes.len());
}

/// An input whose first `max_groups` bytes all continue is refused, and a
/// decoder takes just those bytes.
pub proof fn lemma_decoding_overflow(bytes: Seq<u8>, max_groups: nat, modulus: nat)
    requires
        max_groups <= bytes.len(),
        all_continue(bytes.take(max_groups as int)),
    ensures
        decoding(bytes, max_groups, modulus) == Err::<(nat, nat), VarintError>(
            VarintError::Overflow,
        ),
        bytes_taken(bytes, max_groups) == max_groups,
{
    lemma_leading_continuations(bytes);
    let k = leading_continuations(bytes);
    if k < max_groups {
        assert(bytes.take(max_groups as int)[k as int] == bytes[k as int]);
    }
}

/// The encoding of a number is one whole varint: its last byte has the
/// continuation flag clear, and every byte before it has the flag set.
pub proof fn lemma_encoding_is_varint(value: nat)
    ensures
        is_varint(encoding(value)),
        leading_continuations(encoding(value)) == encoding(value).len() - 1,
    decreases value,
{
    let bytes = encoding(value);
    if value >= 128 {
        let tail = encoding(value / 128);
        lemma_encoding_is_varint(value / 128);
        assert forall|i: int| 0 <= i < bytes.drop_last().len() implies continues(
            #[trigger] bytes.drop_last()[i],
        ) by {
            if i > 0 {
                assert(bytes.drop_last()[i] == tail.drop_last()[i - 1]);
            }
        }
    }
    assert(bytes.take(bytes.len() - 1) =~= bytes.drop_last());
    lemma_leading_continuations_is(bytes, (bytes.len() - 1) as nat);
}

/// The groups of the encoding of a number spell that number.
pub proof fn lemma_encoding_value(value: nat)
    ensures
        groups_value(encoding(value)) == value,
    decreases value,
{
    let bytes = encoding(value);
    if value < 128 {
        assert(bytes.drop_first() =~= Seq::<u8>::empty());
        assert(groups_value(bytes.drop_first()) == 0);
    } else {
        lemma_encoding_value(value / 128);
        assert(bytes.drop_first() =~= encoding(value / 128));
    }
}

/// Above 127, dropping seven bits shortens a number by seven binary digits.
pub proof fn lemma_bit_length_of_rest(value: nat)
    requires
        value >= 128,
    ensures
        bit_length(value) == 7 + bit_length(value / 128),
{
    let v1 = value / 2;
    let v2 = v1 / 2;
    let v3 = v2 / 2;
    let v4 = v3 / 2;
    let v5 = v4 / 2;
    let v6 = v5 / 2;
    let v7 = v6 / 2;
    assert(v7 == value / 128);
    assert(bit_length(value) == 1 + bit_length(v1));
    assert(bit_length(v1) == 1 + bit_length(v2));
    assert(bit_length(v2) == 1 + bit_length(v3));
    assert(bit_length(v3) == 1 + bit_length(v4));
    assert(bit_length(v4) == 1 + bit_length(v5));
    assert(bit_length(v5) == 1 + bit_length(v6));
    assert(bit_length(v6) == 1 + bit_length(v7));
}

/// The encoding is minimal: it has as many bytes as the number has 7-bit
/// groups, which is its bit length over 7, rounded up, and one byte for 0.
pub proof fn lemma_encoding_len(value: nat)
    ensures
        encoding(value).len() == groups_needed(value),
    decreases value,
{
    if value < 128 {
        reveal_with_fuel(bit_length, 9);
    } else {
        lemma_encoding_len(value / 128);
        lemma_bit_length_of_rest(value);
    }
}

/// A number below 128 to the power `n` is encoded in at most `n` bytes, and
/// one that is not takes more.
pub proof fn lemma_encoding_len_bound(value: nat, n: nat)
    requires
        n >= 1,
    ensures
        value < weight(n) <==> encoding(value).len() <= n,
    decreases n,
{
    let w = weight((n - 1) as nat);
    assert(weight(n) == 128 * w);
    lemma_weight_positive((n - 1) as nat);
    if value >= 128 {
        let tail = encoding(value / 128);
        assert(encoding(value).len() == 1 + tail.len());
        if n == 1 {
            lemma_encoding_is_varint(value / 128);
        } else {
            lemma_encoding_len_bound(value / 128, (n - 1) as nat);
            assert(value < 128 * w <==> value / 128 < w);
        }
    }
}

/// Decoding undoes encoding, whatever follows the varint: where the number
/// is below the modulus and its encoding within the limit of groups, a
/// decoder gives back the number and takes just the bytes of the encoding.
pub proof fn lemma_decoding_of_encoding(
    value: nat,
    rest: Seq<u8>,
    max_groups: nat,
    modulus: nat,
)
    requires
        value < modulus,
        encoding(value).len() <= max_groups,
    ensures
        decoding(encoding(value) + rest, max_groups, modulus) == Ok::<(nat, nat), VarintError>(
            (value, encoding(value).len()),
        ),
        bytes_taken(encoding(value) + rest, max_groups) == encoding(value).len(),
{
    let bytes = encoding(value);
    let k = leading_continuations(bytes) as int;
    lemma_encoding_is_varint(value);
    lemma_encoding_value(value);
    assert(k == bytes.len() - 1);
    assert(bytes.take(k + 1) =~= bytes);
    assert(value % modulus == value) by {
        vstd::arithmetic::div_mod::lemma_small_mod(value, modulus);
    }
    assert(decoding(bytes, max_groups, modulus) == Ok::<(nat, nat), VarintError>(
        (value, bytes.len()),
    ));
    lemma_decoding_ignores_rest(bytes, rest, max_groups, modulus);
}

/// Every unsigned 32-bit value comes back from its encoding, whatever
/// follows it, and the encoding has at most five bytes.
pub proof fn lemma_round_trip_32(value: u32, rest: Seq<u8>)
    ensures
        encoding(value as nat).len() <= 5,
        decoding_32(encoding(value as nat) + rest) == Ok::<(nat, nat), VarintError>(
            (value as nat, encoding(value as nat).len()),
        ),
{
    reveal_with_fuel(weight, 6);
    lemma_encoding_len_bound(value as nat, 5);
    lemma_decoding_of_encoding(value as nat, rest, 5, 0x1_0000_0000);
}

/// Every unsigned 64-bit value comes back from its encoding, whatever
/// follows it, and the encoding has at most ten bytes.
pub proof fn lemma_round_trip_64(value: u64, rest: Seq<u8>)
    ensures
        encoding(value as nat).len() <= 10,
        decoding_64(encoding(value as nat) + rest) == Ok::<(nat, nat), VarintError>(
            (value as nat, encoding(value as nat).len()),
        ),
{
    reveal_with_fuel(weight, 11);
    lemma_encoding_len_bound(value as nat, 10);
    lemma_decoding_of_encoding(value as nat, rest, 10, 0x1_0000_0000_0000_0000);
}

/// What a decoder for signed values makes of `bytes`: what `decoding` makes
/// of them, with the value unfolded.
pub open spec fn signed_decoding(bytes: Seq<u8>, max_groups: nat, modulus: nat) -> Result<
    (int, nat),
    VarintError,
> {
    match decoding(bytes, max_groups, modulus) {
        Ok((folded, taken)) => Ok((zigzag_decode(folded), taken)),
        Err(e) => Err(e),
    }
}

/// `signed_decoding` for a 32-bit target.
pub open spec fn signed_decoding_32(bytes: Seq<u8>) -> Result<(int, nat), VarintError> {
    signed_decoding(bytes, 5, 0x1_0000_0000)
}

/// `signed_decoding` for a 64-bit target.
pub open spec fn signed_decoding_64(bytes: Seq<u8>) -> Result<(int, nat), VarintError> {
    signed_decoding(bytes, 10, 0x1_0000_0000_0000_0000)
}

/// Every signed 32-bit value, the least one too, comes back from the
/// encoding of its fold, whatever follows it.
pub proof fn lemma_signed_round_trip_32(value: i32, rest: Seq<u8>)
    ensures
        zigzag_encode(value as int) <= u32::MAX,
        signed_decoding_32(encoding(zigzag_encode(value as int)) + rest) == Ok::<
            (int, nat),
            VarintError,
        >((value as int, encoding(zigzag_encode(value as int)).len())),
{
    let folded = zigzag_encode(value as int);
    lemma_zigzag_decode_encode(value as int);
    lemma_round_trip_32(folded as u32, rest);
}

/// Every signed 64-bit value, the least one too, comes back from the
/// encoding of its fold, whatever follows it.
pub proof fn lemma_signed_round_trip_64(value: i64, rest: Seq<u8>)
    ensures
        zigzag_encode(value as int) <= u64::MAX,
        signed_decoding_64(encoding(zigzag_encode(value as int)) + rest) == Ok::<
            (int, nat),
            VarintError,
        >((value as int, encoding(zigzag_encode(value as int)).len())),
{
    let folded = zigzag_encode(value as int);
    lemma_zigzag_decode_encode(value as int);
    lemma_round_trip_64(folded as u64, rest);
}

} // verus!
