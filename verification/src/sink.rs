//! Where the bytes of a varint go: anything that takes one byte at a time.

use crate::error::VarintError;
use crate::wire::encoding;
use crate::zigzag::{zigzag_encode, ZigZag};
use vstd::prelude::*;

verus! {

/// What is left of the bytes `ahead` once `count` bytes have been written
/// over them: all but the first `count`, and nothing where there were no
/// more than that.
pub open spec fn left_ahead(ahead: Seq<u8>, count: nat) -> Seq<u8> {
    if count <= ahead.len() {
        ahead.skip(count as int)
    } else {
        Seq::empty()
    }
}

/// A sink for bytes, written one at a time.
pub trait ByteSink {
    /// What there is to the sink besides the bytes written: the type of
    /// `aside`.
    type Aside;

    /// The bytes that this sink has taken so far, oldest first.
    spec fn written(&self) -> Seq<u8>;

    /// The bytes that the sink holds where the next writes go, and which
    /// those writes replace one by one; none for a sink that only grows.
    spec fn ahead(&self) -> Seq<u8>;

    /// The errors that this sink has answered writes with so far, oldest
    /// first.
    spec fn refusals(&self) -> Seq<VarintError>;

    /// What writing leaves as it is.
    spec fn aside(&self) -> Self::Aside;

    /// Whether this sink takes every byte it is given (a buffer in memory),
    /// and so cannot fail.
    spec fn unfailing(&self) -> bool;

    /// Pushes exactly one byte.
    ///
    /// A write that succeeds adds its byte to the bytes written, in the place
    /// of the first byte ahead where there is one. A write that fails adds
    /// its error to the refusals and puts nothing into the sink.
    fn write_byte(&mut self, byte: u8) -> (r: Result<(), VarintError>)
        ensures
            match r {
                Ok(_) => {
                    &&& final(self).written() == old(self).written().push(byte)
                    &&& final(self).ahead() == left_ahead(old(self).ahead(), 1)
                    &&& final(self).refusals() == old(self).refusals()
                },
                Err(e) => {
                    &&& final(self).written() == old(self).written()
                    &&& final(self).ahead() == old(self).ahead()
                    &&& final(self).refusals() == old(self).refusals().push(e)
                },
            },
            old(self).unfailing() ==> r is Ok && final(self).unfailing(),
            final(self).aside() == old(self).aside(),
    ;
}

/// What writing the varint of `value` does to a sink.
///
/// A success has put the bytes of `encoding(value)` behind what the sink had
/// taken, and no write was refused. A failure is the sink's own, as it came:
/// it was the one write that was refused and the last to be made, and the
/// sink has taken the bytes that went through before it, fewer than the
/// whole. A sink that cannot fail takes them all. The bytes that went through
/// have replaced as many of the bytes ahead as there were; what the sink
/// keeps aside stays as it was.
pub open spec fn writes_varint<K: ByteSink>(
    before: K,
    after: K,
    value: nat,
    r: Result<(), VarintError>,
) -> bool {
    let start = before.written().len() as int;
    let put = after.written().skip(start);
    &&& start <= after.written().len()
    &&& after.written() == before.written() + put
    &&& match r {
        Ok(_) => {
            &&& put == encoding(value)
            &&& after.refusals() == before.refusals()
        },
        Err(e) => {
            &&& put.len() < encoding(value).len()
            &&& put == encoding(value).take(put.len() as int)
            &&& after.refusals() == before.refusals().push(e)
        },
    }
    &&& after.ahead() == left_ahead(before.ahead(), put.len())
    &&& before.unfailing() ==> r is Ok && after.unfailing()
    &&& after.aside() == before.aside()
}

/// The low seven bits of a 32-bit value are its remainder by 128, and the
/// bits above them its quotient.
proof fn lemma_low_group_32(value: u32)
    by (bit_vector)
    ensures
        value & 0b0111_1111 == value % 128,
        value >> 7 == value / 128,
{
}

/// Setting bit 7 of a byte below 128 adds 128 to it.
proof fn lemma_continuation_flag(low: u8)
    by (bit_vector)
    requires
        low < 128,
    ensures
        low | 0b1000_0000 == low + 128,
{
}

/// Writes an unsigned 32-bit varint to `sink`.
///
/// While more than seven bits remain, the low seven go out with the
/// continuation flag set and the value is shifted down by seven; the last
/// group goes out with the flag clear. Zero is the single byte 0. The first
/// failure of the sink ends the writing and is returned as it came.
pub fn write_unsigned_32<K: ByteSink>(sink: &mut K, value: u32) -> (r: Result<(), VarintError>)
    ensures
        writes_varint(*old(sink), *final(sink), value as nat, r),
{
    let ghost start = sink.written();
    let ghost room = sink.ahead();
    let ghost whole = encoding(value as nat);
    proof {
        assert((start + Seq::<u8>::empty()) =~= start);
        assert(start.skip(start.len() as int) =~= Seq::<u8>::empty());
        assert(whole.take(0) =~= Seq::<u8>::empty());
        assert(left_ahead(room, 0) =~= room);
    }
    if value == 0 {
        let r = sink.write_byte(0);
        proof {
            assert(start.push(0u8).skip(start.len() as int) =~= seq![0u8]);
            assert(start.push(0u8) =~= start + seq![0u8]);
        }
        return r;
    }
    let mut rest: u32 = value;
    let ghost mut put: Seq<u8> = Seq::empty();
    while rest >= 0b1000_0000
        invariant
            start == old(sink).written(),
            whole == encoding(value as nat),
            sink.written() == start + put,
            put + encoding(rest as nat) == whole,
            old(sink).unfailing() ==> sink.unfailing(),
            sink.aside() == old(sink).aside(),
            sink.refusals() == old(sink).refusals(),
            room == old(sink).ahead(),
            sink.ahead() == left_ahead(room, put.len()),
        decreases rest,
    {
        proof {
            lemma_low_group_32(rest);
        }
        let low: u8 = (rest & 0b0111_1111) as u8;
        proof {
            lemma_continuation_flag(low);
        }
        let next_byte: u8 = low | 0b1000_0000;
        let ghost tail = encoding((rest / 128) as nat);
        proof {
            assert(encoding(rest as nat) == seq![next_byte] + tail);
            assert(put.push(next_byte) + tail =~= put + (seq![next_byte] + tail));
            assert((start + put).skip(start.len() as int) =~= put);
            assert(whole.take(put.len() as int) =~= put);
        }
        rest = rest >> 7;
        let temp = sink.write_byte(next_byte);
        if temp.is_err() {
            return temp;
        }
        proof {
            assert(sink.written() =~= start + put.push(next_byte));
            assert(left_ahead(left_ahead(room, put.len()), 1) =~= left_ahead(
                room,
                put.len() + 1,
            ));
            put = put.push(next_byte);
        }
    }
    proof {
        lemma_low_group_32(rest);
        assert(encoding(rest as nat) =~= seq![rest as u8]);
        assert((start + put).skip(start.len() as int) =~= put);
        assert(whole.take(put.len() as int) =~= put);
        assert(put.push(rest as u8) =~= put + seq![rest as u8]);
        assert((start + put).push(rest as u8) =~= start + whole);
        assert((start + whole).skip(start.len() as int) =~= whole);
        assert(left_ahead(left_ahead(room, put.len()), 1) =~= left_ahead(room, put.len() + 1));
    }
    sink.write_byte((rest & 0b0111_1111) as u8)
}

/// Writes a signed 32-bit varint to `sink`: the varint of its zig-zag fold.
pub fn write_signed_32<K: ByteSink>(sink: &mut K, value: i32) -> (r: Result<(), VarintError>)
    ensures
        writes_varint(*old(sink), *final(sink), zigzag_encode(value as int), r),
{
    write_unsigned_32(sink, value.zigzag())
}

/// The low seven bits of a 64-bit value are its remainder by 128, and the
/// bits above them its quotient.
proof fn lemma_low_group_64(value: u64)
    by (bit_vector)
    ensures
        value & 0b0111_1111 == value % 128,
        value >> 7 == value / 128,
{
}

/// Writes an unsigned 64-bit varint to `sink`.
///
/// While more than seven bits remain, the low seven go out with the
/// continuation flag set and the value is shifted down by seven; the last
/// group goes out with the flag clear. Zero is the single byte 0. The first
/// failure of the sink ends the writing and is returned as it came.
pub fn write_unsigned_64<K: ByteSink>(sink: &mut K, value: u64) -> (r: Result<(), VarintError>)
    ensures
        writes_varint(*old(sink), *final(sink), value as nat, r),
{
    let ghost start = sink.written();
    let ghost room = sink.ahead();
    let ghost whole = encoding(value as nat);
    proof {
        assert((start + Seq::<u8>::empty()) =~= start);
        assert(start.skip(start.len() as int) =~= Seq::<u8>::empty());
        assert(whole.take(0) =~= Seq::<u8>::empty());
        assert(left_ahead(room, 0) =~= room);
    }
    if value == 0 {
        let r = sink.write_byte(0);
        proof {
            assert(start.push(0u8).skip(start.len() as int) =~= seq![0u8]);
            assert(start.push(0u8) =~= start + seq![0u8]);
        }
        return r;
    }
    let mut rest: u64 = value;
    let ghost mut put: Seq<u8> = Seq::empty();
    while rest >= 0b1000_0000
        invariant
            start == old(sink).written(),
            whole == encoding(value as nat),
            sink.written() == start + put,
            put + encoding(rest as nat) == whole,
            old(sink).unfailing() ==> sink.unfailing(),
            sink.aside() == old(sink).aside(),
            sink.refusals() == old(sink).refusals(),
            room == old(sink).ahead(),
            sink.ahead() == left_ahead(room, put.len()),
        decreases rest,
    {
        proof {
            lemma_low_group_64(rest);
        }
        let low: u8 = (rest & 0b0111_1111) as u8;
        proof {
            lemma_continuation_flag(low);
        }
        let next_byte: u8 = low | 0b1000_0000;
        let ghost tail = encoding((rest / 128) as nat);
        proof {
            assert(encoding(rest as nat) == seq![next_byte] + tail);
            assert(put.push(next_byte) + tail =~= put + (seq![next_byte] + tail));
            assert((start + put).skip(start.len() as int) =~= put);
            assert(whole.take(put.len() as int) =~= put);
        }
        rest = rest >> 7;
        let temp = sink.write_byte(next_byte);
        if temp.is_err() {
            return temp;
        }
        proof {
            assert(sink.written() =~= start + put.push(next_byte));
            assert(left_ahead(left_ahead(room, put.len()), 1) =~= left_ahead(
                room,
                put.len() + 1,
            ));
            put = put.push(next_byte);
        }
    }
    proof {
        lemma_low_group_64(rest);
        assert(encoding(rest as nat) =~= seq![rest as u8]);
        assert((start + put).skip(start.len() as int) =~= put);
        assert(whole.take(put.len() as int) =~= put);
        assert(put.push(rest as u8) =~= put + seq![rest as u8]);
        assert((start + put).push(rest as u8) =~= start + whole);
        assert((start + whole).skip(start.len() as int) =~= whole);
        assert(left_ahead(left_ahead(room, put.len()), 1) =~= left_ahead(room, put.len() + 1));
    }
    sink.write_byte((rest & 0b0111_1111) as u8)
}

/// Writes a signed 64-bit varint to `sink`: the varint of its zig-zag fold.
pub fn write_signed_64<K: ByteSink>(sink: &mut K, value: i64) -> (r: Result<(), VarintError>)
    ensures
        writes_varint(*old(sink), *final(sink), zigzag_encode(value as int), r),
{
    write_unsigned_64(sink, value.zigzag())
}

} // verus!
