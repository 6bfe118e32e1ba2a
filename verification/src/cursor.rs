//! A buffer of bytes in memory with a position in it: a source and a sink
//! that cannot break.

use crate::error::VarintError;
use crate::iooperations::{VarintReader, VarintWriter};
use crate::rawio::{VarintRead, VarintWrite};
use crate::sink::ByteSink;
use crate::source::ByteSource;
use vstd::prelude::*;

verus! {

/// An owned buffer of bytes and a position in it.
///
/// Reading hands out the byte at the position and moves on by one; at the end
/// of the buffer it reports `EndOfInput` and stays. Writing puts a byte at
/// the position, over the byte that was there or behind the last one, and
/// moves on by one. A position behind the end of the buffer counts as the
/// end.
pub struct ByteCursor {
    data: Vec<u8>,
    position: usize,
    failed: Ghost<Seq<VarintError>>,
}

impl ByteCursor {
    /// The bytes in the buffer.
    pub closed spec fn bytes(&self) -> Seq<u8> {
        self.data@
    }

    /// The position: the index of the byte that is read or written next.
    pub closed spec fn offset(&self) -> nat {
        if self.position <= self.data@.len() {
            self.position as nat
        } else {
            self.data@.len()
        }
    }

    /// The errors that reads through this cursor ended in, oldest first.
    pub closed spec fn reads_failed(&self) -> Seq<VarintError> {
        self.failed@
    }

    /// The bytes in front of the position.
    pub open spec fn front(&self) -> Seq<u8> {
        self.bytes().take(self.offset() as int)
    }

    /// The bytes from the position on.
    pub open spec fn rest(&self) -> Seq<u8> {
        self.bytes().skip(self.offset() as int)
    }

    /// The position never lies behind the end of the buffer, so the buffer is
    /// what is in front of the position and what comes from it on.
    pub proof fn lemma_offset_within(&self)
        ensures
            self.offset() <= self.bytes().len(),
            self.bytes() == self.front() + self.rest(),
    {
        assert(self.bytes() =~= self.front() + self.rest());
    }

    /// A cursor over `data`, at its front.
    pub fn new(data: Vec<u8>) -> (cursor: Self)
        ensures
            cursor.bytes() == data@,
            cursor.offset() == 0,
            cursor.reads_failed() == Seq::<VarintError>::empty(),
    {
        ByteCursor { data, position: 0, failed: Ghost(Seq::empty()) }
    }

    /// The position.
    pub fn position(&self) -> (position: usize)
        ensures
            position == self.offset(),
            position <= self.bytes().len(),
    {
        if self.position <= self.data.len() {
            self.position
        } else {
            self.data.len()
        }
    }

    /// Moves to `position`; behind the end of the buffer that is the end. The
    /// bytes stay.
    pub fn set_position(&mut self, position: usize)
        ensures
            final(self).bytes() == old(self).bytes(),
            final(self).offset() == if position <= old(self).bytes().len() {
                position as nat
            } else {
                old(self).bytes().len()
            },
            final(self).reads_failed() == old(self).reads_failed(),
    {
        self.position = position;
    }

    /// The buffer.
    pub fn get_ref(&self) -> (data: &Vec<u8>)
        ensures
            data@ == self.bytes(),
    {
        &self.data
    }

    /// Gives the buffer back.
    pub fn into_inner(self) -> (data: Vec<u8>)
        ensures
            data@ == self.bytes(),
    {
        self.data
    }
}

impl ByteSource for ByteCursor {
    type Aside = ();

    open spec fn aside(&self) -> () {
        ()
    }

    open spec fn consumed(&self) -> Seq<u8> {
        self.front()
    }

    open spec fn upcoming(&self) -> Option<Seq<u8>> {
        Some(self.rest())
    }

    open spec fn failures(&self) -> Seq<VarintError> {
        self.reads_failed()
    }

    /// Hands out the byte at the position and moves on by one, or reports
    /// `EndOfInput` at the end of the buffer.
    fn read_byte(&mut self) -> (r: Result<u8, VarintError>)
        ensures
            final(self).bytes() == old(self).bytes(),
            final(self).offset() == old(self).offset() + if r is Ok {
                1nat
            } else {
                0nat
            },
    {
        if self.position < self.data.len() {
            let byte = self.data[self.position];
            proof {
                let s = self.data@;
                let p = self.position as int;
                assert(s.take(p + 1) =~= s.take(p).push(s[p]));
                assert(s.skip(p + 1) =~= s.skip(p).drop_first());
            }
            self.position = self.position + 1;
            Ok(byte)
        } else {
            self.failed = Ghost(self.failed@.push(VarintError::EndOfInput));
            Err(VarintError::EndOfInput)
        }
    }
}

impl ByteSink for ByteCursor {
    type Aside = Seq<VarintError>;

    /// Writing leaves the record of the failed reads as it is.
    open spec fn aside(&self) -> Seq<VarintError> {
        self.reads_failed()
    }

    open spec fn written(&self) -> Seq<u8> {
        self.front()
    }

    open spec fn ahead(&self) -> Seq<u8> {
        self.rest()
    }

    open spec fn refusals(&self) -> Seq<VarintError> {
        Seq::empty()
    }

    open spec fn unfailing(&self) -> bool {
        true
    }

    /// Puts `byte` at the position, over the byte that was there or behind
    /// the last one, and moves on by one.
    fn write_byte(&mut self, byte: u8) -> (r: Result<(), VarintError>)
        ensures
            r is Ok,
            final(self).offset() == old(self).offset() + 1,
            final(self).bytes() == if old(self).offset() < old(self).bytes().len() {
                old(self).bytes().update(old(self).offset() as int, byte)
            } else {
                old(self).bytes().push(byte)
            },
    {
        let ghost held = self.data@;
        let ghost p = self.offset() as int;
        if self.position < self.data.len() {
            self.data.set(self.position, byte);
            self.position = self.position + 1;
            proof {
                assert(held.update(p, byte).take(p + 1) =~= held.take(p).push(byte));
                assert(held.update(p, byte).skip(p + 1) =~= held.skip(p).skip(1));
            }
        } else {
            self.data.push(byte);
            self.position = self.data.len();
            proof {
                assert(held.push(byte).take(p + 1) =~= held.take(p).push(byte));
                assert(held.push(byte).skip(p + 1) =~= Seq::<u8>::empty());
                assert(held.skip(p) =~= Seq::<u8>::empty());
            }
        }
        Ok(())
    }
}

impl VarintRead for ByteCursor {

}

impl VarintWrite for ByteCursor {

}

impl VarintReader for ByteCursor {

}

impl VarintWriter for ByteCursor {

}

} // verus!
