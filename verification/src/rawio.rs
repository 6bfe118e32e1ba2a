//! Varints on any source or sink of bytes.

use crate::error::VarintError;
use crate::sink::{
    write_signed_32, write_signed_64, write_unsigned_32, write_unsigned_64, writes_varint, ByteSink,
};
use crate::source::{
    read_signed_32, read_signed_64, read_unsigned_32, read_unsigned_64, reads_varint, ByteSource,
};
use crate::zigzag::zigzag_encode;
use vstd::prelude::*;

verus! {

/// Extends a source of bytes with functions to read variable-length integers.
pub trait VarintRead: ByteSource + Sized {
    /// Reads a signed 32-bit Varint from this VarintRead.
    fn read_signed_varint_32(&mut self) -> (r: Result<i32, VarintError>)
        ensures
            reads_varint(
                *old(self),
                *final(self),
                5,
                0x1_0000_0000,
                match r {
                    Ok(value) => Ok(zigzag_encode(value as int)),
                    Err(e) => Err(e),
                },
            ),
    {
        read_signed_32(self)
    }

    /// Reads an unsigned 32-bit Varint from this VarintRead.
    fn read_unsigned_varint_32(&mut self) -> (r: Result<u32, VarintError>)
        ensures
            reads_varint(
                *old(self),
                *final(self),
                5,
                0x1_0000_0000,
                match r {
                    Ok(value) => Ok(value as nat),
                    Err(e) => Err(e),
                },
            ),
    {
        read_unsigned_32(self)
    }

    /// Reads a signed 64-bit Varint from this VarintRead.
    fn read_signed_varint_64(&mut self) -> (r: Result<i64, VarintError>)
        ensures
            reads_varint(
                *old(self),
                *final(self),
                10,
                0x1_0000_0000_0000_0000,
                match r {
                    Ok(value) => Ok(zigzag_encode(value as int)),
                    Err(e) => Err(e),
                },
            ),
    {
        read_signed_64(self)
    }

    /// Reads an unsigned 64-bit Varint from this VarintRead.
    fn read_unsigned_varint_64(&mut self) -> (r: Result<u64, VarintError>)
        ensures
            reads_varint(
                *old(self),
                *final(self),
                10,
                0x1_0000_0000_0000_0000,
                match r {
                    Ok(value) => Ok(value as nat),
                    Err(e) => Err(e),
                },
            ),
    {
        read_unsigned_64(self)
    }
}

/// Extends a sink for bytes with functions to write variable-length integers.
pub trait VarintWrite: ByteSink + Sized {
    /// Writes a signed varint 32 to this VarintWrite.
    fn write_signed_varint_32(&mut self, value: i32) -> (r: Result<(), VarintError>)
        ensures
            writes_varint(*old(self), *final(self), zigzag_encode(value as int), r),
    {
        write_signed_32(self, value)
    }

    /// Writes an unsigned 32-bit Varint to this VarintWrite.
    fn write_unsigned_varint_32(&mut self, value: u32) -> (r: Result<(), VarintError>)
        ensures
            writes_varint(*old(self), *final(self), value as nat, r),
    {
        write_unsigned_32(self, value)
    }

    /// Writes a signed varint 64 to this VarintWrite.
    fn write_signed_varint_64(&mut self, value: i64) -> (r: Result<(), VarintError>)
        ensures
            writes_varint(*old(self), *final(self), zigzag_encode(value as int), r),
    {
        write_signed_64(self, value)
    }

    /// Writes an unsigned 64-bit Varint to this VarintWrite.
    fn write_unsigned_varint_64(&mut self, value: u64) -> (r: Result<(), VarintError>)
        ensures
            writes_varint(*old(self), *final(self), value as nat, r),
    {
        write_unsigned_64(self, value)
    }
}

} // verus!
