//! Sources and sinks that live outside this library: a file, a connection,
//! anything that can hand over or take one byte.
//!
//! Such a device implements `ReadByte` or `WriteByte`, which ask nothing of
//! it. A `Stream` around it keeps the record of the bytes that went through,
//! and is the `ByteSource` or `ByteSink` that varints are read from or
//! written to.

use crate::error::VarintError;
use crate::iooperations::{VarintReader, VarintWriter};
use crate::rawio::{VarintRead, VarintWrite};
use crate::sink::ByteSink;
use crate::source::ByteSource;
use vstd::prelude::*;

verus! {

/// The one thing asked of a device that bytes are read from.
pub trait ReadByte {
    /// Pulls exactly one byte: `EndOfInput` where there is none left,
    /// `IoFailure` where the device broke. A varint read that meets an error
    /// of the device ends with that error.
    fn read_byte(&mut self) -> Result<u8, VarintError>;
}

/// The one thing asked of a device that bytes are written to.
pub trait WriteByte {
    /// Pushes exactly one byte: `IoFailure` where the device did not take it.
    /// A varint write that meets an error of the device ends with that error.
    fn write_byte(&mut self, byte: u8) -> Result<(), VarintError>;
}

/// A device together with the record of what went through this value: the
/// bytes read from the device and written to it, and the errors that it
/// answered reads and writes with.
///
/// Nothing is known of such a device in advance: it has no upcoming bytes to
/// go by, and it may fail at any byte.
pub struct Stream<T> {
    device: T,
    read: Ghost<Seq<u8>>,
    wrote: Ghost<Seq<u8>>,
    failed: Ghost<Seq<VarintError>>,
    refused: Ghost<Seq<VarintError>>,
}

impl<T> Stream<T> {
    /// A stream around `device`, through which nothing has gone yet.
    pub fn new(device: T) -> (stream: Self)
        ensures
            stream.device() == device,
            stream.bytes_read() == Seq::<u8>::empty(),
            stream.bytes_written() == Seq::<u8>::empty(),
            stream.reads_failed() == Seq::<VarintError>::empty(),
            stream.writes_refused() == Seq::<VarintError>::empty(),
    {
        Stream {
            device,
            read: Ghost(Seq::empty()),
            wrote: Ghost(Seq::empty()),
            failed: Ghost(Seq::empty()),
            refused: Ghost(Seq::empty()),
        }
    }

    /// The device inside.
    pub closed spec fn device(&self) -> T {
        self.device
    }

    /// The bytes read through this stream so far, oldest first.
    pub closed spec fn bytes_read(&self) -> Seq<u8> {
        self.read@
    }

    /// The bytes written through this stream so far, oldest first.
    pub closed spec fn bytes_written(&self) -> Seq<u8> {
        self.wrote@
    }

    /// The errors that the device answered reads with, oldest first.
    pub closed spec fn reads_failed(&self) -> Seq<VarintError> {
        self.failed@
    }

    /// The errors that the device answered writes with, oldest first.
    pub closed spec fn writes_refused(&self) -> Seq<VarintError> {
        self.refused@
    }

    /// Gives the device back.
    pub fn into_inner(self) -> (device: T)
        ensures
            device == self.device(),
    {
        self.device
    }
}

impl<T: ReadByte> ByteSource for Stream<T> {
    type Aside = (Seq<u8>, Seq<VarintError>);

    /// Reading leaves the record of the writes as it is.
    open spec fn aside(&self) -> (Seq<u8>, Seq<VarintError>) {
        (self.bytes_written(), self.writes_refused())
    }

    open spec fn consumed(&self) -> Seq<u8> {
        self.bytes_read()
    }

    open spec fn upcoming(&self) -> Option<Seq<u8>> {
        None
    }

    open spec fn failures(&self) -> Seq<VarintError> {
        self.reads_failed()
    }

    /// Pulls one byte from the device and records the byte or the error
    /// that came. The error is passed on as it is.
    fn read_byte(&mut self) -> (r: Result<u8, VarintError>) {
        match self.device.read_byte() {
            Ok(byte) => {
                self.read = Ghost(self.read@.push(byte));
                Ok(byte)
            },
            Err(error) => {
                self.failed = Ghost(self.failed@.push(error));
                Err(error)
            },
        }
    }
}

impl<T: WriteByte> ByteSink for Stream<T> {
    type Aside = (Seq<u8>, Seq<VarintError>);

    /// Writing leaves the record of the reads as it is.
    open spec fn aside(&self) -> (Seq<u8>, Seq<VarintError>) {
        (self.bytes_read(), self.reads_failed())
    }

    open spec fn written(&self) -> Seq<u8> {
        self.bytes_written()
    }

    open spec fn ahead(&self) -> Seq<u8> {
        Seq::empty()
    }

    open spec fn refusals(&self) -> Seq<VarintError> {
        self.writes_refused()
    }

    open spec fn unfailing(&self) -> bool {
        false
    }

    /// Pushes one byte to the device and records the byte, or the error that
    /// came. The error is passed on as it is.
    fn write_byte(&mut self, byte: u8) -> (r: Result<(), VarintError>) {
        match self.device.write_byte(byte) {
            Ok(_) => {
                self.wrote = Ghost(self.wrote@.push(byte));
                Ok(())
            },
            Err(error) => {
                self.refused = Ghost(self.refused@.push(error));
                Err(error)
            },
        }
    }
}

impl<T: ReadByte> VarintRead for Stream<T> {

}

impl<T: WriteByte> VarintWrite for Stream<T> {

}

impl<T: ReadByte> VarintReader for Stream<T> {

}

impl<T: WriteByte> VarintWriter for Stream<T> {

}

} // verus!
