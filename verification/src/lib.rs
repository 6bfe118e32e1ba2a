//! An implementation of Google Protobuf's Variable-Length Integers.
//!
//! A number is written as a run of bytes that carry seven of its bits each,
//! the least significant first, with bit 7 set on every byte but the last. A
//! signed number is first folded into an unsigned one by the zig-zag
//! transform, so that numbers near zero of either sign stay short.
//!
//! `wire` says what the format is, `zigzag` what the fold is; `codec` turns
//! numbers into bytes in memory and back; `decoder` takes a varint one byte
//! at a time; `source` and `sink` read and write varints on anything that
//! hands out or takes single bytes, `rawio` and `iooperations` offer that as
//! methods, and `cursor` and `stream` are such things.

use vstd::prelude::*;

mod bits;
pub mod codec;
pub mod cursor;
pub mod decoder;
pub mod error;
pub mod iooperations;
pub mod rawio;
pub mod sink;
pub mod source;
pub mod stream;
pub mod wire;
pub mod zigzag;

pub use codec::{
    decode_signed_32, decode_signed_64, decode_unsigned_32, decode_unsigned_64, encode_signed_32,
    encode_signed_64, encode_unsigned_32, encode_unsigned_64,
};
pub use cursor::ByteCursor;
pub use decoder::{Decoder32, Decoder64, Step32, Step64};
pub use error::VarintError;
pub use iooperations::{VarintReader, VarintWriter};
pub use rawio::{VarintRead, VarintWrite};
pub use sink::ByteSink;
pub use source::ByteSource;
pub use stream::{ReadByte, Stream, WriteByte};
pub use zigzag::ZigZag;

verus! {

/// The maximum number of bytes used by a 32-bit Varint.
pub const VARINT_32_MAX_BYTES: usize = 5;

/// The maximum number of bytes used by a 64-bit Varint.
pub const VARINT_64_MAX_BYTES: usize = 10;

} // verus!
