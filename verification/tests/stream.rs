use varint::{ReadByte, Stream, VarintError, VarintRead, VarintWrite, WriteByte};

/// A device that hands out the same byte for ever.
struct Endless(u8);

impl ReadByte for Endless {
    fn read_byte(&mut self) -> Result<u8, VarintError> {
        Ok(self.0)
    }
}

/// A device that hands out its bytes and then fails as it is told to.
struct Script {
    bytes: Vec<u8>,
    next: usize,
    ending: VarintError,
}

impl ReadByte for Script {
    fn read_byte(&mut self) -> Result<u8, VarintError> {
        if self.next < self.bytes.len() {
            self.next += 1;
            Ok(self.bytes[self.next - 1])
        } else {
            Err(self.ending)
        }
    }
}

/// A device that hands out continuing bytes and breaks at the call `fail_at`.
struct Attempts {
    calls: usize,
    fail_at: usize,
}

impl ReadByte for Attempts {
    fn read_byte(&mut self) -> Result<u8, VarintError> {
        self.calls += 1;
        if self.calls == self.fail_at {
            Err(VarintError::IoFailure)
        } else {
            Ok(0x80)
        }
    }
}

/// A device that takes `room` bytes and refuses every byte after them with
/// `refusal`; it counts the bytes that it is offered.
struct Tight {
    taken: Vec<u8>,
    room: usize,
    offered: usize,
    refusal: VarintError,
}

impl Tight {
    fn with_room(room: usize) -> Tight {
        Tight { taken: Vec::new(), room, offered: 0, refusal: VarintError::IoFailure }
    }
}

impl WriteByte for Tight {
    fn write_byte(&mut self, byte: u8) -> Result<(), VarintError> {
        self.offered += 1;
        if self.taken.len() < self.room {
            self.taken.push(byte);
            Ok(())
        } else {
            Err(self.refusal)
        }
    }
}

#[test]
fn endless_continuation_overflows() {
    let mut source = Stream::new(Endless(0x80));
    assert_eq!(Err(VarintError::Overflow), source.read_unsigned_varint_32());
    assert_eq!(Err(VarintError::Overflow), source.read_signed_varint_32());
    assert_eq!(Err(VarintError::Overflow), source.read_unsigned_varint_64());
    assert_eq!(Err(VarintError::Overflow), source.read_signed_varint_64());
}

#[test]
fn endless_terminators_read_as_single_bytes() {
    let mut source = Stream::new(Endless(0x07));
    assert_eq!(Ok(7), source.read_unsigned_varint_32());
    assert_eq!(Ok(-4), source.read_signed_varint_32());
    assert_eq!(Ok(7), source.read_unsigned_varint_64());
    assert_eq!(Ok(-4), source.read_signed_varint_64());
}

#[test]
fn overflow_reads_no_byte_beyond_the_limit() {
    let script = Script { bytes: vec![0x80; 8], next: 0, ending: VarintError::EndOfInput };
    let mut source = Stream::new(script);
    assert_eq!(Err(VarintError::Overflow), source.read_unsigned_varint_32());
    assert_eq!(5, source.into_inner().next);
}

#[test]
fn the_error_of_the_source_is_passed_on() {
    let script = Script { bytes: vec![0x80, 0x80], next: 0, ending: VarintError::IoFailure };
    let mut source = Stream::new(script);
    assert_eq!(Err(VarintError::IoFailure), source.read_unsigned_varint_32());
    let script = Script { bytes: vec![0x80, 0x80], next: 0, ending: VarintError::EndOfInput };
    let mut source = Stream::new(script);
    assert_eq!(Err(VarintError::EndOfInput), source.read_unsigned_varint_32());
    let script = Script { bytes: Vec::new(), next: 0, ending: VarintError::EndOfInput };
    let mut source = Stream::new(script);
    assert_eq!(Err(VarintError::EndOfInput), source.read_signed_varint_64());
}

#[test]
fn whatever_error_the_source_gives_comes_back() {
    let script = Script { bytes: vec![0x80], next: 0, ending: VarintError::Overflow };
    let mut source = Stream::new(script);
    assert_eq!(Err(VarintError::Overflow), source.read_unsigned_varint_32());
    assert_eq!(1, source.into_inner().next);
}

#[test]
fn a_failed_read_is_the_last_read() {
    let mut source = Stream::new(Attempts { calls: 0, fail_at: 3 });
    assert_eq!(Err(VarintError::IoFailure), source.read_unsigned_varint_32());
    assert_eq!(3, source.into_inner().calls);
    let mut source = Stream::new(Attempts { calls: 0, fail_at: 1 });
    assert_eq!(Err(VarintError::IoFailure), source.read_signed_varint_64());
    assert_eq!(1, source.into_inner().calls);
}

#[test]
fn sink_failure_stops_the_writing() {
    let mut sink = Stream::new(Tight::with_room(2));
    assert_eq!(Err(VarintError::IoFailure), sink.write_unsigned_varint_32(3463465));
    let device = sink.into_inner();
    assert_eq!(vec![0xA9u8, 0xB2], device.taken);
    assert_eq!(3, device.offered);
}

#[test]
fn whatever_error_the_sink_gives_comes_back() {
    let tight = Tight { taken: Vec::new(), room: 1, offered: 0, refusal: VarintError::EndOfInput };
    let mut sink = Stream::new(tight);
    assert_eq!(Err(VarintError::EndOfInput), sink.write_signed_varint_64(i64::MIN));
    let device = sink.into_inner();
    assert_eq!(vec![0xFFu8], device.taken);
    assert_eq!(2, device.offered);
}

#[test]
fn sink_with_room_takes_the_whole_varint() {
    let mut sink = Stream::new(Tight::with_room(16));
    assert_eq!(Ok(()), sink.write_unsigned_varint_32(3463465));
    assert_eq!(Ok(()), sink.write_signed_varint_32(-4));
    assert_eq!(Ok(()), sink.write_unsigned_varint_64(0));
    assert_eq!(Ok(()), sink.write_signed_varint_64(i64::MIN));
    let device = sink.into_inner();
    assert_eq!(
        vec![
            0xA9u8, 0xB2, 0xD3, 0x01, 0x07, 0x00, 0xFF, 0xFF, 0xFF, 0xFF, 0xFF, 0xFF, 0xFF, 0xFF,
            0xFF, 0x01
        ],
        device.taken
    );
    assert_eq!(16, device.offered);
}

#[test]
fn a_failing_sink_fails_on_zero_too() {
    let mut sink = Stream::new(Tight::with_room(0));
    assert_eq!(Err(VarintError::IoFailure), sink.write_unsigned_varint_32(0));
    assert_eq!(Err(VarintError::IoFailure), sink.write_signed_varint_64(0));
    let device = sink.into_inner();
    assert!(device.taken.is_empty());
    assert_eq!(2, device.offered);
}
