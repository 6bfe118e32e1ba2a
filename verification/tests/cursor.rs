use varint::{ByteCursor, ByteSink, ByteSource, VarintError, VarintRead, VarintWrite};

#[test]
fn cursor_reads_from_its_position() {
    let mut cursor = ByteCursor::new(vec![1, 2, 3]);
    assert_eq!(0, cursor.position());
    assert_eq!(Ok(1), cursor.read_byte());
    assert_eq!(Ok(2), cursor.read_byte());
    assert_eq!(2, cursor.position());
    cursor.set_position(1);
    assert_eq!(Ok(2), cursor.read_byte());
    assert_eq!(Ok(3), cursor.read_byte());
    assert_eq!(Err(VarintError::EndOfInput), cursor.read_byte());
    assert_eq!(Err(VarintError::EndOfInput), cursor.read_byte());
    assert_eq!(3, cursor.position());
}

#[test]
fn cursor_writes_at_its_position() {
    let mut cursor = ByteCursor::new(vec![1, 2]);
    assert_eq!(Ok(()), cursor.write_byte(5));
    assert_eq!(1, cursor.position());
    assert_eq!(&vec![5u8, 2], cursor.get_ref());
    assert_eq!(Ok(2), cursor.read_byte());
    assert_eq!(Ok(()), cursor.write_byte(3));
    assert_eq!(Ok(()), cursor.write_byte(4));
    assert_eq!(4, cursor.position());
    assert_eq!(Err(VarintError::EndOfInput), cursor.read_byte());
    assert_eq!(vec![5u8, 2, 3, 4], cursor.into_inner());
}

#[test]
fn a_position_behind_the_end_is_the_end() {
    let mut cursor = ByteCursor::new(vec![1, 2]);
    cursor.set_position(10);
    assert_eq!(2, cursor.position());
    assert_eq!(Err(VarintError::EndOfInput), cursor.read_byte());
    assert_eq!(Ok(()), cursor.write_byte(7));
    assert_eq!(3, cursor.position());
    assert_eq!(Err(VarintError::EndOfInput), cursor.read_byte());
    assert_eq!(vec![1u8, 2, 7], cursor.into_inner());
}

#[test]
fn a_varint_written_at_the_end_moves_the_position_behind_it() {
    let mut cursor = ByteCursor::new(vec![0xEE, 0xEF]);
    cursor.set_position(2);
    assert_eq!(Ok(()), cursor.write_unsigned_varint_32(3463465));
    assert_eq!(6, cursor.position());
    assert_eq!(&vec![0xEEu8, 0xEF, 0xA9, 0xB2, 0xD3, 0x01], cursor.get_ref());
}

#[test]
fn a_varint_written_at_the_front_goes_over_what_was_there() {
    let mut cursor = ByteCursor::new(vec![1, 2]);
    assert_eq!(Ok(()), cursor.write_unsigned_varint_32(5));
    assert_eq!(1, cursor.position());
    assert_eq!(&vec![5u8, 2], cursor.get_ref());
    cursor.set_position(0);
    assert_eq!(Ok(()), cursor.write_unsigned_varint_32(300));
    assert_eq!(Ok(()), cursor.write_unsigned_varint_32(1));
    assert_eq!(3, cursor.position());
    assert_eq!(&vec![0xACu8, 0x02, 0x01], cursor.get_ref());
}

#[test]
fn what_was_written_is_read_only_after_going_back() {
    let mut cursor = ByteCursor::new(Vec::new());
    assert_eq!(Ok(()), cursor.write_unsigned_varint_32(5));
    assert_eq!(Err(VarintError::EndOfInput), cursor.read_unsigned_varint_32());
    cursor.set_position(0);
    assert_eq!(Ok(5), cursor.read_unsigned_varint_32());
}

#[test]
fn empty_cursor_is_end_of_input() {
    let mut cursor = ByteCursor::new(Vec::new());
    assert_eq!(Err(VarintError::EndOfInput), cursor.read_unsigned_varint_32());
    assert_eq!(Err(VarintError::EndOfInput), cursor.read_signed_varint_32());
    assert_eq!(Err(VarintError::EndOfInput), cursor.read_unsigned_varint_64());
    assert_eq!(Err(VarintError::EndOfInput), cursor.read_signed_varint_64());
}

#[test]
fn cursor_that_stops_short_is_read_to_its_end() {
    let mut cursor = ByteCursor::new(vec![0x80, 0x80]);
    assert_eq!(Err(VarintError::EndOfInput), cursor.read_unsigned_varint_32());
    assert_eq!(2, cursor.position());
}

#[test]
fn overflow_takes_as_many_bytes_as_the_width_permits() {
    let mut cursor = ByteCursor::new(vec![0x80; 12]);
    assert_eq!(Err(VarintError::Overflow), cursor.read_unsigned_varint_32());
    assert_eq!(5, cursor.position());
    cursor.set_position(0);
    assert_eq!(Err(VarintError::Overflow), cursor.read_unsigned_varint_64());
    assert_eq!(10, cursor.position());
}

#[test]
fn cursor_holds_the_bytes_of_what_was_written() {
    let mut cursor = ByteCursor::new(Vec::new());
    assert!(cursor.write_unsigned_varint_32(3463465).is_ok());
    assert!(cursor.write_signed_varint_32(-4).is_ok());
    assert!(cursor.write_unsigned_varint_32(0).is_ok());
    assert_eq!(&vec![0xA9u8, 0xB2, 0xD3, 0x01, 0x07, 0x00], cursor.get_ref());
    assert_eq!(6, cursor.position());
    cursor.set_position(0);
    assert_eq!(Ok(3463465), cursor.read_unsigned_varint_32());
    assert_eq!(4, cursor.position());
    assert_eq!(Ok(-4), cursor.read_signed_varint_32());
    assert_eq!(Ok(0), cursor.read_unsigned_varint_32());
    assert_eq!(Err(VarintError::EndOfInput), cursor.read_unsigned_varint_32());
}

#[test]
fn cursor_round_trips_64_bit_values() {
    let mut cursor = ByteCursor::new(Vec::new());
    assert!(cursor.write_unsigned_varint_64(u64::MAX).is_ok());
    assert!(cursor.write_signed_varint_64(i64::MIN).is_ok());
    assert!(cursor.write_signed_varint_64(-234678386538365).is_ok());
    assert!(cursor.write_unsigned_varint_64(0).is_ok());
    cursor.set_position(0);
    assert_eq!(Ok(u64::MAX), cursor.read_unsigned_varint_64());
    assert_eq!(Ok(i64::MIN), cursor.read_signed_varint_64());
    assert_eq!(Ok(-234678386538365), cursor.read_signed_varint_64());
    assert_eq!(Ok(0), cursor.read_unsigned_varint_64());
}

#[test]
fn a_vector_is_a_sink() {
    let mut bytes: Vec<u8> = vec![0xEE];
    assert_eq!(Ok(()), bytes.write_unsigned_varint_32(300));
    assert_eq!(Ok(()), bytes.write_signed_varint_64(-1));
    assert_eq!(vec![0xEEu8, 0xAC, 0x02, 0x01], bytes);
}
