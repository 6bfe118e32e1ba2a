use varint::{ByteCursor, VarintRead, VarintWrite};

#[test]
fn rawio_test_read_write_unsigned_varint_32() {
    let mut vector = ByteCursor::new(vec![0u8; 0]);

    assert!(vector.write_unsigned_varint_32(15).is_ok());
    assert!(vector.write_unsigned_varint_32(0).is_ok());
    assert!(vector.write_unsigned_varint_32(2111111111).is_ok());
    assert!(vector.write_unsigned_varint_32(3463465).is_ok());

    vector.set_position(0);

    assert_eq!(15, vector.read_unsigned_varint_32().unwrap());
    assert_eq!(0, vector.read_unsigned_varint_32().unwrap());
    assert_eq!(2111111111, vector.read_unsigned_varint_32().unwrap());
    assert_eq!(3463465, vector.read_unsigned_varint_32().unwrap());
}

#[test]
fn rawio_test_read_write_signed_varint_32() {
    let mut vector = ByteCursor::new(vec![0u8; 0]);

    assert!(vector.write_signed_varint_32(-4).is_ok());
    assert!(vector.write_signed_varint_32(0).is_ok());
    assert!(vector.write_signed_varint_32(2111111111).is_ok());
    assert!(vector.write_signed_varint_32(-2111111111).is_ok());
    assert!(vector.write_signed_varint_32(-3463465).is_ok());

    vector.set_position(0);

    assert_eq!(-4, vector.read_signed_varint_32().unwrap());
    assert_eq!(-0, vector.read_signed_varint_32().unwrap());
    assert_eq!(2111111111, vector.read_signed_varint_32().unwrap());
    assert_eq!(-2111111111, vector.read_signed_varint_32().unwrap());
    assert_eq!(-3463465, vector.read_signed_varint_32().unwrap());
}

#[test]
fn rawio_test_read_write_lots_of_unsigned_varint_32() {
    let mut vector = ByteCursor::new(vec![0u8; 0]);

    let mut index = 0;

    while index < 123456 {
        index += 1;

        assert!(vector.write_unsigned_varint_32(index).is_ok());
    }

    vector.set_position(0);
    index = 0;

    while index < 123456 {
        index += 1;

        assert_eq!(index, vector.read_unsigned_varint_32().unwrap());
    }
}
