use varint::ZigZag;

#[test]
fn test_u8_i8_zigzag() {
    let mut unsigned: u8 = 0u8;

    assert_eq!(0i8, unsigned.zigzag());

    unsigned = 1;

    assert_eq!(-1i8, unsigned.zigzag());

    unsigned = 2;

    assert_eq!(1i8, unsigned.zigzag());

    let mut signed: i8 = 0i8;

    assert_eq!(0u8, signed.zigzag());

    signed = -1i8;

    assert_eq!(1u8, signed.zigzag());

    signed = 1i8;

    assert_eq!(2u8, signed.zigzag());
}

#[test]
fn test_u16_i16_zigzag() {
    let mut unsigned: u16 = 0u16;

    assert_eq!(0i16, unsigned.zigzag());

    unsigned = 1;

    assert_eq!(-1i16, unsigned.zigzag());

    unsigned = 2;

    assert_eq!(1i16, unsigned.zigzag());

    let mut signed: i16 = 0i16;

    assert_eq!(0u16, signed.zigzag());

    signed = -1i16;

    assert_eq!(1u16, signed.zigzag());

    signed = 1i16;

    assert_eq!(2u16, signed.zigzag());
}

#[test]
fn test_u32_i32_zigzag() {
    let mut unsigned: u32 = 0u32;

    assert_eq!(0i32, unsigned.zigzag());

    unsigned = 1;

    assert_eq!(-1i32, unsigned.zigzag());

    unsigned = 2;

    assert_eq!(1i32, unsigned.zigzag());

    let mut signed: i32 = 0i32;

    assert_eq!(0u32, signed.zigzag());

    signed = -1i32;

    assert_eq!(1u32, signed.zigzag());

    signed = 1i32;

    assert_eq!(2u32, signed.zigzag());
}

#[test]
fn test_u64_i64_zigzag() {
    let mut unsigned: u64 = 0u64;

    assert_eq!(0i64, unsigned.zigzag());

    unsigned = 1;

    assert_eq!(-1i64, unsigned.zigzag());

    unsigned = 2;

    assert_eq!(1i64, unsigned.zigzag());

    let mut signed: i64 = 0i64;

    assert_eq!(0u64, signed.zigzag());

    signed = -1i64;

    assert_eq!(1u64, signed.zigzag());

    signed = 1i64;

    assert_eq!(2u64, signed.zigzag());
}

#[test]
fn zigzag_folds_small_magnitudes_to_small_numbers() {
    assert_eq!(0u32, 0i32.zigzag());
    assert_eq!(1u32, (-1i32).zigzag());
    assert_eq!(2u32, 1i32.zigzag());
    assert_eq!(3u32, (-2i32).zigzag());
    assert_eq!(4u32, 2i32.zigzag());
    assert_eq!(7u32, (-4i32).zigzag());
    assert_eq!(-4i32, 7u32.zigzag());
}

#[test]
fn zigzag_reaches_the_ends_of_each_width() {
    assert_eq!(u8::MAX, i8::MIN.zigzag());
    assert_eq!(u8::MAX - 1, i8::MAX.zigzag());
    assert_eq!(i8::MIN, u8::MAX.zigzag());
    assert_eq!(i8::MAX, (u8::MAX - 1).zigzag());

    assert_eq!(u16::MAX, i16::MIN.zigzag());
    assert_eq!(u16::MAX - 1, i16::MAX.zigzag());
    assert_eq!(i16::MIN, u16::MAX.zigzag());
    assert_eq!(i16::MAX, (u16::MAX - 1).zigzag());

    assert_eq!(u32::MAX, i32::MIN.zigzag());
    assert_eq!(u32::MAX - 1, i32::MAX.zigzag());
    assert_eq!(i32::MIN, u32::MAX.zigzag());
    assert_eq!(i32::MAX, (u32::MAX - 1).zigzag());

    assert_eq!(u64::MAX, i64::MIN.zigzag());
    assert_eq!(u64::MAX - 1, i64::MAX.zigzag());
    assert_eq!(i64::MIN, u64::MAX.zigzag());
    assert_eq!(i64::MAX, (u64::MAX - 1).zigzag());
}

#[test]
fn zigzag_is_a_bijection_on_every_byte() {
    let mut unsigned: u8 = 0;
    loop {
        let signed: i8 = unsigned.zigzag();
        let back: u8 = signed.zigzag();
        assert_eq!(unsigned, back);
        if unsigned == u8::MAX {
            break;
        }
        unsigned += 1;
    }
    let mut signed: i8 = i8::MIN;
    loop {
        let unsigned: u8 = signed.zigzag();
        let back: i8 = unsigned.zigzag();
        assert_eq!(signed, back);
        if signed == i8::MAX {
            break;
        }
        signed += 1;
    }
}

#[test]
fn zigzag_comes_back_at_the_wider_widths() {
    for value in [0i16, 1, -1, 2, -2, 300, -300, i16::MAX, i16::MIN] {
        let folded: u16 = value.zigzag();
        let back: i16 = folded.zigzag();
        assert_eq!(value, back);
    }
    for value in [0i32, 1, -1, 2111111111, -2111111111, i32::MAX, i32::MIN] {
        let folded: u32 = value.zigzag();
        let back: i32 = folded.zigzag();
        assert_eq!(value, back);
    }
    for value in [0i64, 1, -1, 234678386538365, -234678386538365, i64::MAX, i64::MIN] {
        let folded: u64 = value.zigzag();
        let back: i64 = folded.zigzag();
        assert_eq!(value, back);
    }
    for value in [0u64, 1, 2, 254724572473468, u64::MAX - 1, u64::MAX] {
        let unfolded: i64 = value.zigzag();
        let back: u64 = unfolded.zigzag();
        assert_eq!(value, back);
    }
}
