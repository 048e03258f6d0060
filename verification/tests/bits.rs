use actfast::bits::BitCursor;

#[test]
fn single_bits_msb_first() {
    let data = [0b1000_1111u8];
    let mut c = BitCursor::new(&data);
    assert_eq!(c.read_unsigned(1), Some(1));
    assert_eq!(c.read_unsigned(3), Some(0));
    assert_eq!(c.read_unsigned(4), Some(0b1111));
    assert_eq!(c.read_unsigned(1), None);
}

#[test]
fn unsigned_across_byte_boundary() {
    // 0xAB 0xCD = 1010 1011 1100 1101
    let data = [0xABu8, 0xCD];
    let mut c = BitCursor::new(&data);
    assert_eq!(c.read_unsigned(12), Some(0xABC));
    assert_eq!(c.read_unsigned(4), Some(0xD));
}

#[test]
fn signed_twelve_bit_values() {
    // 0x800 = -2048, 0x7FF = 2047, 0xFFF = -1
    let data = [0x80u8, 0x07, 0xFF, 0xFF, 0xF0];
    let mut c = BitCursor::new(&data);
    assert_eq!(c.read_signed(12), Some(-2048));
    assert_eq!(c.read_signed(12), Some(2047));
    assert_eq!(c.read_signed(12), Some(-1));
}

#[test]
fn read_bool_and_skip() {
    let data = [0b1010_0000u8];
    let mut c = BitCursor::new(&data);
    assert_eq!(c.read_bool(), Some(true));
    assert_eq!(c.read_bool(), Some(false));
    assert_eq!(c.skip(1), Some(()));
    assert_eq!(c.read_bool(), Some(false));
    assert_eq!(c.remaining(), 4);
    assert_eq!(c.skip(5), None);
    assert_eq!(c.skip(4), Some(()));
    assert_eq!(c.read_bool(), None);
}

#[test]
fn exhaustion_leaves_cursor_in_place() {
    let data = [0xFFu8];
    let mut c = BitCursor::new(&data);
    assert_eq!(c.read_unsigned(6), Some(0b111111));
    // only 2 bits remain: a 12-bit read fails and consumes nothing
    assert_eq!(c.read_signed(12), None);
    assert_eq!(c.read_unsigned(2), Some(0b11));
}

#[test]
fn matches_bitreader_crate_on_mixed_reads() {
    let data = [0x12u8, 0x34, 0x56, 0x78, 0x9A, 0xBC, 0xDE, 0xF0, 0x0F, 0xE7];
    let mut ours = BitCursor::new(&data);
    let mut theirs = bitreader::BitReader::new(&data);
    for _ in 0..4 {
        assert_eq!(ours.read_signed(12).unwrap(), theirs.read_i16(12).unwrap());
        assert_eq!(ours.read_unsigned(7).unwrap(), theirs.read_u16(7).unwrap());
        assert_eq!(ours.read_bool().unwrap(), theirs.read_bool().unwrap());
    }
    // both report exhaustion at the same point
    assert!(ours.read_unsigned(16).is_none());
    assert!(theirs.read_u16(16).is_err());
}

#[test]
fn matches_bitreader_crate_until_exhausted() {
    let data = [0xC3u8, 0x5A, 0x99, 0x01, 0xFE];
    let mut ours = BitCursor::new(&data);
    let mut theirs = bitreader::BitReader::new(&data);
    loop {
        let a = ours.read_signed(12);
        let b = theirs.read_i16(12);
        match (a, b) {
            (Some(x), Ok(y)) => assert_eq!(x, y),
            (None, Err(_)) => break,
            other => panic!("cursors disagree: {:?}", other),
        }
    }
}
