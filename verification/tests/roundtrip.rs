use actfast::bits::BitCursor;
use actfast::encode::{encode_fields, encode_signed_fields};

#[test]
fn signed_triplet_stream_round_trips() {
    let vals: Vec<i16> = vec![100, -50, 256, -2048, 2047, 0, -1, 1, -1234, 1234, 999, -999];
    let bytes = encode_signed_fields(&vals, 12);
    assert_eq!(bytes.len(), (12 * vals.len() + 7) / 8);
    let mut c = BitCursor::new(bytes.as_slice());
    for &v in vals.iter() {
        assert_eq!(c.read_signed(12), Some(v));
    }
}

#[test]
fn signed_boundary_values_round_trip() {
    // the two's-complement boundary of a 12-bit field
    let vals: Vec<i16> = vec![2047, -2048, -2047, 2046];
    let bytes = encode_signed_fields(&vals, 12);
    let mut c = BitCursor::new(bytes.as_slice());
    for &v in vals.iter() {
        assert_eq!(c.read_signed(12), Some(v));
    }
}

#[test]
fn unsigned_fields_round_trip() {
    let vals: Vec<u16> = vec![0, 1, 0x3FF, 0x200, 77];
    let bytes = encode_fields(&vals, 10);
    let mut c = BitCursor::new(bytes.as_slice());
    for &v in vals.iter() {
        assert_eq!(c.read_unsigned(10), Some(v));
    }
}

#[test]
fn sixteen_bit_fields_round_trip() {
    let vals: Vec<i16> = vec![i16::MIN, i16::MAX, 0, -1, 12345, -12345];
    let bytes = encode_signed_fields(&vals, 16);
    let mut c = BitCursor::new(bytes.as_slice());
    for &v in vals.iter() {
        assert_eq!(c.read_signed(16), Some(v));
    }
}

#[test]
fn odd_field_count_pads_final_byte() {
    // three 12-bit fields = 36 bits = 4.5 bytes, padded to 5
    let vals: Vec<u16> = vec![0xFFF, 0xFFF, 0xFFF];
    let bytes = encode_fields(&vals, 12);
    assert_eq!(bytes.len(), 5);
    // the 4 pad bits are zero
    assert_eq!(bytes[4] & 0x0F, 0);
    let mut c = BitCursor::new(bytes.as_slice());
    for &v in vals.iter() {
        assert_eq!(c.read_unsigned(12), Some(v));
    }
    // fewer than 12 bits remain: the stream is exhausted for fields
    assert_eq!(c.read_unsigned(12), None);
}

#[test]
fn encoded_stream_matches_bitreader_crate() {
    let vals: Vec<i16> = vec![-2048, 2047, -1, 0, 321, -321];
    let bytes = encode_signed_fields(&vals, 12);
    let mut r = bitreader::BitReader::new(bytes.as_slice());
    for &v in vals.iter() {
        assert_eq!(r.read_i16(12).unwrap(), v);
    }
}
