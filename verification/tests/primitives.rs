//! The primitive codec: Variable Byte Integers, strict booleans, and the
//! fixed-width integers.

use mqtt5::codec::{
    read_bool, read_u16, read_u32, read_vbi, vbi_size, write_u16, write_u32, write_vbi,
    CodecError, VariableByteInteger,
};

#[test]
fn vbi_encoded_sizes() {
    assert_eq!(vbi_size(0), 1);
    assert_eq!(vbi_size(127), 1);
    assert_eq!(vbi_size(128), 2);
    assert_eq!(vbi_size(16383), 2);
    assert_eq!(vbi_size(16384), 3);
    assert_eq!(vbi_size(2097151), 3);
    assert_eq!(vbi_size(2097152), 4);
    assert_eq!(vbi_size(268435455), 4);
}

#[test]
fn vbi_out_of_range_fails_construction() {
    assert!(VariableByteInteger::new(268435456).is_err());
    let v = VariableByteInteger::new(268435455).unwrap();
    assert_eq!(v.get(), 268435455);
    assert_eq!(VariableByteInteger::new(0).unwrap().get(), 0);
}

#[test]
fn vbi_five_byte_continuation_is_malformed() {
    let bytes = [0x80u8, 0x80, 0x80, 0x80, 0x01];
    assert_eq!(read_vbi(&bytes, 0), Err(CodecError::MalformedBytes));
}

#[test]
fn vbi_leading_zero_byte_is_rejected() {
    assert_eq!(read_vbi(&[0x80u8, 0x00], 0), Err(CodecError::MalformedBytes));
    assert_eq!(read_vbi(&[0xFFu8, 0x80, 0x00], 0), Err(CodecError::MalformedBytes));
}

#[test]
fn vbi_truncated_is_insufficient() {
    assert_eq!(read_vbi(&[0x80u8], 0), Err(CodecError::InsufficientBytes));
    assert_eq!(read_vbi(&[], 0), Err(CodecError::InsufficientBytes));
}

#[test]
fn vbi_round_trips_boundary_values() {
    let values = [0u32, 127, 128, 16383, 16384, 2097151, 2097152, 268435455];
    for &v in values.iter() {
        let mut buf = vec![0u8; 8];
        let n = write_vbi(&mut buf, 0, v);
        assert_eq!(n, vbi_size(v));
        let (back, next) = read_vbi(&buf, 0).unwrap();
        assert_eq!(back, v);
        assert_eq!(next, n);
    }
}

#[test]
fn vbi_known_encodings() {
    let mut buf = vec![0u8; 4];
    write_vbi(&mut buf, 0, 0);
    assert_eq!(buf[0], 0x00);
    write_vbi(&mut buf, 0, 128);
    assert_eq!(&buf[0..2], &[0x80, 0x01]);
    write_vbi(&mut buf, 0, 16384);
    assert_eq!(&buf[0..3], &[0x80, 0x80, 0x01]);
}

#[test]
fn bool_decodes_strictly() {
    assert_eq!(read_bool(&[0x00u8], 0), Ok((false, 1)));
    assert_eq!(read_bool(&[0x01u8], 0), Ok((true, 1)));
    assert_eq!(read_bool(&[0x02u8], 0), Err(CodecError::MalformedBytes));
    assert_eq!(read_bool(&[0xFFu8], 0), Err(CodecError::MalformedBytes));
    assert_eq!(read_bool(&[], 0), Err(CodecError::InsufficientBytes));
}

#[test]
fn fixed_width_integers_round_trip() {
    let mut buf = vec![0u8; 8];
    write_u16(&mut buf, 0, 0xABCD);
    assert_eq!(&buf[0..2], &[0xAB, 0xCD]);
    assert_eq!(read_u16(&buf, 0), Ok((0xABCD, 2)));
    write_u32(&mut buf, 2, 0x01020304);
    assert_eq!(&buf[2..6], &[0x01, 0x02, 0x03, 0x04]);
    assert_eq!(read_u32(&buf, 2), Ok((0x01020304, 6)));
    assert_eq!(read_u32(&buf, 5), Err(CodecError::InsufficientBytes));
}
