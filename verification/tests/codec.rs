//! Byte-exact tests of the variable-length and fixed-width codec.

use basalt::codec::{
    read_bool, read_i16, read_i64, read_i8, read_u128, read_u16, read_u8, write_bool, write_i16,
    write_i64, write_i8, write_u128, write_u16, write_u8, VarInt, VarLong,
};
use basalt::reader::ByteReader;
use basalt::types::DecodeError;

fn read_varint(bytes: Vec<u8>) -> Result<i32, DecodeError> {
    let mut r = ByteReader::new(bytes);
    VarInt::read(&mut r).map(|v| v.raw)
}

fn encode_varint(v: i32) -> Vec<u8> {
    let mut out = Vec::new();
    VarInt { raw: v }.write(&mut out);
    out
}

fn read_varlong(bytes: Vec<u8>) -> Result<i64, DecodeError> {
    let mut r = ByteReader::new(bytes);
    VarLong::read(&mut r).map(|v| v.raw)
}

fn encode_varlong(v: i64) -> Vec<u8> {
    let mut out = Vec::new();
    VarLong { raw: v }.write(&mut out);
    out
}

#[test]
fn varint_decode_fixed_vectors() {
    assert_eq!(read_varint(vec![0x00]), Ok(0));
    assert_eq!(read_varint(vec![0x01]), Ok(1));
    assert_eq!(read_varint(vec![0xAC, 0x02]), Ok(300));
    assert_eq!(read_varint(vec![0xFF, 0xFF, 0xFF, 0xFF, 0x0F]), Ok(-1));
    assert_eq!(read_varint(vec![0x80, 0x80, 0x80, 0x80, 0x08]), Ok(i32::MIN));
    assert_eq!(
        read_varint(vec![0xFF, 0xFF, 0xFF, 0xFF, 0x07]),
        Ok(i32::MAX)
    );
}

#[test]
fn varint_encode_fixed_vectors() {
    assert_eq!(encode_varint(0), vec![0x00]);
    assert_eq!(encode_varint(300), vec![0xAC, 0x02]);
    assert_eq!(encode_varint(-1), vec![0xFF, 0xFF, 0xFF, 0xFF, 0x0F]);
    assert_eq!(encode_varint(i32::MIN), vec![0x80, 0x80, 0x80, 0x80, 0x08]);
}

#[test]
fn varint_round_trip_samples() {
    for v in [
        0,
        1,
        -1,
        127,
        128,
        255,
        300,
        25565,
        754,
        -754,
        i32::MAX,
        i32::MIN,
        i32::MIN + 1,
    ] {
        let enc = encode_varint(v);
        assert!(enc.len() <= 5, "encoding of {v} too long");
        assert_eq!(read_varint(enc), Ok(v), "round trip of {v}");
    }
}

#[test]
fn varint_from_raw_value() {
    assert_eq!(VarInt::from(300).raw, 300);
    assert_eq!(VarLong::from(-7i64).raw, -7);
}

#[test]
fn varint_size_matches_encoding() {
    for v in [0, 1, -1, 127, 128, 300, i32::MAX, i32::MIN] {
        assert_eq!(VarInt { raw: v }.size(), encode_varint(v).len());
    }
}

#[test]
fn varint_too_large_on_six_continuation_bytes() {
    let res = read_varint(vec![0x80, 0x80, 0x80, 0x80, 0x80, 0x80]);
    assert_eq!(res, Err(DecodeError::TooLarge));
}

#[test]
fn varint_too_large_reads_no_further_bytes() {
    // Five continuation bytes are enough to decide; the sixth byte must
    // still be in the stream afterwards.
    let mut r = ByteReader::new(vec![0x80, 0x80, 0x80, 0x80, 0x80, 0x42]);
    assert!(VarInt::read(&mut r).is_err());
    assert_eq!(r.len(), 1);
    assert_eq!(r.peek(), Some(0x42));
}

#[test]
fn varint_truncated_input() {
    assert_eq!(read_varint(vec![0x80]), Err(DecodeError::Eof));
    assert_eq!(read_varint(vec![]), Err(DecodeError::Eof));
}

#[test]
fn varlong_round_trip_samples() {
    for v in [
        0i64,
        1,
        -1,
        127,
        128,
        123456789,
        -123456789,
        i64::MAX,
        i64::MIN,
    ] {
        let enc = encode_varlong(v);
        assert!(enc.len() <= 10, "encoding of {v} too long");
        assert_eq!(read_varlong(enc), Ok(v), "round trip of {v}");
    }
}

#[test]
fn varlong_fixed_vectors() {
    assert_eq!(
        encode_varlong(-1),
        vec![0xFF, 0xFF, 0xFF, 0xFF, 0xFF, 0xFF, 0xFF, 0xFF, 0xFF, 0x01]
    );
    assert_eq!(VarLong { raw: -1 }.size(), 10);
}

#[test]
fn varlong_too_large_on_eleven_continuation_bytes() {
    let res = read_varlong(vec![0x80; 11]);
    assert_eq!(res, Err(DecodeError::TooLarge));
}

#[test]
fn fixed_width_round_trips() {
    let mut out = Vec::new();
    write_u8(0xAB, &mut out);
    write_bool(true, &mut out);
    write_bool(false, &mut out);
    write_i8(-5, &mut out);
    write_u16(0xBEEF, &mut out);
    write_i16(-2, &mut out);
    write_i64(-123456789, &mut out);
    write_u128(0x00112233445566778899AABBCCDDEEFF, &mut out);
    let mut r = ByteReader::new(out);
    assert_eq!(read_u8(&mut r), Ok(0xAB));
    assert_eq!(read_bool(&mut r), Ok(true));
    assert_eq!(read_bool(&mut r), Ok(false));
    assert_eq!(read_i8(&mut r), Ok(-5));
    assert_eq!(read_u16(&mut r), Ok(0xBEEF));
    assert_eq!(read_i16(&mut r), Ok(-2));
    assert_eq!(read_i64(&mut r), Ok(-123456789));
    assert_eq!(read_u128(&mut r), Ok(0x00112233445566778899AABBCCDDEEFF));
    assert_eq!(r.len(), 0);
}

#[test]
fn fixed_width_is_big_endian() {
    let mut out = Vec::new();
    write_u16(0x0102, &mut out);
    assert_eq!(out, vec![0x01, 0x02]);
    let mut out = Vec::new();
    write_i64(1, &mut out);
    assert_eq!(out, vec![0, 0, 0, 0, 0, 0, 0, 1]);
    let mut out = Vec::new();
    write_i64(-1, &mut out);
    assert_eq!(out, vec![0xFF; 8]);
}

#[test]
fn reader_peek_does_not_consume() {
    let mut r = ByteReader::new(vec![0xFE, 0x01]);
    assert_eq!(r.peek(), Some(0xFE));
    assert_eq!(r.peek(), Some(0xFE));
    assert_eq!(r.len(), 2);
    assert_eq!(r.next(), Some(0xFE));
    assert_eq!(r.next(), Some(0x01));
    assert_eq!(r.next(), None);
}
