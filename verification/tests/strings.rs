//! Tests of the length-prefixed and legacy fixed-width string codecs.

use basalt::classic::{legacy_string_read, legacy_string_write, read_chunk, write_chunk};
use basalt::codec::{read_string, write_string, string_size, VarInt};
use basalt::reader::ByteReader;
use basalt::types::DecodeError;

fn encode_string(s: &str) -> Vec<u8> {
    let mut out = Vec::new();
    assert!(write_string(&s.to_string(), &mut out));
    out
}

fn decode_string(bytes: Vec<u8>) -> Result<String, DecodeError> {
    let mut r = ByteReader::new(bytes);
    read_string(&mut r)
}

#[test]
fn string_round_trip() {
    for s in ["", "x", "hello", "héllo wörld", "日本語", "a🎮b", "Steve"] {
        assert_eq!(decode_string(encode_string(s)).as_deref(), Ok(s));
    }
}

#[test]
fn string_encoding_layout() {
    // One-byte length prefix, then the UTF-8 bytes.
    assert_eq!(encode_string("ab"), vec![0x02, b'a', b'b']);
    assert_eq!(encode_string(""), vec![0x00]);
    // Two UTF-8 bytes for one accented character.
    assert_eq!(encode_string("é"), vec![0x02, 0xC3, 0xA9]);
}

#[test]
fn string_size_matches_encoding() {
    for s in ["", "x", "héllo", "a longer message of some size"] {
        assert_eq!(string_size(&s.to_string()), encode_string(s).len());
    }
}

#[test]
fn string_decode_rejects_invalid_utf8() {
    // Declared length 2, followed by an invalid UTF-8 pair.
    let res = decode_string(vec![0x02, 0xC3, 0x28]);
    assert_eq!(res, Err(DecodeError::InvalidText));
}

#[test]
fn string_decode_rejects_negative_length() {
    let mut bytes = Vec::new();
    VarInt { raw: -1 }.write(&mut bytes);
    assert_eq!(decode_string(bytes), Err(DecodeError::InvalidLength));
}

#[test]
fn string_decode_truncated() {
    // Declared length 5 with only 2 bytes behind it.
    assert_eq!(
        decode_string(vec![0x05, b'h', b'i']),
        Err(DecodeError::Eof)
    );
}

fn legacy_encode(s: &str) -> Option<Vec<u8>> {
    let mut out = Vec::new();
    if legacy_string_write(&s.to_string(), &mut out) {
        Some(out)
    } else {
        None
    }
}

#[test]
fn legacy_string_round_trip() {
    for s in [
        "",
        "Steve",
        "A Minecraft Server",
        "𝄞 clef",                           // surrogate pair: two UTF-16 units
        "abcdefghijklmnopqrstuvwxyz012345", // exactly 32 units
    ] {
        let enc = legacy_encode(s).expect("fits in 32 units");
        assert_eq!(enc.len(), 64, "field is position-fixed at 64 bytes");
        let mut r = ByteReader::new(enc);
        assert_eq!(legacy_string_read(&mut r).as_deref(), Ok(s));
        assert_eq!(r.len(), 0);
    }
}

#[test]
fn legacy_string_rejects_oversize() {
    // 33 UTF-16 units must be rejected, not truncated.
    let long = "abcdefghijklmnopqrstuvwxyz0123456";
    assert_eq!(long.encode_utf16().count(), 33);
    let mut out = vec![0xAA];
    assert!(!legacy_string_write(&long.to_string(), &mut out));
    assert_eq!(out, vec![0xAA], "a rejected encode appends nothing");
}

#[test]
fn legacy_string_zero_pads() {
    let enc = legacy_encode("A").unwrap();
    assert_eq!(enc[0], 0x00);
    assert_eq!(enc[1], 0x41);
    assert!(enc[2..].iter().all(|&b| b == 0));
}

#[test]
fn legacy_string_is_utf16_big_endian() {
    let enc = legacy_encode("é").unwrap();
    // U+00E9 as one big-endian UTF-16 unit.
    assert_eq!(&enc[0..2], &[0x00, 0xE9]);
}

#[test]
fn legacy_string_read_truncated() {
    let mut r = ByteReader::new(vec![0x00; 10]);
    assert_eq!(legacy_string_read(&mut r), Err(DecodeError::Eof));
}

#[test]
fn chunk_round_trip() {
    let data: Vec<u8> = (0..1024).map(|i| (i % 256) as u8).collect();
    let mut out = Vec::new();
    write_chunk(&data, &mut out);
    assert_eq!(out.len(), 1024);
    let mut r = ByteReader::new(out);
    assert_eq!(read_chunk(&mut r), Ok(data));
    assert_eq!(r.len(), 0);
}

#[test]
fn chunk_read_truncated() {
    let mut r = ByteReader::new(vec![0u8; 1000]);
    assert_eq!(read_chunk(&mut r), Err(DecodeError::Eof));
}
