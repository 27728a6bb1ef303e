//! Tests of framing helpers, kick packets, and error types.

use basalt::codec::VarInt;
use basalt::reader::ByteReader;
use basalt::session::V754;
use basalt::types::{BasaltError, DecodeError, ProtocolState};
use basalt::util::prepend_length;

#[test]
fn prepend_length_frames_a_body() {
    assert_eq!(prepend_length(vec![0xAA, 0xBB]), vec![0x02, 0xAA, 0xBB]);
    assert_eq!(prepend_length(vec![]), vec![0x00]);
    // A body longer than 127 bytes takes a two-byte length prefix.
    let body = vec![0x55; 300];
    let framed = prepend_length(body.clone());
    assert_eq!(&framed[..2], &[0xAC, 0x02]);
    assert_eq!(&framed[2..], &body[..]);
}

fn parse_kick(frame: Vec<u8>) -> (i32, String) {
    let mut r = ByteReader::new(frame);
    let total = VarInt::read(&mut r).unwrap().raw as usize;
    assert_eq!(r.len(), total, "length prefix covers the rest");
    let id = VarInt::read(&mut r).unwrap().raw;
    let reason = basalt::codec::read_string(&mut r).unwrap();
    assert_eq!(r.len(), 0);
    (id, reason)
}

#[test]
fn disconnect_wraps_the_reason_per_state() {
    let f = V754::disconnect(ProtocolState::Login, &"Bye now".to_string());
    assert_eq!(parse_kick(f), (0x00, "{\"text\":\"Bye now\"}".to_string()));
    let f = V754::disconnect(ProtocolState::Play, &"Gone".to_string());
    assert_eq!(parse_kick(f), (0x19, "{\"text\":\"Gone\"}".to_string()));
}

#[test]
fn basalt_error_keeps_its_reason() {
    let e = BasaltError::new("VarInt is too big!".to_string());
    assert_eq!(e.reason(), "VarInt is too big!");
}

#[test]
fn decode_errors_describe_themselves() {
    assert_eq!(
        DecodeError::TooLarge.into_basalt().reason(),
        "VarInt is too big!"
    );
    assert_eq!(
        DecodeError::UnexpectedPacket.into_basalt().reason(),
        "Invalid packet ID"
    );
}
