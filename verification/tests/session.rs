//! End-to-end exercises of the handshake/status/login state machine.

use basalt::codec::{write_i64, write_string, write_u16, VarInt};
use basalt::config::{Authentication, AuthenticationMethod, Config, Minecraft, Network, Whitelist};
use basalt::reader::ByteReader;
use basalt::session::{
    classify, frame_needed, handle_connection, handler, session_step, supported, FrameStatus,
    Generation, HandlerKind, Session, SessionState,
};
use basalt::types::DecodeError;
use basalt::util::prepend_length;

fn method(enabled: bool) -> AuthenticationMethod {
    AuthenticationMethod {
        enabled,
        url: String::new(),
    }
}

fn make_config(max_players: i32, motd: &str, wl_enabled: bool, wl: Vec<&str>) -> Config {
    Config {
        authentication: Authentication {
            legacy: method(false),
            microsoft: method(false),
            required: false,
            yggdrasil: method(false),
        },
        minecraft: Minecraft {
            max_players,
            motd: motd.to_string(),
        },
        network: Network {
            bind: "0.0.0.0".to_string(),
            port: 25565,
        },
        whitelist: Whitelist {
            enabled: wl_enabled,
            list: wl.into_iter().map(|s| s.to_string()).collect(),
        },
    }
}

fn frame(id: i32, payload: Vec<u8>) -> Vec<u8> {
    let mut body = Vec::new();
    VarInt { raw: id }.write(&mut body);
    body.extend(payload);
    prepend_length(body)
}

fn handshake_frame(version: i32, addr: &str, port: u16, next: i32) -> Vec<u8> {
    let mut payload = Vec::new();
    VarInt { raw: version }.write(&mut payload);
    assert!(write_string(&addr.to_string(), &mut payload));
    write_u16(port, &mut payload);
    VarInt { raw: next }.write(&mut payload);
    frame(0, payload)
}

/// Splits a reply byte stream into (packet id, payload) frames.
fn parse_frames(reply: Vec<u8>) -> Vec<(i32, Vec<u8>)> {
    let mut r = ByteReader::new(reply);
    let mut frames = Vec::new();
    while r.len() > 0 {
        let total = VarInt::read(&mut r).expect("frame length").raw as usize;
        let before = r.len();
        let id = VarInt::read(&mut r).expect("packet id").raw;
        let consumed = before - r.len();
        let payload = r.take(total - consumed).expect("frame payload");
        frames.push((id, payload));
    }
    frames
}

/// Reads one length-prefixed string out of a packet payload.
fn parse_string(payload: Vec<u8>) -> String {
    let mut r = ByteReader::new(payload);
    let s = basalt::codec::read_string(&mut r).expect("string field");
    assert_eq!(r.len(), 0, "nothing after the string");
    s
}

#[test]
fn classification_of_first_byte() {
    assert_eq!(classify(0xFE), Generation::Classic);
    assert_eq!(classify(0x00), Generation::Classic);
    assert_eq!(classify(0x10), Generation::Modern);
    assert_eq!(classify(0xFF), Generation::Modern);
}

#[test]
fn version_registry() {
    assert!(supported(754));
    assert!(!supported(9999));
    assert_eq!(handler(754), HandlerKind::V754);
    assert_eq!(handler(755), HandlerKind::Fallback);
}

#[test]
fn scenario_status_exchange() {
    let config = make_config(20, "A Minecraft Server", false, vec![]);
    let mut input = handshake_frame(754, "x", 25565, 1);
    input.extend(frame(0, vec![]));
    let mut r = ByteReader::new(input);
    let res = handle_connection(&mut r, &config);
    // The input ends after the status request, so the exchange reports
    // the end of the stream after producing the response.
    assert_eq!(res.err, Some(DecodeError::Eof));
    let frames = parse_frames(res.reply);
    assert_eq!(frames.len(), 1);
    assert_eq!(frames[0].0, 0);
    let json = parse_string(frames[0].1.clone());
    let v: serde_json::Value = serde_json::from_str(&json).expect("valid JSON");
    assert_eq!(v["version"]["protocol"], 754);
    assert_eq!(v["version"]["name"], "Basalt");
    assert_eq!(v["players"]["max"], 20);
    assert_eq!(v["players"]["online"], 0);
    assert_eq!(v["description"]["text"], "A Minecraft Server");
}

#[test]
fn scenario_ping_echo() {
    let config = make_config(20, "motd", false, vec![]);
    let mut ping_payload = Vec::new();
    write_i64(123456789, &mut ping_payload);
    let mut input = handshake_frame(754, "x", 25565, 1);
    input.extend(frame(1, ping_payload.clone()));
    let mut r = ByteReader::new(input);
    let res = handle_connection(&mut r, &config);
    // A served ping ends the exchange cleanly.
    assert_eq!(res.err, None);
    let frames = parse_frames(res.reply);
    assert_eq!(frames.len(), 1);
    assert_eq!(frames[0].0, 1);
    assert_eq!(frames[0].1, ping_payload);
}

#[test]
fn scenario_login_not_whitelisted() {
    let config = make_config(20, "motd", true, vec!["Alex"]);
    let mut login_payload = Vec::new();
    assert!(write_string(&"Steve".to_string(), &mut login_payload));
    let mut input = handshake_frame(754, "x", 25565, 2);
    input.extend(frame(0, login_payload));
    let mut r = ByteReader::new(input);
    let res = handle_connection(&mut r, &config);
    assert_eq!(res.err, None);
    let frames = parse_frames(res.reply);
    assert_eq!(frames.len(), 1);
    assert_eq!(frames[0].0, 0, "disconnect packet");
    let json = parse_string(frames[0].1.clone());
    assert!(json.contains("not whitelisted"));
    assert_eq!(
        json,
        "{\"text\":\"You are not whitelisted on this server!\"}"
    );
}

#[test]
fn scenario_login_whitelisted_gets_placeholder() {
    let config = make_config(20, "motd", true, vec!["Alex", "Steve"]);
    let mut login_payload = Vec::new();
    assert!(write_string(&"Steve".to_string(), &mut login_payload));
    let mut input = handshake_frame(754, "x", 25565, 2);
    input.extend(frame(0, login_payload));
    let mut r = ByteReader::new(input);
    let res = handle_connection(&mut r, &config);
    assert_eq!(res.err, None);
    let frames = parse_frames(res.reply);
    assert_eq!(frames.len(), 1);
    let json = parse_string(frames[0].1.clone());
    assert!(json.contains("not been implemented"));
}

#[test]
fn scenario_unsupported_version_reports_zero() {
    let config = make_config(7, "motd", false, vec![]);
    let mut input = handshake_frame(9999, "x", 25565, 1);
    input.extend(frame(0, vec![]));
    let mut r = ByteReader::new(input);
    let res = handle_connection(&mut r, &config);
    let frames = parse_frames(res.reply);
    assert_eq!(frames.len(), 1);
    let json = parse_string(frames[0].1.clone());
    let v: serde_json::Value = serde_json::from_str(&json).expect("valid JSON");
    assert_eq!(v["version"]["protocol"], 0, "fallback protocol number");
    assert_eq!(v["players"]["max"], 7);
}

#[test]
fn legacy_connection_is_classified_and_left_unserved() {
    let config = make_config(20, "motd", false, vec![]);
    let mut r = ByteReader::new(vec![0xFE, 0x01]);
    let res = handle_connection(&mut r, &config);
    assert_eq!(res.err, None);
    assert!(res.reply.is_empty());
}

#[test]
fn wrong_login_packet_id_is_a_protocol_error() {
    let config = make_config(20, "motd", false, vec![]);
    let mut input = handshake_frame(754, "x", 25565, 2);
    input.extend(frame(7, vec![]));
    let mut r = ByteReader::new(input);
    let res = handle_connection(&mut r, &config);
    assert_eq!(res.err, Some(DecodeError::UnexpectedPacket));
    assert!(res.reply.is_empty());
}

#[test]
fn unknown_status_packet_ids_are_ignored() {
    let config = make_config(20, "motd", false, vec![]);
    let mut ping_payload = Vec::new();
    write_i64(42, &mut ping_payload);
    let mut input = handshake_frame(754, "x", 25565, 1);
    input.extend(frame(9, vec![]));
    input.extend(frame(1, ping_payload.clone()));
    let mut r = ByteReader::new(input);
    let res = handle_connection(&mut r, &config);
    assert_eq!(res.err, None);
    let frames = parse_frames(res.reply);
    assert_eq!(frames.len(), 1);
    assert_eq!(frames[0].0, 1);
    assert_eq!(frames[0].1, ping_payload);
}

#[test]
fn status_json_matches_a_reference_serializer() {
    let motd = "he said \"hi\" \\ twice\nend";
    let config = make_config(13, motd, false, vec![]);
    let mut input = handshake_frame(754, "x", 25565, 1);
    input.extend(frame(0, vec![]));
    let mut r = ByteReader::new(input);
    let res = handle_connection(&mut r, &config);
    let frames = parse_frames(res.reply);
    let json = parse_string(frames[0].1.clone());

    let mut desc = serde_json::Map::new();
    desc.insert(
        "text".to_string(),
        serde_json::Value::String(motd.to_string()),
    );
    let mut players = serde_json::Map::new();
    players.insert("max".to_string(), 13.into());
    players.insert("online".to_string(), 0.into());
    players.insert("sample".to_string(), serde_json::Value::Array(vec![]));
    let mut version = serde_json::Map::new();
    version.insert(
        "name".to_string(),
        serde_json::Value::String("Basalt".to_string()),
    );
    version.insert("protocol".to_string(), 754.into());
    let mut root = serde_json::Map::new();
    root.insert("description".to_string(), serde_json::Value::Object(desc));
    root.insert("players".to_string(), serde_json::Value::Object(players));
    root.insert("version".to_string(), serde_json::Value::Object(version));
    let expected = serde_json::Value::Object(root).to_string();
    assert_eq!(json, expected);
}

#[test]
fn frame_needed_reports_progress() {
    let full = handshake_frame(754, "example.com", 25565, 1);
    assert_eq!(frame_needed(&Vec::new()), FrameStatus::NeedMore);
    for cut in 1..full.len() {
        assert_eq!(
            frame_needed(&full[..cut].to_vec()),
            FrameStatus::NeedMore,
            "prefix of {cut} bytes"
        );
    }
    assert_eq!(
        frame_needed(&full),
        FrameStatus::Complete { total: full.len() }
    );
    let mut negative = Vec::new();
    VarInt { raw: -1 }.write(&mut negative);
    assert_eq!(frame_needed(&negative), FrameStatus::Malformed);
}

#[test]
fn frame_driven_session_walkthrough() {
    let config = make_config(20, "motd", false, vec![]);
    let mut s = Session::new();
    assert_eq!(s.state, SessionState::AwaitHandshake);

    let out = session_step(&mut s, &config, &handshake_frame(754, "x", 25565, 1));
    assert_eq!(s.state, SessionState::Status);
    assert_eq!(s.version, 754);
    assert!(out.reply.is_empty());
    assert!(!out.close);

    let out = session_step(&mut s, &config, &frame(0, vec![]));
    assert_eq!(s.state, SessionState::Status);
    assert!(!out.close);
    let frames = parse_frames(out.reply);
    assert_eq!(frames[0].0, 0);

    let mut ping_payload = Vec::new();
    write_i64(99, &mut ping_payload);
    let out = session_step(&mut s, &config, &frame(1, ping_payload.clone()));
    assert_eq!(s.state, SessionState::Closed);
    assert!(out.close);
    let frames = parse_frames(out.reply);
    assert_eq!(frames[0], (1, ping_payload));
}

#[test]
fn frame_driven_login_kick() {
    let config = make_config(20, "motd", true, vec!["Alex"]);
    let mut s = Session::new();
    session_step(&mut s, &config, &handshake_frame(754, "x", 25565, 2));
    assert_eq!(s.state, SessionState::Login);
    let mut login_payload = Vec::new();
    assert!(write_string(&"Steve".to_string(), &mut login_payload));
    let out = session_step(&mut s, &config, &frame(0, login_payload));
    assert!(out.close);
    let frames = parse_frames(out.reply);
    assert_eq!(frames[0].0, 0);
}

#[test]
fn login_on_unsupported_version_gets_no_exchange() {
    let config = make_config(20, "motd", false, vec![]);
    let mut login_payload = Vec::new();
    assert!(write_string(&"Steve".to_string(), &mut login_payload));
    let mut input = handshake_frame(9999, "x", 25565, 2);
    input.extend(frame(0, login_payload));
    let mut r = ByteReader::new(input);
    let res = handle_connection(&mut r, &config);
    assert_eq!(res.err, None);
    assert!(res.reply.is_empty(), "the fallback serves no login exchange");
}

#[test]
fn unhandled_next_state_idles_the_connection() {
    let config = make_config(20, "motd", false, vec![]);
    let input = handshake_frame(754, "x", 25565, 3);
    let mut r = ByteReader::new(input);
    let res = handle_connection(&mut r, &config);
    assert_eq!(res.err, None);
    assert!(res.reply.is_empty());
}

#[test]
fn step_machine_closes_on_unsupported_login_version() {
    let config = make_config(20, "motd", false, vec![]);
    let mut s = Session::new();
    let out = session_step(&mut s, &config, &handshake_frame(9999, "x", 25565, 2));
    assert_eq!(s.state, SessionState::Closed);
    assert!(out.close);
    assert_eq!(out.err, None);
}
