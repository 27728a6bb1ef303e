//! The per-connection protocol logic: classification into generations,
//! the version registry, and the handshake/status/login state machine.
//!
//! Every function here consumes bytes from a `ByteReader` and produces
//! reply bytes; performing the socket reads and writes around it is the
//! caller's concern.

use vstd::prelude::*;

use vstd::slice::slice_to_vec;
use vstd::string::StrSliceExecFns;
use vstd::utf8::encode_utf8;

use crate::codec::{be_val, lemma_be_bytes_of_val, lemma_be_val_u64, lemma_var_bytes_small,
    lemma_var_int_round_trip, read_i64, read_string, read_u16, string_decode, to_signed32,
    to_signed64, to_unsigned64, var_bytes, var_decode, var_int_bytes, write_i64, StrDecoded,
    VarDecoded, VarInt};
use crate::config::Config;
use crate::reader::ByteReader;
use crate::status::{kick_json, kick_json_bytes, status_json, status_json_bytes};
use crate::types::{DecodeError, ProtocolState};
use crate::util::prepend_length;

verus! {

// ------------------------------------------------------------------
// Connection classification
// ------------------------------------------------------------------

/// The two wire-format families a connection can speak.
#[derive(Clone, Copy, Debug, PartialEq, Eq, Structural)]
pub enum Generation {
    Classic,
    Modern,
}

/// Decides the generation of a connection from its first byte, which
/// the caller peeks without consuming.
pub fn classify(first: u8) -> (g: Generation)
    ensures
        g == (if first == 0xFE || first == 0x00 {
            Generation::Classic
        } else {
            Generation::Modern
        }),
{
    if first == 0xFE || first == 0x00 {
        Generation::Classic
    } else {
        Generation::Modern
    }
}

// ------------------------------------------------------------------
// Version registry
// ------------------------------------------------------------------

/// Whether a protocol version number has a registered handler.
pub fn supported(version: i32) -> (r: bool)
    ensures
        r <==> version == 754,
{
    version == 754
}

/// Which handler a version dispatches to: a registered one, or the
/// fallback that only reports itself and disconnects.
#[derive(Clone, Copy, Debug, PartialEq, Eq, Structural)]
pub enum HandlerKind {
    V754,
    Fallback,
}

/// The registry's dispatch: supported versions get their handler, all
/// others the fallback.
pub fn handler(version: i32) -> (h: HandlerKind)
    ensures
        h == (if version == 754 {
            HandlerKind::V754
        } else {
            HandlerKind::Fallback
        }),
{
    if supported(version) {
        HandlerKind::V754
    } else {
        HandlerKind::Fallback
    }
}

// ------------------------------------------------------------------
// Packet framing
// ------------------------------------------------------------------

/// A framed packet: the body prefixed with its byte count.
pub open spec fn frame_bytes(body: Seq<u8>) -> Seq<u8>
    recommends
        body.len() <= 0x7FFF_FFFF,
{
    var_bytes(body.len()) + body
}

/// The packet ID a kick is sent under in each protocol state.
pub open spec fn kick_packet_id(state: ProtocolState) -> int {
    match state {
        ProtocolState::Login => 0x00,
        ProtocolState::Play => 0x19,
    }
}

/// A complete kick packet: the state-dependent ID and the reason
/// wrapped as a JSON chat object, carried as a length-prefixed string.
pub open spec fn kick_frame_bytes(state: ProtocolState, reason: Seq<u8>) -> Seq<u8>
    recommends
        reason.len() <= 0xFF_FFFF,
{
    let j = kick_json_bytes(reason);
    frame_bytes(var_int_bytes(kick_packet_id(state)) + (var_bytes(j.len()) + j))
}

/// The bytes of the reason `You are not whitelisted on this server!`.
pub open spec fn whitelist_reason() -> Seq<u8> {
    seq![0x59u8, 0x6Fu8, 0x75u8, 0x20u8, 0x61u8, 0x72u8, 0x65u8, 0x20u8, 0x6Eu8, 0x6Fu8, 0x74u8, 0x20u8, 0x77u8, 0x68u8, 0x69u8, 0x74u8, 0x65u8, 0x6Cu8, 0x69u8, 0x73u8, 0x74u8, 0x65u8, 0x64u8, 0x20u8, 0x6Fu8, 0x6Eu8, 0x20u8, 0x74u8, 0x68u8, 0x69u8, 0x73u8, 0x20u8, 0x73u8, 0x65u8, 0x72u8, 0x76u8, 0x65u8, 0x72u8, 0x21u8]
}

/// Appends that reason.
#[verifier::rlimit(60)]
fn append_whitelist_reason(out: &mut Vec<u8>)
    ensures
        final(out)@ == old(out)@ + whitelist_reason(),
{
    out.push(0x59);
    out.push(0x6F);
    out.push(0x75);
    out.push(0x20);
    out.push(0x61);
    out.push(0x72);
    out.push(0x65);
    out.push(0x20);
    out.push(0x6E);
    out.push(0x6F);
    out.push(0x74);
    out.push(0x20);
    out.push(0x77);
    out.push(0x68);
    out.push(0x69);
    out.push(0x74);
    out.push(0x65);
    out.push(0x6C);
    out.push(0x69);
    out.push(0x73);
    out.push(0x74);
    out.push(0x65);
    out.push(0x64);
    out.push(0x20);
    out.push(0x6F);
    out.push(0x6E);
    out.push(0x20);
    out.push(0x74);
    out.push(0x68);
    out.push(0x69);
    out.push(0x73);
    out.push(0x20);
    out.push(0x73);
    out.push(0x65);
    out.push(0x72);
    out.push(0x76);
    out.push(0x65);
    out.push(0x72);
    out.push(0x21);
    proof {
        assert(out@ =~= old(out)@ + whitelist_reason());
    }
}

/// The bytes of the reason `Joining the game has not been implemented yet!`.
pub open spec fn unimplemented_reason() -> Seq<u8> {
    seq![0x4Au8, 0x6Fu8, 0x69u8, 0x6Eu8, 0x69u8, 0x6Eu8, 0x67u8, 0x20u8, 0x74u8, 0x68u8, 0x65u8, 0x20u8, 0x67u8, 0x61u8, 0x6Du8, 0x65u8, 0x20u8, 0x68u8, 0x61u8, 0x73u8, 0x20u8, 0x6Eu8, 0x6Fu8, 0x74u8, 0x20u8, 0x62u8, 0x65u8, 0x65u8, 0x6Eu8, 0x20u8, 0x69u8, 0x6Du8, 0x70u8, 0x6Cu8, 0x65u8, 0x6Du8, 0x65u8, 0x6Eu8, 0x74u8, 0x65u8, 0x64u8, 0x20u8, 0x79u8, 0x65u8, 0x74u8, 0x21u8]
}

/// Appends that reason.
#[verifier::rlimit(60)]
fn append_unimplemented_reason(out: &mut Vec<u8>)
    ensures
        final(out)@ == old(out)@ + unimplemented_reason(),
{
    out.push(0x4A);
    out.push(0x6F);
    out.push(0x69);
    out.push(0x6E);
    out.push(0x69);
    out.push(0x6E);
    out.push(0x67);
    out.push(0x20);
    out.push(0x74);
    out.push(0x68);
    out.push(0x65);
    out.push(0x20);
    out.push(0x67);
    out.push(0x61);
    out.push(0x6D);
    out.push(0x65);
    out.push(0x20);
    out.push(0x68);
    out.push(0x61);
    out.push(0x73);
    out.push(0x20);
    out.push(0x6E);
    out.push(0x6F);
    out.push(0x74);
    out.push(0x20);
    out.push(0x62);
    out.push(0x65);
    out.push(0x65);
    out.push(0x6E);
    out.push(0x20);
    out.push(0x69);
    out.push(0x6D);
    out.push(0x70);
    out.push(0x6C);
    out.push(0x65);
    out.push(0x6D);
    out.push(0x65);
    out.push(0x6E);
    out.push(0x74);
    out.push(0x65);
    out.push(0x64);
    out.push(0x20);
    out.push(0x79);
    out.push(0x65);
    out.push(0x74);
    out.push(0x21);
    proof {
        assert(out@ =~= old(out)@ + unimplemented_reason());
    }
}

/// Builds a kick frame from raw reason bytes.
fn kick_frame(state: ProtocolState, reason_bytes: &Vec<u8>) -> (f: Vec<u8>)
    requires
        reason_bytes@.len() <= 0xFF_FFFF,
    ensures
        f@ == kick_frame_bytes(state, reason_bytes@),
{
    let j = kick_json(reason_bytes);
    let id: i32 = match state {
        ProtocolState::Login => 0x00,
        ProtocolState::Play => 0x19,
    };
    let mut body: Vec<u8> = Vec::new();
    VarInt { raw: id }.write(&mut body);
    VarInt { raw: j.len() as i32 }.write(&mut body);
    let mut jb = j;
    body.append(&mut jb);
    proof {
        assert(body@ =~= var_int_bytes(kick_packet_id(state)) + (var_bytes(
            kick_json_bytes(reason_bytes@).len(),
        ) + kick_json_bytes(reason_bytes@)));
        lemma_var_int_round_trip(id, Seq::<u8>::empty());
        lemma_var_bytes_small(kick_json_bytes(reason_bytes@).len());
    }
    prepend_length(body)
}

/// The handler for protocol version 754.
pub struct V754;

impl V754 {
    /// Encodes a kick for the given reason text, framed for the current
    /// protocol state, ready to be sent and flushed.
    pub fn disconnect(state: ProtocolState, reason: &String) -> (f: Vec<u8>)
        requires
            encode_utf8(reason@).len() <= 0xFF_FFFF,
        ensures
            f@ == kick_frame_bytes(state, encode_utf8(reason@)),
    {
        let rb = reason_bytes(reason);
        kick_frame(state, &rb)
    }
}

/// The UTF-8 bytes of a string.
fn reason_bytes(s: &String) -> (r: Vec<u8>)
    ensures
        r@ == encode_utf8(s@),
{
    s.as_str().as_bytes_vec()
}


// ------------------------------------------------------------------
// The handshake packet
// ------------------------------------------------------------------

/// The fields of a handshake packet.
pub struct Handshake {
    pub version: i32,
    pub address: String,
    pub port: u16,
    pub next: i32,
}

/// The outcome of decoding a handshake packet from the front of `b`.
pub enum HsDecoded {
    /// The decoded fields and the bytes the packet occupies.
    Value { version: int, address: Seq<char>, port: int, next: int, n: nat },
    /// Why the bytes do not begin with a well-formed handshake.
    Fail { e: DecodeError },
}

/// Decoding a handshake packet: the advisory length, the packet ID
/// which must be 0, the protocol version, the server address, the
/// port, and the requested next state.
pub open spec fn handshake_decode(b: Seq<u8>) -> HsDecoded {
    match var_decode(b, 5) {
        VarDecoded::Value { v: _len, n: n0 } => match var_decode(b.skip(n0 as int), 5) {
            VarDecoded::Value { v: idv, n: n1 } => if to_signed32(idv) != 0 {
                HsDecoded::Fail { e: DecodeError::UnexpectedPacket }
            } else {
                match var_decode(b.skip(n0 as int + n1 as int), 5) {
                    VarDecoded::Value { v: vv, n: n2 } => {
                        match string_decode(b.skip(n0 as int + n1 as int + n2 as int)) {
                            StrDecoded::Value { s: addr, n: n3 } => {
                                let m = n0 as int + n1 as int + n2 as int + n3 as int;
                                let after = b.skip(m);
                                if after.len() < 2 {
                                    HsDecoded::Fail { e: DecodeError::Eof }
                                } else {
                                    match var_decode(after.skip(2), 5) {
                                        VarDecoded::Value { v: nxv, n: n4 } => HsDecoded::Value {
                                            version: to_signed32(vv),
                                            address: addr,
                                            port: be_val(after.take(2)) as int,
                                            next: to_signed32(nxv),
                                            n: (m + 2 + n4) as nat,
                                        },
                                        VarDecoded::TooLarge => HsDecoded::Fail {
                                            e: DecodeError::TooLarge,
                                        },
                                        VarDecoded::Eof => HsDecoded::Fail {
                                            e: DecodeError::Eof,
                                        },
                                    }
                                }
                            },
                            StrDecoded::Fail { e } => HsDecoded::Fail { e },
                        }
                    },
                    VarDecoded::TooLarge => HsDecoded::Fail { e: DecodeError::TooLarge },
                    VarDecoded::Eof => HsDecoded::Fail { e: DecodeError::Eof },
                }
            },
            VarDecoded::TooLarge => HsDecoded::Fail { e: DecodeError::TooLarge },
            VarDecoded::Eof => HsDecoded::Fail { e: DecodeError::Eof },
        },
        VarDecoded::TooLarge => HsDecoded::Fail { e: DecodeError::TooLarge },
        VarDecoded::Eof => HsDecoded::Fail { e: DecodeError::Eof },
    }
}

/// Reads a handshake packet. The declared packet length is read and
/// kept advisory, as the wire format specifies.
#[verifier::rlimit(80)]
pub fn parse_handshake(r: &mut ByteReader) -> (res: Result<Handshake, DecodeError>)
    requires
        old(r).wf(),
    ensures
        final(r).wf(),
        match handshake_decode(old(r).remaining()) {
            HsDecoded::Value { version, address, port, next, n } => {
                &&& res is Ok
                &&& res->Ok_0.version as int == version
                &&& res->Ok_0.address@ == address
                &&& res->Ok_0.port as int == port
                &&& res->Ok_0.next as int == next
                &&& final(r).remaining() == old(r).remaining().skip(n as int)
            },
            HsDecoded::Fail { e } => res == Err::<Handshake, DecodeError>(e),
        },
{
    let ghost b = old(r).remaining();
    let _length = match VarInt::read(r) {
        Ok(v) => v,
        Err(e) => {
            return Err(e);
        },
    };
    let ghost n0 = (match var_decode(b, 5) {
        VarDecoded::Value { v, n } => n,
        _ => 0,
    }) as int;
    let id = match VarInt::read(r) {
        Ok(v) => v,
        Err(e) => {
            return Err(e);
        },
    };
    let ghost n1 = (match var_decode(b.skip(n0), 5) {
        VarDecoded::Value { v, n } => n,
        _ => 0,
    }) as int;
    proof {
        assert(b.skip(n0).skip(n1) =~= b.skip(n0 + n1));
    }
    if id.raw != 0 {
        return Err(DecodeError::UnexpectedPacket);
    }
    let version = match VarInt::read(r) {
        Ok(v) => v,
        Err(e) => {
            return Err(e);
        },
    };
    let ghost n2 = (match var_decode(b.skip(n0 + n1), 5) {
        VarDecoded::Value { v, n } => n,
        _ => 0,
    }) as int;
    proof {
        assert(b.skip(n0 + n1).skip(n2) =~= b.skip(n0 + n1 + n2));
    }
    let address = match read_string(r) {
        Ok(s) => s,
        Err(e) => {
            return Err(e);
        },
    };
    let ghost n3 = (match string_decode(b.skip(n0 + n1 + n2)) {
        StrDecoded::Value { s, n } => n,
        _ => 0,
    }) as int;
    proof {
        assert(b.skip(n0 + n1 + n2).skip(n3) =~= b.skip(n0 + n1 + n2 + n3));
    }
    let port = match read_u16(r) {
        Ok(p) => p,
        Err(e) => {
            return Err(e);
        },
    };
    proof {
        assert(b.skip(n0 + n1 + n2 + n3).skip(2) =~= b.skip(n0 + n1 + n2 + n3 + 2));
    }
    let next = match VarInt::read(r) {
        Ok(v) => v,
        Err(e) => {
            return Err(e);
        },
    };
    let ghost n4 = (match var_decode(b.skip(n0 + n1 + n2 + n3 + 2), 5) {
        VarDecoded::Value { v, n } => n,
        _ => 0,
    }) as int;
    proof {
        assert(b.skip(n0 + n1 + n2 + n3 + 2).skip(n4) =~= b.skip(n0 + n1 + n2 + n3 + 2 + n4));
    }
    Ok(Handshake { version: version.raw, address, port, next: next.raw })
}


// ------------------------------------------------------------------
// Session outcomes
// ------------------------------------------------------------------

/// What a stretch of session logic produced: the reply bytes owed to
/// the peer, and the error that ended it, if one did.
pub struct SessionOut {
    pub reply: Seq<u8>,
    pub err: Option<DecodeError>,
}

/// The executable counterpart of `SessionOut`.
pub struct SessionResult {
    pub reply: Vec<u8>,
    pub err: Option<DecodeError>,
}

// ------------------------------------------------------------------
// The status exchange
// ------------------------------------------------------------------

/// The framed status response: packet ID 0 and the status JSON as a
/// length-prefixed string.
pub open spec fn status_frame_bytes(protocol: int, max_players: int, motd: Seq<u8>) -> Seq<u8> {
    let j = status_json_bytes(protocol, max_players, motd);
    frame_bytes(var_int_bytes(0) + (var_bytes(j.len()) + j))
}

/// The framed pong: packet ID 1 and the 8 payload bytes echoed back.
pub open spec fn pong_frame_bytes(payload: Seq<u8>) -> Seq<u8>
    recommends
        payload.len() == 8,
{
    frame_bytes(var_int_bytes(1) + payload)
}

/// The whole status exchange over the bytes the peer sends after the
/// handshake: every status request is answered with the status frame, a
/// ping is echoed and ends the exchange, unknown packet IDs are
/// ignored, and a malformed packet ends it with that error.
pub open spec fn status_session(b: Seq<u8>, protocol: int, config: Config) -> SessionOut
    decreases b.len(),
{
    match var_decode(b, 5) {
        VarDecoded::Value { v: _len, n: n0 } => match var_decode(b.skip(n0 as int), 5) {
            VarDecoded::Value { v: idv, n: n1 } => {
                let id = to_signed32(idv);
                let after = b.skip(n0 as int + n1 as int);
                if id == 0 {
                    let rec = status_session(after, protocol, config);
                    SessionOut {
                        reply: status_frame_bytes(
                            protocol,
                            config.minecraft.max_players as int,
                            encode_utf8(config.minecraft.motd@),
                        ) + rec.reply,
                        err: rec.err,
                    }
                } else if id == 1 {
                    if after.len() < 8 {
                        SessionOut { reply: Seq::empty(), err: Some(DecodeError::Eof) }
                    } else {
                        SessionOut { reply: pong_frame_bytes(after.take(8)), err: None }
                    }
                } else {
                    status_session(after, protocol, config)
                }
            },
            VarDecoded::TooLarge => SessionOut {
                reply: Seq::empty(),
                err: Some(DecodeError::TooLarge),
            },
            VarDecoded::Eof => SessionOut { reply: Seq::empty(), err: Some(DecodeError::Eof) },
        },
        VarDecoded::TooLarge => SessionOut {
            reply: Seq::empty(),
            err: Some(DecodeError::TooLarge),
        },
        VarDecoded::Eof => SessionOut { reply: Seq::empty(), err: Some(DecodeError::Eof) },
    }
}

/// Builds one framed status response from the configuration.
fn status_response(config: &Config, protocol: i32) -> (f: Vec<u8>)
    requires
        encode_utf8(config.minecraft.motd@).len() <= 0xFF_FFFF,
    ensures
        f@ == status_frame_bytes(
            protocol as int,
            config.minecraft.max_players as int,
            encode_utf8(config.minecraft.motd@),
        ),
{
    let motd_b = reason_bytes(&config.minecraft.motd);
    let j = status_json(protocol, config.minecraft.max_players, &motd_b);
    let mut packet: Vec<u8> = Vec::new();
    VarInt { raw: 0 }.write(&mut packet);
    VarInt { raw: j.len() as i32 }.write(&mut packet);
    let ghost jv = j@;
    let mut jb = j;
    packet.append(&mut jb);
    proof {
        lemma_var_int_round_trip(0, Seq::<u8>::empty());
        lemma_var_bytes_small(jv.len());
        assert(packet@ =~= var_int_bytes(0) + (var_bytes(jv.len()) + jv));
    }
    prepend_length(packet)
}

/// Serves the status exchange: answers every status request, echoes
/// one ping and finishes, and reports the error a malformed packet
/// raises. The protocol number reported is the requested version when
/// supported, 0 otherwise.
#[verifier::rlimit(100)]
pub fn modern(r: &mut ByteReader, config: &Config, version: i32) -> (res: SessionResult)
    requires
        old(r).wf(),
        encode_utf8(config.minecraft.motd@).len() <= 0xFF_FFFF,
    ensures
        final(r).wf(),
        ({
            let out = status_session(
                old(r).remaining(),
                if version == 754 {
                    version as int
                } else {
                    0int
                },
                *config,
            );
            res.reply@ == out.reply && res.err == out.err
        }),
{
    let protocol: i32 = if supported(version) {
        version
    } else {
        0
    };
    let mut reply: Vec<u8> = Vec::new();
    loop
        invariant
            r.wf(),
            protocol as int == (if version == 754 {
                version as int
            } else {
                0int
            }),
            encode_utf8(config.minecraft.motd@).len() <= 0xFF_FFFF,
            status_session(old(r).remaining(), protocol as int, *config).reply == reply@
                + status_session(r.remaining(), protocol as int, *config).reply,
            status_session(old(r).remaining(), protocol as int, *config).err == status_session(
                r.remaining(),
                protocol as int,
                *config,
            ).err,
        decreases r.remaining().len(),
    {
        let ghost cur = r.remaining();
        let _length = match VarInt::read(r) {
            Ok(v) => v,
            Err(e) => {
                return SessionResult { reply, err: Some(e) };
            },
        };
        let ghost n0 = (match var_decode(cur, 5) {
            VarDecoded::Value { v, n } => n,
            _ => 0,
        }) as int;
        let id = match VarInt::read(r) {
            Ok(v) => v,
            Err(e) => {
                return SessionResult { reply, err: Some(e) };
            },
        };
        let ghost n1 = (match var_decode(cur.skip(n0), 5) {
            VarDecoded::Value { v, n } => n,
            _ => 0,
        }) as int;
        proof {
            assert(cur.skip(n0).skip(n1) =~= cur.skip(n0 + n1));
        }
        if id.raw == 0 {
            let mut f = status_response(config, protocol);
            reply.append(&mut f);
            proof {
                assert(status_session(old(r).remaining(), protocol as int, *config).reply
                    =~= reply@ + status_session(r.remaining(), protocol as int, *config).reply);
            }
        } else if id.raw == 1 {
            let ghost after = cur.skip(n0 + n1);
            let payload = match read_i64(r) {
                Ok(v) => v,
                Err(e) => {
                    return SessionResult { reply, err: Some(e) };
                },
            };
            let mut packet: Vec<u8> = Vec::new();
            VarInt { raw: 1 }.write(&mut packet);
            write_i64(payload, &mut packet);
            proof {
                lemma_be_bytes_of_val(after.take(8));
                lemma_be_val_u64(after.take(8));
                assert(to_unsigned64(to_signed64(be_val(after.take(8)))) == be_val(
                    after.take(8),
                ));
                lemma_var_int_round_trip(1, Seq::<u8>::empty());
                assert(packet@ =~= var_int_bytes(1) + after.take(8));
            }
            let mut f = prepend_length(packet);
            reply.append(&mut f);
            proof {
                assert(reply@ =~= status_session(old(r).remaining(), protocol as int, *config).reply);
            }
            return SessionResult { reply, err: None };
        }
    }
}


// ------------------------------------------------------------------
// The login exchange
// ------------------------------------------------------------------

/// Whether a name is on the allow-list.
pub open spec fn whitelisted(list: Seq<String>, name: Seq<char>) -> bool {
    exists|i: int| 0 <= i < list.len() && list[i]@ == name
}

/// The login exchange over the bytes the peer sends after the
/// handshake: a login-start packet is answered with a kick, either
/// because the name is not whitelisted or because joining is not
/// implemented yet; any other packet ID is a protocol error.
pub open spec fn login_session(b: Seq<u8>, config: Config) -> SessionOut {
    match var_decode(b, 5) {
        VarDecoded::Value { v: _len, n: n0 } => match var_decode(b.skip(n0 as int), 5) {
            VarDecoded::Value { v: idv, n: n1 } => if to_signed32(idv) != 0 {
                SessionOut { reply: Seq::empty(), err: Some(DecodeError::UnexpectedPacket) }
            } else {
                match string_decode(b.skip(n0 as int + n1 as int)) {
                    StrDecoded::Value { s: username, n: _n2 } => if config.whitelist.enabled
                        && !whitelisted(config.whitelist.list@, username) {
                        SessionOut {
                            reply: kick_frame_bytes(ProtocolState::Login, whitelist_reason()),
                            err: None,
                        }
                    } else {
                        SessionOut {
                            reply: kick_frame_bytes(ProtocolState::Login, unimplemented_reason()),
                            err: None,
                        }
                    },
                    StrDecoded::Fail { e } => SessionOut { reply: Seq::empty(), err: Some(e) },
                }
            },
            VarDecoded::TooLarge => SessionOut {
                reply: Seq::empty(),
                err: Some(DecodeError::TooLarge),
            },
            VarDecoded::Eof => SessionOut { reply: Seq::empty(), err: Some(DecodeError::Eof) },
        },
        VarDecoded::TooLarge => SessionOut {
            reply: Seq::empty(),
            err: Some(DecodeError::TooLarge),
        },
        VarDecoded::Eof => SessionOut { reply: Seq::empty(), err: Some(DecodeError::Eof) },
    }
}

/// Whether `name` appears in the configured list.
fn contains_name(list: &Vec<String>, name: &String) -> (r: bool)
    ensures
        r == whitelisted(list@, name@),
{
    let mut i: usize = 0;
    while i < list.len()
        invariant
            i <= list@.len(),
            forall|k: int| 0 <= k < i ==> list@[k]@ != name@,
        decreases list@.len() - i,
    {
        if (&list[i]).eq(name) {
            proof {
                assert(list@[i as int]@ == name@);
            }
            return true;
        }
        i = i + 1;
    }
    false
}

impl V754 {
    /// Serves the login exchange: reads the login-start packet, applies
    /// the whitelist, and answers with the appropriate kick.
    pub fn handle(r: &mut ByteReader, config: &Config) -> (res: SessionResult)
        requires
            old(r).wf(),
        ensures
            final(r).wf(),
            ({
                let out = login_session(old(r).remaining(), *config);
                res.reply@ == out.reply && res.err == out.err
            }),
    {
        let ghost b = old(r).remaining();
        let _length = match VarInt::read(r) {
            Ok(v) => v,
            Err(e) => {
                return SessionResult { reply: Vec::new(), err: Some(e) };
            },
        };
        let ghost n0 = (match var_decode(b, 5) {
            VarDecoded::Value { v, n } => n,
            _ => 0,
        }) as int;
        let id = match VarInt::read(r) {
            Ok(v) => v,
            Err(e) => {
                return SessionResult { reply: Vec::new(), err: Some(e) };
            },
        };
        let ghost n1 = (match var_decode(b.skip(n0), 5) {
            VarDecoded::Value { v, n } => n,
            _ => 0,
        }) as int;
        proof {
            assert(b.skip(n0).skip(n1) =~= b.skip(n0 + n1));
        }
        if id.raw != 0 {
            return SessionResult { reply: Vec::new(), err: Some(DecodeError::UnexpectedPacket) };
        }
        let username = match read_string(r) {
            Ok(s) => s,
            Err(e) => {
                return SessionResult { reply: Vec::new(), err: Some(e) };
            },
        };
        let mut reason: Vec<u8> = Vec::new();
        if config.whitelist.enabled && !contains_name(&config.whitelist.list, &username) {
            append_whitelist_reason(&mut reason);
        } else {
            append_unimplemented_reason(&mut reason);
        }
        let f = kick_frame(ProtocolState::Login, &reason);
        SessionResult { reply: f, err: None }
    }
}

/// What the login dispatch produces: the registered handler's exchange
/// for a supported version, and nothing for any other.
pub open spec fn login_dispatch(b: Seq<u8>, config: Config, version: int) -> SessionOut {
    if version == 754 {
        login_session(b, config)
    } else {
        SessionOut { reply: Seq::empty(), err: None }
    }
}

/// Dispatches the login exchange to the handler registered for the
/// version; an unregistered version gets no exchange.
pub fn handle(r: &mut ByteReader, config: &Config, version: i32) -> (res: SessionResult)
    requires
        old(r).wf(),
    ensures
        final(r).wf(),
        ({
            let out = login_dispatch(old(r).remaining(), *config, version as int);
            res.reply@ == out.reply && res.err == out.err
        }),
        version != 754 ==> final(r).remaining() == old(r).remaining(),
{
    match handler(version) {
        HandlerKind::V754 => V754::handle(r, config),
        HandlerKind::Fallback => SessionResult { reply: Vec::new(), err: None },
    }
}

// ------------------------------------------------------------------
// The whole modern-generation session
// ------------------------------------------------------------------

/// A modern-generation session from its first byte: the handshake
/// selects the status or login exchange; any other requested state
/// idles the connection; a malformed handshake ends it with the error.
pub open spec fn modern_session(b: Seq<u8>, config: Config) -> SessionOut {
    match handshake_decode(b) {
        HsDecoded::Value { version, address: _, port: _, next, n } => {
            let after = b.skip(n as int);
            if next == 1 {
                status_session(
                    after,
                    if version == 754 {
                        version
                    } else {
                        0int
                    },
                    config,
                )
            } else if next == 2 {
                login_dispatch(after, config, version)
            } else {
                SessionOut { reply: Seq::empty(), err: None }
            }
        },
        HsDecoded::Fail { e } => SessionOut { reply: Seq::empty(), err: Some(e) },
    }
}

/// Runs a modern-generation session: handshake, then the selected
/// exchange.
pub fn handle_modern(r: &mut ByteReader, config: &Config) -> (res: SessionResult)
    requires
        old(r).wf(),
        encode_utf8(config.minecraft.motd@).len() <= 0xFF_FFFF,
    ensures
        final(r).wf(),
        ({
            let out = modern_session(old(r).remaining(), *config);
            res.reply@ == out.reply && res.err == out.err
        }),
{
    let hs = match parse_handshake(r) {
        Ok(h) => h,
        Err(e) => {
            return SessionResult { reply: Vec::new(), err: Some(e) };
        },
    };
    if hs.next == 1 {
        modern(r, config, hs.version)
    } else if hs.next == 2 {
        handle(r, config, hs.version)
    } else {
        SessionResult { reply: Vec::new(), err: None }
    }
}

// ------------------------------------------------------------------
// The per-connection entry point
// ------------------------------------------------------------------

/// A whole connection from its first byte. A legacy-generation peer is
/// classified and its identifying byte consumed; serving the legacy
/// status exchange has no registered handler, so such a connection gets
/// no reply. A modern-generation peer gets the full session.
pub open spec fn connection_session(b: Seq<u8>, config: Config) -> SessionOut {
    if b.len() == 0 {
        SessionOut { reply: Seq::empty(), err: Some(DecodeError::Eof) }
    } else if b[0] == 0xFE || b[0] == 0x00 {
        SessionOut { reply: Seq::empty(), err: None }
    } else {
        modern_session(b, config)
    }
}

/// Classifies and runs one accepted connection. The first byte is
/// peeked, not consumed, before the generation is decided.
pub fn handle_connection(r: &mut ByteReader, config: &Config) -> (res: SessionResult)
    requires
        old(r).wf(),
        encode_utf8(config.minecraft.motd@).len() <= 0xFF_FFFF,
    ensures
        final(r).wf(),
        ({
            let out = connection_session(old(r).remaining(), *config);
            res.reply@ == out.reply && res.err == out.err
        }),
{
    let first = match r.peek() {
        Some(b) => b,
        None => {
            return SessionResult { reply: Vec::new(), err: Some(DecodeError::Eof) };
        },
    };
    match classify(first) {
        Generation::Classic => {
            let _id = r.next();
            SessionResult { reply: Vec::new(), err: None }
        },
        Generation::Modern => handle_modern(r, config),
    }
}


// ------------------------------------------------------------------
// Incremental framing for a caller that reads a socket
// ------------------------------------------------------------------

/// Whether the bytes received so far hold a complete frame.
#[derive(Clone, Copy, Debug, PartialEq, Eq, Structural)]
pub enum FrameStatus {
    /// More bytes are needed before the frame is complete.
    NeedMore,
    /// A complete frame of `total` bytes, length prefix included.
    Complete { total: usize },
    /// The length prefix itself is malformed.
    Malformed,
}

/// The framing state of a byte buffer: complete once the declared
/// length has arrived, malformed on an oversize or negative prefix.
pub open spec fn frame_status(b: Seq<u8>) -> FrameStatus {
    match var_decode(b, 5) {
        VarDecoded::Value { v, n } => {
            let l = to_signed32(v);
            if l < 0 {
                FrameStatus::Malformed
            } else if b.len() >= n + l {
                FrameStatus::Complete { total: (n + l) as usize }
            } else {
                FrameStatus::NeedMore
            }
        },
        VarDecoded::TooLarge => FrameStatus::Malformed,
        VarDecoded::Eof => FrameStatus::NeedMore,
    }
}

/// Tells a caller feeding bytes from a socket when a complete frame
/// has arrived, and how many bytes it spans.
pub fn frame_needed(buf: &Vec<u8>) -> (st: FrameStatus)
    ensures
        st == frame_status(buf@),
{
    let mut r = ByteReader::new(slice_to_vec(buf.as_slice()));
    let len0 = r.len();
    let vi = match VarInt::read(&mut r) {
        Ok(v) => v,
        Err(DecodeError::TooLarge) => {
            return FrameStatus::Malformed;
        },
        Err(_) => {
            return FrameStatus::NeedMore;
        },
    };
    if vi.raw < 0 {
        return FrameStatus::Malformed;
    }
    let n = len0 - r.len();
    let l = vi.raw as usize;
    if buf.len() - n >= l {
        FrameStatus::Complete { total: n + l }
    } else {
        FrameStatus::NeedMore
    }
}

// ------------------------------------------------------------------
// The frame-driven state machine
// ------------------------------------------------------------------

/// Where a connection's session stands.
#[derive(Clone, Copy, Debug, PartialEq, Eq, Structural)]
pub enum SessionState {
    /// No packet has been consumed yet.
    AwaitHandshake,
    /// The handshake asked for the status exchange.
    Status,
    /// The handshake asked for login.
    Login,
    /// The session is over; the connection is to be closed.
    Closed,
}

/// The session state a connection driver carries between frames.
pub struct Session {
    pub state: SessionState,
    pub version: i32,
}

impl Session {
    /// A fresh session: nothing consumed, no version known yet.
    pub fn new() -> (s: Session)
        ensures
            s.state == SessionState::AwaitHandshake,
            s.version == 0,
    {
        Session { state: SessionState::AwaitHandshake, version: 0 }
    }
}

/// What one step of the state machine decides: the next state and
/// version, the reply owed, whether to close, and the error if the
/// frame was malformed.
pub struct StepSpec {
    pub state: SessionState,
    pub version: int,
    pub reply: Seq<u8>,
    pub close: bool,
    pub err: Option<DecodeError>,
}

/// One step of the state machine on one complete frame.
pub open spec fn step_spec(
    state: SessionState,
    version: int,
    frame: Seq<u8>,
    config: Config,
) -> StepSpec {
    match state {
        SessionState::AwaitHandshake => match handshake_decode(frame) {
            HsDecoded::Value { version: v, address: _, port: _, next, n: _n } => if next == 1 {
                StepSpec {
                    state: SessionState::Status,
                    version: if v == 754 {
                        v
                    } else {
                        0int
                    },
                    reply: Seq::empty(),
                    close: false,
                    err: None,
                }
            } else if next == 2 && v == 754 {
                StepSpec {
                    state: SessionState::Login,
                    version: v,
                    reply: Seq::empty(),
                    close: false,
                    err: None,
                }
            } else {
                StepSpec {
                    state: SessionState::Closed,
                    version,
                    reply: Seq::empty(),
                    close: true,
                    err: None,
                }
            },
            HsDecoded::Fail { e } => StepSpec {
                state: SessionState::Closed,
                version,
                reply: Seq::empty(),
                close: true,
                err: Some(e),
            },
        },
        SessionState::Status => status_step_spec(version, frame, config),
        SessionState::Login => {
            let out = login_session(frame, config);
            StepSpec {
                state: SessionState::Closed,
                version,
                reply: out.reply,
                close: true,
                err: out.err,
            }
        },
        SessionState::Closed => StepSpec {
            state: SessionState::Closed,
            version,
            reply: Seq::empty(),
            close: true,
            err: None,
        },
    }
}

/// One status-state step: a status request is answered, a ping is
/// echoed and closes the exchange, an unknown ID is ignored.
pub open spec fn status_step_spec(version: int, frame: Seq<u8>, config: Config) -> StepSpec {
    match var_decode(frame, 5) {
        VarDecoded::Value { v: _len, n: n0 } => match var_decode(frame.skip(n0 as int), 5) {
            VarDecoded::Value { v: idv, n: n1 } => {
                let id = to_signed32(idv);
                let after = frame.skip(n0 as int + n1 as int);
                if id == 0 {
                    StepSpec {
                        state: SessionState::Status,
                        version,
                        reply: status_frame_bytes(
                            version,
                            config.minecraft.max_players as int,
                            encode_utf8(config.minecraft.motd@),
                        ),
                        close: false,
                        err: None,
                    }
                } else if id == 1 {
                    if after.len() < 8 {
                        StepSpec {
                            state: SessionState::Closed,
                            version,
                            reply: Seq::empty(),
                            close: true,
                            err: Some(DecodeError::Eof),
                        }
                    } else {
                        StepSpec {
                            state: SessionState::Closed,
                            version,
                            reply: pong_frame_bytes(after.take(8)),
                            close: true,
                            err: None,
                        }
                    }
                } else {
                    StepSpec {
                        state: SessionState::Status,
                        version,
                        reply: Seq::empty(),
                        close: false,
                        err: None,
                    }
                }
            },
            VarDecoded::TooLarge => StepSpec {
                state: SessionState::Closed,
                version,
                reply: Seq::empty(),
                close: true,
                err: Some(DecodeError::TooLarge),
            },
            VarDecoded::Eof => StepSpec {
                state: SessionState::Closed,
                version,
                reply: Seq::empty(),
                close: true,
                err: Some(DecodeError::Eof),
            },
        },
        VarDecoded::TooLarge => StepSpec {
            state: SessionState::Closed,
            version,
            reply: Seq::empty(),
            close: true,
            err: Some(DecodeError::TooLarge),
        },
        VarDecoded::Eof => StepSpec {
            state: SessionState::Closed,
            version,
            reply: Seq::empty(),
            close: true,
            err: Some(DecodeError::Eof),
        },
    }
}

/// What one executable step hands back to the connection driver.
pub struct StepOut {
    pub reply: Vec<u8>,
    pub close: bool,
    pub err: Option<DecodeError>,
}

/// Advances the session by one complete frame: decides the next state,
/// the reply to send and flush, and whether to close the connection.
#[verifier::rlimit(100)]
pub fn session_step(s: &mut Session, config: &Config, frame: &Vec<u8>) -> (out: StepOut)
    requires
        encode_utf8(config.minecraft.motd@).len() <= 0xFF_FFFF,
    ensures
        ({
            let sp = step_spec(old(s).state, old(s).version as int, frame@, *config);
            &&& final(s).state == sp.state
            &&& final(s).version as int == sp.version
            &&& out.reply@ == sp.reply
            &&& out.close == sp.close
            &&& out.err == sp.err
        }),
{
    let mut r = ByteReader::new(slice_to_vec(frame.as_slice()));
    match s.state {
        SessionState::AwaitHandshake => {
            match parse_handshake(&mut r) {
                Ok(hs) => {
                    if hs.next == 1 {
                        s.state = SessionState::Status;
                        s.version = if supported(hs.version) {
                            hs.version
                        } else {
                            0
                        };
                        StepOut { reply: Vec::new(), close: false, err: None }
                    } else if hs.next == 2 && supported(hs.version) {
                        s.state = SessionState::Login;
                        s.version = hs.version;
                        StepOut { reply: Vec::new(), close: false, err: None }
                    } else {
                        s.state = SessionState::Closed;
                        StepOut { reply: Vec::new(), close: true, err: None }
                    }
                },
                Err(e) => {
                    s.state = SessionState::Closed;
                    StepOut { reply: Vec::new(), close: true, err: Some(e) }
                },
            }
        },
        SessionState::Status => {
            let ghost b = frame@;
            let _length = match VarInt::read(&mut r) {
                Ok(v) => v,
                Err(e) => {
                    s.state = SessionState::Closed;
                    return StepOut { reply: Vec::new(), close: true, err: Some(e) };
                },
            };
            let ghost n0 = (match var_decode(b, 5) {
                VarDecoded::Value { v, n } => n,
                _ => 0,
            }) as int;
            let id = match VarInt::read(&mut r) {
                Ok(v) => v,
                Err(e) => {
                    s.state = SessionState::Closed;
                    return StepOut { reply: Vec::new(), close: true, err: Some(e) };
                },
            };
            let ghost n1 = (match var_decode(b.skip(n0), 5) {
                VarDecoded::Value { v, n } => n,
                _ => 0,
            }) as int;
            proof {
                assert(b.skip(n0).skip(n1) =~= b.skip(n0 + n1));
            }
            if id.raw == 0 {
                let f = status_response(config, s.version);
                StepOut { reply: f, close: false, err: None }
            } else if id.raw == 1 {
                let ghost after = b.skip(n0 + n1);
                let payload = match read_i64(&mut r) {
                    Ok(v) => v,
                    Err(e) => {
                        s.state = SessionState::Closed;
                        return StepOut { reply: Vec::new(), close: true, err: Some(e) };
                    },
                };
                let mut packet: Vec<u8> = Vec::new();
                VarInt { raw: 1 }.write(&mut packet);
                write_i64(payload, &mut packet);
                proof {
                    lemma_be_bytes_of_val(after.take(8));
                    lemma_be_val_u64(after.take(8));
                    assert(to_unsigned64(to_signed64(be_val(after.take(8)))) == be_val(
                        after.take(8),
                    ));
                    lemma_var_int_round_trip(1, Seq::<u8>::empty());
                    assert(packet@ =~= var_int_bytes(1) + after.take(8));
                }
                let f = prepend_length(packet);
                s.state = SessionState::Closed;
                StepOut { reply: f, close: true, err: None }
            } else {
                StepOut { reply: Vec::new(), close: false, err: None }
            }
        },
        SessionState::Login => {
            let out = V754::handle(&mut r, config);
            s.state = SessionState::Closed;
            StepOut { reply: out.reply, close: true, err: out.err }
        },
        SessionState::Closed => StepOut { reply: Vec::new(), close: true, err: None },
    }
}

} // verus!
