//! The server-list status exchange: building the status JSON document
//! and the framed status and kick packets.
//!
//! The document layout matches a compact JSON serialization with keys in
//! sorted order; the message-of-the-day is escaped byte for byte as a
//! JSON string serializer does.

use vstd::prelude::*;

use crate::codec::{var_bytes, var_int_bytes, VarInt};

verus! {

// ------------------------------------------------------------------
// Decimal formatting
// ------------------------------------------------------------------

/// 10 raised to `k`.
pub open spec fn pow10(k: nat) -> nat
    decreases k,
{
    if k == 0 {
        1
    } else {
        10 * pow10((k - 1) as nat)
    }
}

/// The decimal digits of an unsigned value, most significant first.
pub open spec fn dec_u(v: nat) -> Seq<u8>
    decreases v,
{
    if v < 10 {
        seq![(0x30 + v) as u8]
    } else {
        dec_u(v / 10) + seq![(0x30 + v % 10) as u8]
    }
}

/// The decimal digits of a signed value, with a leading minus sign when
/// negative.
pub open spec fn dec_bytes(v: int) -> Seq<u8> {
    if v >= 0 {
        dec_u(v as nat)
    } else {
        seq![0x2Du8] + dec_u((-v) as nat)
    }
}

/// `pow10` at the widths the formatter uses.
proof fn lemma_pow10_values()
    ensures
        pow10(10) == 10_000_000_000nat,
{
    reveal_with_fuel(pow10, 11);
}

/// A value below `pow10(k)` prints in at most `k` digits.
proof fn lemma_dec_u_len(v: nat, k: nat)
    requires
        1 <= k,
        v < pow10(k),
    ensures
        dec_u(v).len() <= k,
    decreases k,
{
    if v >= 10 {
        assert(pow10(k) == 10 * pow10((k - 1) as nat));
        lemma_dec_u_len(v / 10, (k - 1) as nat);
    }
}

/// A 32-bit value prints in at most 11 bytes, sign included.
pub proof fn lemma_dec_bytes_len(v: int)
    requires
        -0x8000_0000 <= v < 0x8000_0000,
    ensures
        dec_bytes(v).len() <= 11,
{
    lemma_pow10_values();
    if v >= 0 {
        lemma_dec_u_len(v as nat, 10);
    } else {
        lemma_dec_u_len((-v) as nat, 10);
    }
}

/// Appends the decimal digits of `v`.
fn write_dec_u32(v: u32, out: &mut Vec<u8>)
    ensures
        final(out)@ == old(out)@ + dec_u(v as nat),
    decreases v,
{
    if v >= 10 {
        write_dec_u32(v / 10, out);
    }
    let ghost mid = out@;
    out.push(0x30 + (v % 10) as u8);
    proof {
        if v < 10 {
            assert(out@ =~= old(out)@ + dec_u(v as nat));
        } else {
            assert(out@ =~= mid + seq![(0x30 + (v as nat) % 10) as u8]);
            assert(dec_u(v as nat) =~= dec_u((v as nat) / 10) + seq![(0x30 + (v as nat) % 10) as u8]);
            assert(out@ =~= old(out)@ + dec_u(v as nat));
        }
    }
}

/// Appends the decimal rendering of `v`, sign included.
pub fn write_dec_i32(v: i32, out: &mut Vec<u8>)
    ensures
        final(out)@ == old(out)@ + dec_bytes(v as int),
{
    if v >= 0 {
        write_dec_u32(v as u32, out);
    } else {
        let ghost base = out@;
        out.push(0x2D);
        let mag: u32 = (-(v as i64)) as u32;
        let ghost mid = out@;
        write_dec_u32(mag, out);
        proof {
            assert(mid =~= base + seq![0x2Du8]);
            assert(out@ =~= base + (seq![0x2Du8] + dec_u(mag as nat)));
        }
    }
}

// ------------------------------------------------------------------
// JSON string escaping
// ------------------------------------------------------------------

/// The lowercase hex digit for a value below 16.
pub open spec fn hex_digit(v: nat) -> u8
    recommends
        v < 16,
{
    if v < 10 {
        (0x30 + v) as u8
    } else {
        (0x57 + v) as u8
    }
}

/// How one byte appears inside a JSON string: quote, backslash and
/// control bytes are escaped, everything else passes through.
pub open spec fn esc_byte(b: u8) -> Seq<u8> {
    if b == 0x22 {
        seq![0x5Cu8, 0x22u8]
    } else if b == 0x5C {
        seq![0x5Cu8, 0x5Cu8]
    } else if b == 0x08 {
        seq![0x5Cu8, 0x62u8]
    } else if b == 0x09 {
        seq![0x5Cu8, 0x74u8]
    } else if b == 0x0A {
        seq![0x5Cu8, 0x6Eu8]
    } else if b == 0x0C {
        seq![0x5Cu8, 0x66u8]
    } else if b == 0x0D {
        seq![0x5Cu8, 0x72u8]
    } else if b < 0x20 {
        seq![0x5Cu8, 0x75u8, 0x30u8, 0x30u8, hex_digit((b / 16) as nat), hex_digit((b % 16) as nat)]
    } else {
        seq![b]
    }
}

/// A byte sequence escaped for inclusion in a JSON string.
pub open spec fn json_escaped(b: Seq<u8>) -> Seq<u8>
    decreases b.len(),
{
    if b.len() == 0 {
        Seq::empty()
    } else {
        esc_byte(b[0]) + json_escaped(b.skip(1))
    }
}

/// Escaping distributes over appending one byte.
proof fn lemma_json_escaped_push(b: Seq<u8>, x: u8)
    ensures
        json_escaped(b.push(x)) == json_escaped(b) + esc_byte(x),
    decreases b.len(),
{
    if b.len() == 0 {
        assert(b.push(x).skip(1) =~= Seq::<u8>::empty());
        assert(b.push(x)[0] == x);
        assert(json_escaped(Seq::<u8>::empty()) == Seq::<u8>::empty());
        assert(json_escaped(b.push(x)) == esc_byte(x) + Seq::<u8>::empty());
        assert(esc_byte(x) + Seq::<u8>::empty() =~= esc_byte(x));
        assert(json_escaped(b) + esc_byte(x) =~= esc_byte(x));
    } else {
        assert(b.push(x).skip(1) =~= b.skip(1).push(x));
        lemma_json_escaped_push(b.skip(1), x);
        assert(esc_byte(b[0]) + (json_escaped(b.skip(1)) + esc_byte(x)) =~= (esc_byte(b[0])
            + json_escaped(b.skip(1))) + esc_byte(x));
    }
}

/// Escaping at most sextuples the length.
pub proof fn lemma_json_escaped_len(b: Seq<u8>)
    ensures
        json_escaped(b).len() <= 6 * b.len(),
    decreases b.len(),
{
    if b.len() != 0 {
        lemma_json_escaped_len(b.skip(1));
    }
}

/// Appends `bytes` escaped for a JSON string.
fn write_json_escaped(bytes: &Vec<u8>, out: &mut Vec<u8>)
    ensures
        final(out)@ == old(out)@ + json_escaped(bytes@),
{
    let mut i: usize = 0;
    proof {
        assert(bytes@.take(0) =~= Seq::<u8>::empty());
        assert(out@ =~= old(out)@ + json_escaped(bytes@.take(0)));
    }
    while i < bytes.len()
        invariant
            i <= bytes@.len(),
            out@ == old(out)@ + json_escaped(bytes@.take(i as int)),
        decreases bytes@.len() - i,
    {
        let b = bytes[i];
        let ghost prev = out@;
        if b == 0x22 {
            out.push(0x5C);
            out.push(0x22);
        } else if b == 0x5C {
            out.push(0x5C);
            out.push(0x5C);
        } else if b == 0x08 {
            out.push(0x5C);
            out.push(0x62);
        } else if b == 0x09 {
            out.push(0x5C);
            out.push(0x74);
        } else if b == 0x0A {
            out.push(0x5C);
            out.push(0x6E);
        } else if b == 0x0C {
            out.push(0x5C);
            out.push(0x66);
        } else if b == 0x0D {
            out.push(0x5C);
            out.push(0x72);
        } else if b < 0x20 {
            out.push(0x5C);
            out.push(0x75);
            out.push(0x30);
            out.push(0x30);
            let hi = b / 16;
            let lo = b % 16;
            out.push(if hi < 10 { 0x30 + hi } else { 0x57 + hi });
            out.push(if lo < 10 { 0x30 + lo } else { 0x57 + lo });
        } else {
            out.push(b);
        }
        proof {
            assert(out@ =~= prev + esc_byte(bytes@[i as int]));
            lemma_json_escaped_push(bytes@.take(i as int), bytes@[i as int]);
            assert(bytes@.take(i as int).push(bytes@[i as int]) =~= bytes@.take(i + 1));
            assert(out@ =~= old(out)@ + json_escaped(bytes@.take(i + 1)));
        }
        i = i + 1;
    }
    proof {
        assert(bytes@.take(bytes@.len() as int) =~= bytes@);
    }
}

// ------------------------------------------------------------------
// The status document and its framing
// ------------------------------------------------------------------

/// The bytes of the literal `{"description":{"text":"`.
pub open spec fn status_lit_open() -> Seq<u8> {
    seq![0x7Bu8, 0x22u8, 0x64u8, 0x65u8, 0x73u8, 0x63u8, 0x72u8, 0x69u8, 0x70u8, 0x74u8, 0x69u8, 0x6Fu8, 0x6Eu8, 0x22u8, 0x3Au8, 0x7Bu8, 0x22u8, 0x74u8, 0x65u8, 0x78u8, 0x74u8, 0x22u8, 0x3Au8, 0x22u8]
}

/// Appends that literal.
fn append_status_lit_open(out: &mut Vec<u8>)
    ensures
        final(out)@ == old(out)@ + status_lit_open(),
{
    out.push(0x7B);
    out.push(0x22);
    out.push(0x64);
    out.push(0x65);
    out.push(0x73);
    out.push(0x63);
    out.push(0x72);
    out.push(0x69);
    out.push(0x70);
    out.push(0x74);
    out.push(0x69);
    out.push(0x6F);
    out.push(0x6E);
    out.push(0x22);
    out.push(0x3A);
    out.push(0x7B);
    out.push(0x22);
    out.push(0x74);
    out.push(0x65);
    out.push(0x78);
    out.push(0x74);
    out.push(0x22);
    out.push(0x3A);
    out.push(0x22);
    proof {
        assert(out@ =~= old(out)@ + status_lit_open());
    }
}

/// The bytes of the literal `"},"players":{"max":`.
pub open spec fn status_lit_players() -> Seq<u8> {
    seq![0x22u8, 0x7Du8, 0x2Cu8, 0x22u8, 0x70u8, 0x6Cu8, 0x61u8, 0x79u8, 0x65u8, 0x72u8, 0x73u8, 0x22u8, 0x3Au8, 0x7Bu8, 0x22u8, 0x6Du8, 0x61u8, 0x78u8, 0x22u8, 0x3Au8]
}

/// Appends that literal.
fn append_status_lit_players(out: &mut Vec<u8>)
    ensures
        final(out)@ == old(out)@ + status_lit_players(),
{
    out.push(0x22);
    out.push(0x7D);
    out.push(0x2C);
    out.push(0x22);
    out.push(0x70);
    out.push(0x6C);
    out.push(0x61);
    out.push(0x79);
    out.push(0x65);
    out.push(0x72);
    out.push(0x73);
    out.push(0x22);
    out.push(0x3A);
    out.push(0x7B);
    out.push(0x22);
    out.push(0x6D);
    out.push(0x61);
    out.push(0x78);
    out.push(0x22);
    out.push(0x3A);
    proof {
        assert(out@ =~= old(out)@ + status_lit_players());
    }
}

/// The bytes of the literal `,"online":0,"sample":[]},"version":{"name":"Basalt","protocol":`.
pub open spec fn status_lit_version() -> Seq<u8> {
    seq![0x2Cu8, 0x22u8, 0x6Fu8, 0x6Eu8, 0x6Cu8, 0x69u8, 0x6Eu8, 0x65u8, 0x22u8, 0x3Au8, 0x30u8, 0x2Cu8, 0x22u8, 0x73u8, 0x61u8, 0x6Du8, 0x70u8, 0x6Cu8, 0x65u8, 0x22u8, 0x3Au8, 0x5Bu8, 0x5Du8, 0x7Du8, 0x2Cu8, 0x22u8, 0x76u8, 0x65u8, 0x72u8, 0x73u8, 0x69u8, 0x6Fu8, 0x6Eu8, 0x22u8, 0x3Au8, 0x7Bu8, 0x22u8, 0x6Eu8, 0x61u8, 0x6Du8, 0x65u8, 0x22u8, 0x3Au8, 0x22u8, 0x42u8, 0x61u8, 0x73u8, 0x61u8, 0x6Cu8, 0x74u8, 0x22u8, 0x2Cu8, 0x22u8, 0x70u8, 0x72u8, 0x6Fu8, 0x74u8, 0x6Fu8, 0x63u8, 0x6Fu8, 0x6Cu8, 0x22u8, 0x3Au8]
}

/// Appends that literal.
#[verifier::rlimit(60)]
fn append_status_lit_version(out: &mut Vec<u8>)
    ensures
        final(out)@ == old(out)@ + status_lit_version(),
{
    out.push(0x2C);
    out.push(0x22);
    out.push(0x6F);
    out.push(0x6E);
    out.push(0x6C);
    out.push(0x69);
    out.push(0x6E);
    out.push(0x65);
    out.push(0x22);
    out.push(0x3A);
    out.push(0x30);
    out.push(0x2C);
    out.push(0x22);
    out.push(0x73);
    out.push(0x61);
    out.push(0x6D);
    out.push(0x70);
    out.push(0x6C);
    out.push(0x65);
    out.push(0x22);
    out.push(0x3A);
    out.push(0x5B);
    out.push(0x5D);
    out.push(0x7D);
    out.push(0x2C);
    out.push(0x22);
    out.push(0x76);
    out.push(0x65);
    out.push(0x72);
    out.push(0x73);
    out.push(0x69);
    out.push(0x6F);
    out.push(0x6E);
    out.push(0x22);
    out.push(0x3A);
    out.push(0x7B);
    out.push(0x22);
    out.push(0x6E);
    out.push(0x61);
    out.push(0x6D);
    out.push(0x65);
    out.push(0x22);
    out.push(0x3A);
    out.push(0x22);
    out.push(0x42);
    out.push(0x61);
    out.push(0x73);
    out.push(0x61);
    out.push(0x6C);
    out.push(0x74);
    out.push(0x22);
    out.push(0x2C);
    out.push(0x22);
    out.push(0x70);
    out.push(0x72);
    out.push(0x6F);
    out.push(0x74);
    out.push(0x6F);
    out.push(0x63);
    out.push(0x6F);
    out.push(0x6C);
    out.push(0x22);
    out.push(0x3A);
    proof {
        assert(out@ =~= old(out)@ + status_lit_version());
    }
}

/// The bytes of the literal `}}`.
pub open spec fn status_lit_close() -> Seq<u8> {
    seq![0x7Du8, 0x7Du8]
}

/// Appends that literal.
fn append_status_lit_close(out: &mut Vec<u8>)
    ensures
        final(out)@ == old(out)@ + status_lit_close(),
{
    out.push(0x7D);
    out.push(0x7D);
    proof {
        assert(out@ =~= old(out)@ + status_lit_close());
    }
}

/// The bytes of the literal `{"text":"`.
pub open spec fn kick_lit_open() -> Seq<u8> {
    seq![0x7Bu8, 0x22u8, 0x74u8, 0x65u8, 0x78u8, 0x74u8, 0x22u8, 0x3Au8, 0x22u8]
}

/// Appends that literal.
fn append_kick_lit_open(out: &mut Vec<u8>)
    ensures
        final(out)@ == old(out)@ + kick_lit_open(),
{
    out.push(0x7B);
    out.push(0x22);
    out.push(0x74);
    out.push(0x65);
    out.push(0x78);
    out.push(0x74);
    out.push(0x22);
    out.push(0x3A);
    out.push(0x22);
    proof {
        assert(out@ =~= old(out)@ + kick_lit_open());
    }
}

/// The bytes of the literal `"}`.
pub open spec fn kick_lit_close() -> Seq<u8> {
    seq![0x22u8, 0x7Du8]
}

/// Appends that literal.
fn append_kick_lit_close(out: &mut Vec<u8>)
    ensures
        final(out)@ == old(out)@ + kick_lit_close(),
{
    out.push(0x22);
    out.push(0x7D);
    proof {
        assert(out@ =~= old(out)@ + kick_lit_close());
    }
}

/// The status JSON document: the configured description and player cap,
/// a fixed server name, and the protocol number being reported.
pub open spec fn status_json_bytes(protocol: int, max_players: int, motd: Seq<u8>) -> Seq<u8> {
    status_lit_open() + json_escaped(motd) + status_lit_players() + dec_bytes(max_players)
        + status_lit_version() + dec_bytes(protocol) + status_lit_close()
}

/// The kick reason document: the reason text wrapped as a JSON chat
/// object, byte for byte.
pub open spec fn kick_json_bytes(reason: Seq<u8>) -> Seq<u8> {
    kick_lit_open() + reason + kick_lit_close()
}

/// Builds the status JSON document for one request.
pub fn status_json(protocol: i32, max_players: i32, motd_bytes: &Vec<u8>) -> (j: Vec<u8>)
    ensures
        j@ == status_json_bytes(protocol as int, max_players as int, motd_bytes@),
        j@.len() <= 133 + 6 * motd_bytes@.len(),
{
    let mut j: Vec<u8> = Vec::new();
    append_status_lit_open(&mut j);
    write_json_escaped(motd_bytes, &mut j);
    append_status_lit_players(&mut j);
    write_dec_i32(max_players, &mut j);
    append_status_lit_version(&mut j);
    write_dec_i32(protocol, &mut j);
    append_status_lit_close(&mut j);
    proof {
        assert(j@ =~= status_json_bytes(protocol as int, max_players as int, motd_bytes@));
        lemma_json_escaped_len(motd_bytes@);
        lemma_dec_bytes_len(protocol as int);
        lemma_dec_bytes_len(max_players as int);
    }
    j
}

/// Builds the kick reason document for one disconnect.
pub fn kick_json(reason_bytes: &Vec<u8>) -> (j: Vec<u8>)
    ensures
        j@ == kick_json_bytes(reason_bytes@),
        j@.len() == 11 + reason_bytes@.len(),
{
    let mut j: Vec<u8> = Vec::new();
    append_kick_lit_open(&mut j);
    let mut r = reason_bytes.clone();
    j.append(&mut r);
    append_kick_lit_close(&mut j);
    proof {
        assert(j@ =~= kick_json_bytes(reason_bytes@));
    }
    j
}

} // verus!
