//! The legacy-generation codec: fixed-width big-endian primitives and
//! the position-fixed 64-byte string field of 32 UTF-16 code units.
//!
//! Shorter strings are zero-padded to the fixed width; strings needing
//! more than 32 units are rejected rather than truncated.

use vstd::prelude::*;

use vstd::slice::slice_to_vec;

use crate::reader::ByteReader;
use crate::types::DecodeError;

verus! {

/// How many UTF-16 code units a legacy string field holds.
pub open spec fn legacy_units() -> nat {
    32
}

/// What `str::encode_utf16` returns: the UTF-16 code units of the
/// characters. A function of the characters alone.
pub uninterp spec fn utf16_units(s: Seq<char>) -> Seq<u16>;

/// What `String::from_utf16` returns: the characters the units encode,
/// or nothing when the units are not valid UTF-16.
pub uninterp spec fn utf16_chars(u: Seq<u16>) -> Option<Seq<char>>;

/// Relies on `str::encode_utf16`: it returns the UTF-16 code units of
/// the string, `String::from_utf16` decodes them back to the same
/// characters (std documents the round trip), and the unit 0 appears
/// exactly for the NUL character, which no other character encodes to.
#[verifier::external_body]
fn string_to_utf16(s: &String) -> (r: Vec<u16>)
    ensures
        r@ == utf16_units(s@),
        utf16_chars(r@) == Some(s@),
        (forall|i: int| 0 <= i < s@.len() ==> s@[i] != '\u{0}') ==> (forall|j: int|
            0 <= j < r@.len() ==> r@[j] != 0),
{
    s.encode_utf16().collect()
}

/// Relies on `String::from_utf16`: it succeeds exactly on valid UTF-16
/// and returns the characters the units encode.
#[verifier::external_body]
fn utf16_to_string(v: &Vec<u16>) -> (r: Option<String>)
    ensures
        match r {
            Some(s) => utf16_chars(v@) == Some(s@),
            None => utf16_chars(v@) is None,
        },
{
    match String::from_utf16(v.as_slice()) {
        Ok(s) => Some(s),
        Err(_) => None,
    }
}

/// Code units padded with zeros to the fixed field width.
pub open spec fn legacy_pad(u: Seq<u16>) -> Seq<u16>
    recommends
        u.len() <= legacy_units(),
{
    u + Seq::new((legacy_units() - u.len()) as nat, |i: int| 0u16)
}

/// Code units laid out as big-endian byte pairs.
pub open spec fn utf16_be_bytes(u: Seq<u16>) -> Seq<u8>
    decreases u.len(),
{
    if u.len() == 0 {
        Seq::empty()
    } else {
        seq![(u[0] / 256) as u8, (u[0] % 256) as u8] + utf16_be_bytes(u.skip(1))
    }
}

/// Byte pairs read back as big-endian code units; a trailing odd byte
/// is ignored.
pub open spec fn be_units(b: Seq<u8>) -> Seq<u16>
    decreases b.len(),
{
    if b.len() < 2 {
        Seq::empty()
    } else {
        seq![(b[0] as nat * 256 + b[1] as nat) as u16] + be_units(b.skip(2))
    }
}

/// Code units with the zero padding at the end removed.
pub open spec fn strip_trailing_zeros(u: Seq<u16>) -> Seq<u16>
    decreases u.len(),
{
    if u.len() == 0 || u.last() != 0 {
        u
    } else {
        strip_trailing_zeros(u.drop_last())
    }
}

/// The 64 wire bytes of a legacy string field.
pub open spec fn legacy_string_bytes(s: Seq<char>) -> Seq<u8>
    recommends
        utf16_units(s).len() <= legacy_units(),
{
    utf16_be_bytes(legacy_pad(utf16_units(s)))
}

/// The outcome of decoding a legacy string field from the front of `b`:
/// the characters of the unpadded units, or why they could not be read.
pub open spec fn legacy_string_decode(b: Seq<u8>) -> crate::codec::StrDecoded {
    if b.len() < 2 * legacy_units() {
        crate::codec::StrDecoded::Fail { e: DecodeError::Eof }
    } else {
        match utf16_chars(strip_trailing_zeros(be_units(b.take(2 * legacy_units() as int)))) {
            Some(cs) => crate::codec::StrDecoded::Value { s: cs, n: 2 * legacy_units() },
            None => crate::codec::StrDecoded::Fail { e: DecodeError::InvalidText },
        }
    }
}

// ------------------------------------------------------------------
// Lemmas
// ------------------------------------------------------------------

/// The byte layout is two bytes per unit.
pub proof fn lemma_utf16_be_bytes_len(u: Seq<u16>)
    ensures
        utf16_be_bytes(u).len() == 2 * u.len(),
    decreases u.len(),
{
    if u.len() != 0 {
        lemma_utf16_be_bytes_len(u.skip(1));
    }
}

/// Laying units out as byte pairs distributes over appending one unit.
proof fn lemma_utf16_be_bytes_push(u: Seq<u16>, x: u16)
    ensures
        utf16_be_bytes(u.push(x)) == utf16_be_bytes(u) + seq![(x / 256) as u8, (x % 256) as u8],
    decreases u.len(),
{
    if u.len() == 0 {
        assert(u.push(x).skip(1) =~= Seq::<u16>::empty());
        assert(u.push(x)[0] == x);
        assert(utf16_be_bytes(Seq::<u16>::empty()) == Seq::<u8>::empty());
        assert(utf16_be_bytes(u.push(x)) == seq![(x / 256) as u8, (x % 256) as u8]
            + Seq::<u8>::empty());
        assert(seq![(x / 256) as u8, (x % 256) as u8] + Seq::<u8>::empty() =~= seq![
            (x / 256) as u8,
            (x % 256) as u8,
        ]);
        assert(utf16_be_bytes(u) + seq![(x / 256) as u8, (x % 256) as u8] =~= seq![
            (x / 256) as u8,
            (x % 256) as u8,
        ]);
    } else {
        assert(u.push(x).skip(1) =~= u.skip(1).push(x));
        lemma_utf16_be_bytes_push(u.skip(1), x);
        assert(seq![(u[0] / 256) as u8, (u[0] % 256) as u8] + (utf16_be_bytes(u.skip(1)) + seq![
            (x / 256) as u8,
            (x % 256) as u8,
        ]) =~= (seq![(u[0] / 256) as u8, (u[0] % 256) as u8] + utf16_be_bytes(u.skip(1))) + seq![
            (x / 256) as u8,
            (x % 256) as u8,
        ]);
    }
}

/// Reading byte pairs back undoes laying units out.
proof fn lemma_be_units_round_trip(u: Seq<u16>)
    ensures
        be_units(utf16_be_bytes(u)) == u,
    decreases u.len(),
{
    let b = utf16_be_bytes(u);
    if u.len() == 0 {
        assert(be_units(b) =~= u);
    } else {
        lemma_utf16_be_bytes_len(u);
        assert(b[0] == (u[0] / 256) as u8);
        assert(b[1] == (u[0] % 256) as u8);
        assert(b.skip(2) =~= utf16_be_bytes(u.skip(1)));
        lemma_be_units_round_trip(u.skip(1));
        assert((u[0] / 256) as nat * 256 + (u[0] % 256) as nat == u[0] as nat);
        assert(be_units(b) =~= u);
    }
}

/// Stripping the padding recovers units that do not themselves end in
/// zero.
proof fn lemma_strip_pad(u: Seq<u16>)
    requires
        u.len() <= legacy_units(),
        u.len() == 0 || u.last() != 0,
    ensures
        strip_trailing_zeros(legacy_pad(u)) == u,
    decreases legacy_units() - u.len(),
{
    let p = legacy_pad(u);
    if u.len() == legacy_units() {
        assert(p =~= u);
    } else {
        assert(p.last() == 0);
        assert(p.drop_last() =~= u + Seq::new((legacy_units() - u.len() - 1) as nat, |i: int| 0u16));
        lemma_strip_pad_general(u, (legacy_units() - u.len() - 1) as nat);
        assert(strip_trailing_zeros(p) == strip_trailing_zeros(p.drop_last()));
    }
}

/// Stripping any number of appended zero units recovers units that do
/// not themselves end in zero.
proof fn lemma_strip_pad_general(u: Seq<u16>, k: nat)
    requires
        u.len() == 0 || u.last() != 0,
    ensures
        strip_trailing_zeros(u + Seq::new(k, |i: int| 0u16)) == u,
    decreases k,
{
    let p = u + Seq::new(k, |i: int| 0u16);
    if k == 0 {
        assert(p =~= u);
        if u.len() != 0 {
            assert(strip_trailing_zeros(u) == u);
        }
    } else {
        assert(p.last() == 0);
        assert(p.drop_last() =~= u + Seq::new((k - 1) as nat, |i: int| 0u16));
        lemma_strip_pad_general(u, (k - 1) as nat);
    }
}

// ------------------------------------------------------------------
// Executable codec
// ------------------------------------------------------------------

/// Encodes a legacy string field: 32 big-endian UTF-16 code units,
/// zero-padded. Fails, appending nothing, exactly when the string needs
/// more than 32 units.
pub fn legacy_string_write(s: &String, out: &mut Vec<u8>) -> (ok: bool)
    ensures
        ok <==> utf16_units(s@).len() <= legacy_units(),
        ok ==> final(out)@ == old(out)@ + legacy_string_bytes(s@),
        !ok ==> final(out)@ == old(out)@,
{
    let units = string_to_utf16(s);
    if units.len() > 32 {
        return false;
    }
    let mut padded = units;
    while padded.len() < 32
        invariant
            padded@.len() <= 32,
            utf16_units(s@).len() <= 32,
            padded@ == utf16_units(s@) + Seq::new(
                (padded@.len() - utf16_units(s@).len()) as nat,
                |i: int| 0u16,
            ),
        decreases 32 - padded@.len(),
    {
        padded.push(0);
        proof {
            assert(padded@ =~= utf16_units(s@) + Seq::new(
                (padded@.len() - utf16_units(s@).len()) as nat,
                |i: int| 0u16,
            ));
        }
    }
    proof {
        assert(padded@ =~= legacy_pad(utf16_units(s@)));
    }
    let ghost base = out@;
    let mut i: usize = 0;
    proof {
        assert(padded@.take(0) =~= Seq::<u16>::empty());
        assert(out@ =~= base + utf16_be_bytes(padded@.take(0)));
    }
    while i < padded.len()
        invariant
            i <= padded@.len(),
            out@ == base + utf16_be_bytes(padded@.take(i as int)),
        decreases padded@.len() - i,
    {
        let x = padded[i];
        let ghost prev = out@;
        out.push((x / 256) as u8);
        out.push((x % 256) as u8);
        proof {
            assert(out@ =~= prev + seq![(x / 256) as u8, (x % 256) as u8]);
            lemma_utf16_be_bytes_push(padded@.take(i as int), padded@[i as int]);
            assert(padded@.take(i as int).push(padded@[i as int]) =~= padded@.take(i + 1));
        }
        i = i + 1;
    }
    proof {
        assert(padded@.take(padded@.len() as int) =~= padded@);
    }
    true
}

/// Decodes a legacy string field: consumes exactly 64 bytes, strips the
/// zero padding, and decodes the remaining units as UTF-16.
pub fn legacy_string_read(r: &mut ByteReader) -> (res: Result<String, DecodeError>)
    requires
        old(r).wf(),
    ensures
        final(r).wf(),
        match legacy_string_decode(old(r).remaining()) {
            crate::codec::StrDecoded::Value { s, n } => {
                &&& res is Ok
                &&& res->Ok_0@ == s
                &&& final(r).remaining() == old(r).remaining().skip(n as int)
            },
            crate::codec::StrDecoded::Fail { e } => res == Err::<String, DecodeError>(e),
        },
{
    let ghost b = old(r).remaining();
    let bytes = match r.take(64) {
        Some(v) => v,
        None => {
            return Err(DecodeError::Eof);
        },
    };
    let mut units: Vec<u16> = Vec::new();
    let mut i: usize = 0;
    proof {
        assert(bytes@.take(0) =~= Seq::<u8>::empty());
        assert(units@ =~= be_units(bytes@.take(0)));
    }
    while i < 32
        invariant
            i <= 32,
            bytes@.len() == 64,
            units@ == be_units(bytes@.take(2 * i as int)),
            units@.len() == i,
        decreases 32 - i,
    {
        let hi = bytes[2 * i];
        let lo = bytes[2 * i + 1];
        let u: u16 = (hi as u16) * 256 + (lo as u16);
        units.push(u);
        proof {
            lemma_be_units_take_push(bytes@, i as int);
        }
        i = i + 1;
    }
    proof {
        assert(bytes@.take(64) =~= bytes@);
        assert(bytes@ =~= b.take(64));
    }
    let mut stripped = units;
    while stripped.len() > 0 && stripped[stripped.len() - 1] == 0
        invariant
            strip_trailing_zeros(stripped@) == strip_trailing_zeros(be_units(b.take(64))),
        decreases stripped@.len(),
    {
        let ghost prev = stripped@;
        stripped.pop();
        proof {
            assert(stripped@ =~= prev.drop_last());
        }
    }
    proof {
        assert(strip_trailing_zeros(stripped@) == stripped@);
    }
    match utf16_to_string(&stripped) {
        Some(s) => Ok(s),
        None => Err(DecodeError::InvalidText),
    }
}

/// Reading one more byte pair extends the decoded units by one.
proof fn lemma_be_units_take_push(b: Seq<u8>, i: int)
    requires
        0 <= i,
        2 * i + 2 <= b.len(),
    ensures
        be_units(b.take(2 * i + 2)) == be_units(b.take(2 * i)).push(
            (b[2 * i] as nat * 256 + b[2 * i + 1] as nat) as u16,
        ),
    decreases i,
{
    if i == 0 {
        assert(b.take(2)[0] == b[0]);
        assert(b.take(2)[1] == b[1]);
        assert(b.take(2).skip(2) =~= Seq::<u8>::empty());
        assert(be_units(Seq::<u8>::empty()) == Seq::<u16>::empty());
        assert(be_units(b.take(2)) == seq![(b.take(2)[0] as nat * 256 + b.take(2)[1] as nat) as u16]
            + Seq::<u16>::empty());
        assert(be_units(b.take(2)) =~= seq![(b[0] as nat * 256 + b[1] as nat) as u16]);
        assert(be_units(b.take(0)) =~= Seq::<u16>::empty());
        assert(Seq::<u16>::empty().push((b[0] as nat * 256 + b[1] as nat) as u16) =~= seq![
            (b[0] as nat * 256 + b[1] as nat) as u16,
        ]);
    } else {
        let t = b.take(2 * i + 2);
        assert(t[0] == b[0]);
        assert(t[1] == b[1]);
        assert(t.skip(2) =~= b.skip(2).take(2 * i));
        assert(b.take(2 * i).skip(2) =~= b.skip(2).take(2 * i - 2));
        lemma_be_units_take_push(b.skip(2), i - 1);
        assert(b.skip(2)[2 * (i - 1)] == b[2 * i]);
        assert(b.skip(2)[2 * (i - 1) + 1] == b[2 * i + 1]);
        assert(be_units(t) =~= be_units(b.take(2 * i)).push(
            (b[2 * i] as nat * 256 + b[2 * i + 1] as nat) as u16,
        ));
    }
}

// ------------------------------------------------------------------
// The round-trip law
// ------------------------------------------------------------------

/// Encoding a string of at most 32 UTF-16 code units whose last unit is
/// not zero, then decoding the field, returns the original characters
/// and consumes exactly the 64-byte field.
pub proof fn lemma_legacy_string_round_trip(s: Seq<char>)
    requires
        utf16_units(s).len() <= legacy_units(),
        utf16_units(s).len() == 0 || utf16_units(s).last() != 0,
        utf16_chars(utf16_units(s)) == Some(s),
    ensures
        legacy_string_decode(legacy_string_bytes(s)) == (crate::codec::StrDecoded::Value {
            s,
            n: 2 * legacy_units(),
        }),
{
    let u = utf16_units(s);
    let p = legacy_pad(u);
    lemma_utf16_be_bytes_len(p);
    let b = legacy_string_bytes(s);
    assert(b.take(64) =~= b);
    lemma_be_units_round_trip(p);
    lemma_strip_pad(u);
}


// ------------------------------------------------------------------
// The fixed 1024-byte chunk field
// ------------------------------------------------------------------

/// How many bytes a legacy chunk field holds.
pub open spec fn chunk_bytes() -> nat {
    1024
}

/// Reads a legacy chunk field: exactly 1024 bytes.
pub fn read_chunk(r: &mut ByteReader) -> (res: Result<Vec<u8>, DecodeError>)
    requires
        old(r).wf(),
    ensures
        final(r).wf(),
        match res {
            Ok(v) => {
                &&& old(r).remaining().len() >= chunk_bytes()
                &&& v@ == old(r).remaining().take(chunk_bytes() as int)
                &&& final(r).remaining() == old(r).remaining().skip(chunk_bytes() as int)
            },
            Err(e) => {
                &&& e == DecodeError::Eof
                &&& old(r).remaining().len() < chunk_bytes()
            },
        },
{
    match r.take(1024) {
        Some(v) => Ok(v),
        None => Err(DecodeError::Eof),
    }
}

/// Writes a legacy chunk field: exactly 1024 bytes.
pub fn write_chunk(data: &Vec<u8>, out: &mut Vec<u8>)
    requires
        data@.len() == chunk_bytes(),
    ensures
        final(out)@ == old(out)@ + data@,
{
    let mut copy = slice_to_vec(data.as_slice());
    out.append(&mut copy);
}

} // verus!
