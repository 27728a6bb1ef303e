//! The wire codec: variable-length integers, fixed-width big-endian
//! primitives, and length-prefixed strings.
//!
//! Every encode operation appends bytes to a `Vec<u8>`; every decode
//! operation consumes bytes from a `ByteReader`. The byte layout of each
//! value is pinned by a specification function, and decoding is related
//! to encoding by round-trip lemmas.

use vstd::prelude::*;

use vstd::string::StrSliceExecFns;
use vstd::utf8::{decode_utf8, encode_utf8, encode_utf8_decode_utf8, encode_utf8_valid_utf8,
    valid_utf8};

use crate::reader::ByteReader;
use crate::types::DecodeError;

verus! {

// ------------------------------------------------------------------
// Specification: variable-length integers
// ------------------------------------------------------------------

/// 128 raised to `k`: the place value of the `k`-th 7-bit group.
pub open spec fn pow128(k: nat) -> nat
    decreases k,
{
    if k == 0 {
        1
    } else {
        128 * pow128((k - 1) as nat)
    }
}

/// The variable-length encoding of `v`: 7 data bits per byte, least
/// significant group first, continuation flag in the high bit.
pub open spec fn var_bytes(v: nat) -> Seq<u8>
    decreases v,
{
    if v < 128 {
        seq![v as u8]
    } else {
        seq![(v % 128 + 128) as u8] + var_bytes(v / 128)
    }
}

/// How many bytes `var_bytes(v)` holds.
pub open spec fn var_len(v: nat) -> nat
    decreases v,
{
    if v < 128 {
        1
    } else {
        (1 + var_len(v / 128)) as nat
    }
}

/// The number of leading continuation-flagged bytes of `s`.
pub open spec fn cont_count(s: Seq<u8>) -> nat
    decreases s.len(),
{
    if s.len() == 0 || s[0] < 128 {
        0
    } else {
        (1 + cont_count(s.skip(1))) as nat
    }
}

/// The unsigned value accumulated from the 7-bit groups of `s`, least
/// significant group first.
pub open spec fn var_val(s: Seq<u8>) -> nat
    decreases s.len(),
{
    if s.len() == 0 {
        0
    } else {
        ((s[0] % 128) + 128 * var_val(s.skip(1))) as nat
    }
}

/// The outcome of decoding a variable-length integer capped at `max`
/// bytes from the front of a byte sequence.
pub enum VarDecoded {
    /// A terminated encoding within the cap: its value and the number of
    /// bytes it occupies.
    Value { v: nat, n: nat },
    /// The first `max` bytes all carry the continuation flag.
    TooLarge,
    /// The sequence ended before a terminating byte.
    Eof,
}

/// Decoding a variable-length integer of at most `max` bytes from the
/// front of `s`.
pub open spec fn var_decode(s: Seq<u8>, max: nat) -> VarDecoded {
    let k = cont_count(s);
    if k >= max {
        VarDecoded::TooLarge
    } else if k < s.len() {
        VarDecoded::Value { v: var_val(s.take(k as int + 1)), n: (k + 1) as nat }
    } else {
        VarDecoded::Eof
    }
}

// ------------------------------------------------------------------
// Specification: two's-complement reinterpretation
// ------------------------------------------------------------------

/// The unsigned 32-bit pattern of a signed value.
pub open spec fn to_unsigned32(v: int) -> nat
    recommends
        -0x8000_0000 <= v < 0x8000_0000,
{
    if v >= 0 {
        v as nat
    } else {
        (v + 0x1_0000_0000) as nat
    }
}

/// The signed reading of an unsigned accumulation, truncated to 32 bits.
pub open spec fn to_signed32(v: nat) -> int {
    let m = v % 0x1_0000_0000;
    if m < 0x8000_0000 {
        m as int
    } else {
        m - 0x1_0000_0000
    }
}

/// The unsigned 64-bit pattern of a signed value.
pub open spec fn to_unsigned64(v: int) -> nat
    recommends
        -0x8000_0000_0000_0000 <= v < 0x8000_0000_0000_0000,
{
    if v >= 0 {
        v as nat
    } else {
        (v + 0x1_0000_0000_0000_0000) as nat
    }
}

/// The signed reading of an unsigned accumulation, truncated to 64 bits.
pub open spec fn to_signed64(v: nat) -> int {
    let m = v % 0x1_0000_0000_0000_0000;
    if m < 0x8000_0000_0000_0000 {
        m as int
    } else {
        m - 0x1_0000_0000_0000_0000
    }
}

/// The wire bytes of a `VarInt` with signed value `v`.
pub open spec fn var_int_bytes(v: int) -> Seq<u8>
    recommends
        -0x8000_0000 <= v < 0x8000_0000,
{
    var_bytes(to_unsigned32(v))
}

/// The wire bytes of a `VarLong` with signed value `v`.
pub open spec fn var_long_bytes(v: int) -> Seq<u8>
    recommends
        -0x8000_0000_0000_0000 <= v < 0x8000_0000_0000_0000,
{
    var_bytes(to_unsigned64(v))
}

// ------------------------------------------------------------------
// Lemmas about the variable-length encoding
// ------------------------------------------------------------------

/// A sequence cannot have more leading continuation bytes than bytes.
pub proof fn lemma_cont_count_le_len(s: Seq<u8>)
    ensures
        cont_count(s) <= s.len(),
    decreases s.len(),
{
    if s.len() != 0 && s[0] >= 128 {
        lemma_cont_count_le_len(s.skip(1));
    }
}

/// Powers of 128 are at least 1.
pub proof fn lemma_pow128_pos(k: nat)
    ensures
        pow128(k) >= 1,
    decreases k,
{
    if k > 0 {
        lemma_pow128_pos((k - 1) as nat);
    }
}

/// Powers of 128 grow with the exponent.
pub proof fn lemma_pow128_mono(a: nat, b: nat)
    requires
        a <= b,
    ensures
        pow128(a) <= pow128(b),
    decreases b,
{
    if a < b {
        lemma_pow128_mono(a, (b - 1) as nat);
        lemma_pow128_pos((b - 1) as nat);
    }
}

/// The accumulated value of `s` is below the place value past its end.
pub proof fn lemma_var_val_bound(s: Seq<u8>)
    ensures
        var_val(s) < pow128(s.len()),
    decreases s.len(),
{
    if s.len() != 0 {
        lemma_var_val_bound(s.skip(1));
    }
}

/// `var_len` gives the length of `var_bytes`.
pub proof fn lemma_var_bytes_len(v: nat)
    ensures
        var_bytes(v).len() == var_len(v),
    decreases v,
{
    if v >= 128 {
        lemma_var_bytes_len(v / 128);
    }
}

/// Every value needs at least one byte.
pub proof fn lemma_var_len_pos(v: nat)
    ensures
        var_len(v) >= 1,
{
}

/// A value below `pow128(k)` encodes in at most `k` bytes.
pub proof fn lemma_var_len_le(v: nat, k: nat)
    requires
        1 <= k,
        v < pow128(k),
    ensures
        var_len(v) <= k,
    decreases k,
{
    if v >= 128 {
        assert(pow128(k) == 128 * pow128((k - 1) as nat));
        lemma_var_len_le(v / 128, (k - 1) as nat);
    }
}

/// A value with a 32-bit pattern encodes in at most 5 bytes.
pub proof fn lemma_var_bytes_small(v: nat)
    requires
        v < 0x1_0000_0000,
    ensures
        var_bytes(v).len() <= 5,
{
    lemma_pow128_values();
    lemma_var_len_le(v, 5);
    lemma_var_bytes_len(v);
}

/// Appending a byte to the groups adds its contribution at the next
/// place value.
proof fn lemma_var_val_push(s: Seq<u8>, b: u8)
    ensures
        var_val(s.push(b)) == var_val(s) + (b % 128) * pow128(s.len()),
    decreases s.len(),
{
    if s.len() == 0 {
        assert(s.push(b).skip(1) =~= Seq::<u8>::empty());
        assert(var_val(s.push(b)) == (b % 128) + 128 * var_val(Seq::<u8>::empty()));
        assert(var_val(s) == 0);
        assert(pow128(s.len()) == 1);
        assert(((b % 128) as int) * 1 == (b % 128) as int);
    } else {
        assert(s.push(b).skip(1) =~= s.skip(1).push(b));
        lemma_var_val_push(s.skip(1), b);
        let t = s.skip(1);
        let m = pow128(t.len());
        assert(pow128(s.len()) == 128 * m);
        assert(var_val(s.push(b)) == (s[0] % 128) + 128 * var_val(t.push(b)));
        assert(var_val(t.push(b)) == var_val(t) + (b % 128) * m);
        assert(var_val(s) == (s[0] % 128) + 128 * var_val(t));
        assert(var_val(s.push(b)) == var_val(s) + (b % 128) * pow128(s.len())) by (nonlinear_arith)
            requires
                var_val(s.push(b)) == (s[0] % 128) + 128 * var_val(t.push(b)),
                var_val(t.push(b)) == var_val(t) + (b % 128) * m,
                var_val(s) == (s[0] % 128) + 128 * var_val(t),
                pow128(s.len()) == 128 * m,
        ;
    }
}

/// When the first `k` bytes carry the continuation flag and the byte at
/// `k` does not, `k` is exactly the continuation count.
proof fn lemma_cont_count_exact(s: Seq<u8>, k: nat)
    requires
        k < s.len(),
        forall|i: int| 0 <= i < k ==> s[i] >= 128,
        s[k as int] < 128,
    ensures
        cont_count(s) == k,
    decreases k,
{
    if k > 0 {
        lemma_cont_count_exact(s.skip(1), (k - 1) as nat);
    }
}

/// When the first `k` bytes all carry the continuation flag, the
/// continuation count is at least `k`.
proof fn lemma_cont_count_at_least(s: Seq<u8>, k: nat)
    requires
        k <= s.len(),
        forall|i: int| 0 <= i < k ==> s[i] >= 128,
    ensures
        cont_count(s) >= k,
    decreases k,
{
    if k > 0 {
        lemma_cont_count_at_least(s.skip(1), (k - 1) as nat);
    }
}

/// Decoding an encoding followed by anything yields the encoded value
/// and consumes exactly the encoding.
pub proof fn lemma_var_round_trip(v: nat, max: nat, rest: Seq<u8>)
    requires
        var_len(v) <= max,
    ensures
        var_decode(var_bytes(v) + rest, max) == (VarDecoded::Value { v, n: var_len(v) }),
    decreases v,
{
    lemma_var_bytes_len(v);
    let s = var_bytes(v) + rest;
    if v < 128 {
        assert(s[0] == v as u8);
        assert(cont_count(s) == 0);
        assert(s.take(1) =~= seq![v as u8]);
        assert(s.take(1).skip(1) =~= Seq::<u8>::empty());
        assert(var_val(Seq::<u8>::empty()) == 0);
        assert(var_val(s.take(1)) == (s.take(1)[0] % 128) + 128 * var_val(s.take(1).skip(1)));
        assert(var_val(s.take(1)) == v);
    } else {
        let b0: u8 = (v % 128 + 128) as u8;
        assert(s[0] == b0);
        assert(s.skip(1) =~= var_bytes(v / 128) + rest);
        lemma_var_round_trip(v / 128, (max - 1) as nat, rest);
        lemma_var_bytes_len(v / 128);
        let k = cont_count(s.skip(1));
        assert(k == var_len(v / 128) - 1);
        assert(cont_count(s) == 1 + k);
        assert(s.take(cont_count(s) as int + 1).skip(1) =~= s.skip(1).take(k as int + 1));
        assert(var_val(s.take(cont_count(s) as int + 1)) == (b0 % 128) + 128 * var_val(
            s.skip(1).take(k as int + 1),
        ));
        assert(var_val(s.skip(1).take(k as int + 1)) == v / 128);
        assert((b0 % 128) + 128 * (v / 128) == v);
    }
}

/// A run of `max` continuation-flagged bytes decodes to the oversize
/// error, whatever follows.
pub proof fn lemma_var_too_large(s: Seq<u8>, max: nat)
    requires
        max <= s.len(),
        forall|i: int| 0 <= i < max ==> s[i] >= 128,
    ensures
        var_decode(s, max) is TooLarge,
{
    lemma_cont_count_at_least(s, max);
}

// ------------------------------------------------------------------
// Executable helpers shared by `VarInt` and `VarLong`
// ------------------------------------------------------------------

/// `pow128(9)`, the largest place value a 10-byte encoding can reach.
proof fn lemma_pow128_values()
    ensures
        pow128(4) == 0x1000_0000nat,
        pow128(5) == 0x8_0000_0000nat,
        pow128(9) == 0x8000_0000_0000_0000nat,
        pow128(10) == 0x40_0000_0000_0000_0000nat,
{
    reveal_with_fuel(pow128, 11);
}

/// Reads a variable-length unsigned accumulation of at most `max` bytes.
fn read_var(r: &mut ByteReader, max: usize) -> (res: Result<u128, DecodeError>)
    requires
        old(r).wf(),
        1 <= max <= 10,
    ensures
        final(r).wf(),
        match var_decode(old(r).remaining(), max as nat) {
            VarDecoded::Value { v, n } => {
                &&& res is Ok
                &&& res->Ok_0 as nat == v
                &&& final(r).remaining() == old(r).remaining().skip(n as int)
            },
            VarDecoded::TooLarge => {
                &&& res == Err::<u128, DecodeError>(DecodeError::TooLarge)
                &&& final(r).remaining() == old(r).remaining().skip(max as int)
            },
            VarDecoded::Eof => {
                &&& res == Err::<u128, DecodeError>(DecodeError::Eof)
                &&& final(r).remaining().len() == 0
            },
        },
{
    let ghost s0 = r.remaining();
    let mut acc: u128 = 0;
    let mut mult: u128 = 1;
    let mut count: usize = 0;
    proof {
        assert(s0.take(0) =~= Seq::<u8>::empty());
    }
    loop
        invariant
            r.wf(),
            s0 == old(r).remaining(),
            1 <= max <= 10,
            count < max,
            count <= s0.len(),
            r.remaining() == s0.skip(count as int),
            forall|i: int| 0 <= i < count ==> s0[i] >= 128,
            acc as nat == var_val(s0.take(count as int)),
            mult as nat == pow128(count as nat),
            mult <= 0x8000_0000_0000_0000,
        decreases max - count,
    {
        match r.next() {
            None => {
                proof {
                    assert(s0.len() == count);
                    lemma_cont_count_at_least(s0, count as nat);
                    lemma_cont_count_le_len(s0);
                    assert(cont_count(s0) == count);
                }
                return Err(DecodeError::Eof);
            },
            Some(b) => {
                proof {
                    assert(s0[count as int] == b);
                    assert(s0.skip(count as int).skip(1) =~= s0.skip(count + 1));
                    lemma_var_val_push(s0.take(count as int), b);
                    assert(s0.take(count as int).push(b) =~= s0.take(count + 1));
                    lemma_var_val_bound(s0.take(count as int));
                    assert((b % 128) as nat * pow128(count as nat) + var_val(
                        s0.take(count as int),
                    ) < 128 * pow128(count as nat)) by (nonlinear_arith)
                        requires
                            ((b % 128) as nat) < 128,
                            var_val(s0.take(count as int)) < pow128(count as nat),
                    ;
                }
                let term: u128 = (b % 128) as u128 * mult;
                acc = acc + term;
                count = count + 1;
                proof {
                    assert(acc as nat == var_val(s0.take(count as int)));
                }
                if b < 128 {
                    proof {
                        lemma_cont_count_exact(s0, (count - 1) as nat);
                    }
                    return Ok(acc);
                }
                if count == max {
                    proof {
                        lemma_cont_count_at_least(s0, max as nat);
                    }
                    return Err(DecodeError::TooLarge);
                }
                proof {
                    assert(pow128(count as nat) == 128 * pow128((count - 1) as nat));
                    lemma_pow128_mono(count as nat, 9);
                    lemma_pow128_values();
                }
                mult = mult * 128;
            },
        }
    }
}

/// Appends the variable-length encoding of `v`.
fn write_var(v: u128, out: &mut Vec<u8>)
    ensures
        final(out)@ == old(out)@ + var_bytes(v as nat),
{
    let ghost base = old(out)@.len() as int;
    let mut u = v;
    proof {
        assert(out@.skip(base) =~= Seq::<u8>::empty());
        assert(var_bytes(v as nat) =~= out@.skip(base) + var_bytes(u as nat));
    }
    loop
        invariant
            base == old(out)@.len() as int,
            out@.len() >= base,
            out@.take(base) == old(out)@,
            var_bytes(v as nat) == out@.skip(base) + var_bytes(u as nat),
        decreases u,
    {
        let ghost prev = out@;
        if u < 128 {
            out.push(u as u8);
            proof {
                assert(out@.skip(base) =~= prev.skip(base).push(u as u8));
                assert(var_bytes(u as nat) =~= seq![u as u8]);
                assert(prev.skip(base).push(u as u8) =~= prev.skip(base) + seq![u as u8]);
                assert(out@.skip(base) =~= prev.skip(base) + var_bytes(u as nat));
                assert(out@.take(base) =~= prev.take(base));
                assert(out@ =~= out@.take(base) + out@.skip(base));
                assert(out@ =~= old(out)@ + var_bytes(v as nat));
            }
            return ;
        } else {
            let b: u8 = (u % 128 + 128) as u8;
            let ghost uprev = u as nat;
            out.push(b);
            u = u / 128;
            proof {
                assert(var_bytes(uprev) =~= seq![b] + var_bytes(u as nat));
                assert(out@.skip(base) =~= prev.skip(base).push(b));
                assert(prev.skip(base).push(b) + var_bytes(u as nat) =~= prev.skip(base) + (
                seq![b] + var_bytes(u as nat)));
                assert(out@.take(base) =~= prev.take(base));
            }
        }
    }
}

/// Converts a signed 32-bit value to its unsigned bit pattern.
fn i32_to_u32_twos(v: i32) -> (r: u32)
    ensures
        r as nat == to_unsigned32(v as int),
{
    if v >= 0 {
        v as u32
    } else {
        ((v as i64) + 0x1_0000_0000) as u32
    }
}

/// Converts an unsigned 32-bit pattern to its signed reading.
fn u32_to_i32_twos(v: u32) -> (r: i32)
    ensures
        r as int == to_signed32(v as nat),
{
    if v < 0x8000_0000 {
        v as i32
    } else {
        let d = (0xFFFF_FFFFu32 - v) as i32;
        -d - 1
    }
}

/// Converts a signed 64-bit value to its unsigned bit pattern.
fn i64_to_u64_twos(v: i64) -> (r: u64)
    ensures
        r as nat == to_unsigned64(v as int),
{
    if v >= 0 {
        v as u64
    } else {
        ((v as i128) + 0x1_0000_0000_0000_0000) as u64
    }
}

/// Converts an unsigned 64-bit pattern to its signed reading.
fn u64_to_i64_twos(v: u64) -> (r: i64)
    ensures
        r as int == to_signed64(v as nat),
{
    if v < 0x8000_0000_0000_0000 {
        v as i64
    } else {
        let d = (0xFFFF_FFFF_FFFF_FFFFu64 - v) as i64;
        -d - 1
    }
}

// ------------------------------------------------------------------
// VarInt and VarLong
// ------------------------------------------------------------------

/// A 32-bit signed integer carried on the wire in 1 to 5 bytes.
pub struct VarInt {
    pub raw: i32,
}

impl VarInt {
    /// Decodes a `VarInt`, consuming at most 5 bytes.
    pub fn read(r: &mut ByteReader) -> (res: Result<VarInt, DecodeError>)
        requires
            old(r).wf(),
        ensures
            final(r).wf(),
            match var_decode(old(r).remaining(), 5) {
                VarDecoded::Value { v, n } => {
                    &&& res is Ok
                    &&& res->Ok_0.raw as int == to_signed32(v)
                    &&& final(r).remaining() == old(r).remaining().skip(n as int)
                },
                VarDecoded::TooLarge => {
                    &&& res == Err::<VarInt, DecodeError>(DecodeError::TooLarge)
                    &&& final(r).remaining() == old(r).remaining().skip(5)
                },
                VarDecoded::Eof => {
                    &&& res == Err::<VarInt, DecodeError>(DecodeError::Eof)
                    &&& final(r).remaining().len() == 0
                },
            },
    {
        match read_var(r, 5) {
            Ok(acc) => {
                let low32: u32 = (acc % 0x1_0000_0000) as u32;
                Ok(VarInt { raw: u32_to_i32_twos(low32) })
            },
            Err(e) => Err(e),
        }
    }

    /// Appends the 1-to-5-byte encoding of this value.
    pub fn write(&self, out: &mut Vec<u8>)
        ensures
            final(out)@ == old(out)@ + var_int_bytes(self.raw as int),
    {
        let u = i32_to_u32_twos(self.raw);
        write_var(u as u128, out);
    }

    /// The exact number of bytes `write` appends.
    pub fn size(&self) -> (n: usize)
        ensures
            n as nat == var_int_bytes(self.raw as int).len(),
            1 <= n <= 5,
    {
        proof {
            lemma_var_bytes_len(to_unsigned32(self.raw as int));
            lemma_pow128_values();
            lemma_var_len_le(to_unsigned32(self.raw as int), 5);
        }
        let u0 = i32_to_u32_twos(self.raw);
        let mut u = u0;
        let mut n: usize = 1;
        while u >= 128
            invariant
                u0 as nat == to_unsigned32(self.raw as int),
                var_len(u0 as nat) <= 5,
                var_len(u0 as nat) == n - 1 + var_len(u as nat),
                1 <= n,
                n <= var_len(u0 as nat),
            decreases u,
        {
            proof {
                lemma_var_len_pos((u / 128) as nat);
            }
            u = u / 128;
            n = n + 1;
        }
        n
    }
}

impl From<i32> for VarInt {
    fn from(raw: i32) -> (r: Self) {
        Self { raw }
    }
}

impl vstd::std_specs::convert::FromSpecImpl<i32> for VarInt {
    open spec fn obeys_from_spec() -> bool {
        true
    }

    open spec fn from_spec(raw: i32) -> Self {
        Self { raw }
    }
}

/// A 64-bit signed integer carried on the wire in 1 to 10 bytes.
pub struct VarLong {
    pub raw: i64,
}

impl VarLong {
    /// Decodes a `VarLong`, consuming at most 10 bytes.
    pub fn read(r: &mut ByteReader) -> (res: Result<VarLong, DecodeError>)
        requires
            old(r).wf(),
        ensures
            final(r).wf(),
            match var_decode(old(r).remaining(), 10) {
                VarDecoded::Value { v, n } => {
                    &&& res is Ok
                    &&& res->Ok_0.raw as int == to_signed64(v)
                    &&& final(r).remaining() == old(r).remaining().skip(n as int)
                },
                VarDecoded::TooLarge => {
                    &&& res == Err::<VarLong, DecodeError>(DecodeError::TooLarge)
                    &&& final(r).remaining() == old(r).remaining().skip(10)
                },
                VarDecoded::Eof => {
                    &&& res == Err::<VarLong, DecodeError>(DecodeError::Eof)
                    &&& final(r).remaining().len() == 0
                },
            },
    {
        match read_var(r, 10) {
            Ok(acc) => {
                let low64: u64 = (acc % 0x1_0000_0000_0000_0000) as u64;
                Ok(VarLong { raw: u64_to_i64_twos(low64) })
            },
            Err(e) => Err(e),
        }
    }

    /// Appends the 1-to-10-byte encoding of this value.
    pub fn write(&self, out: &mut Vec<u8>)
        ensures
            final(out)@ == old(out)@ + var_long_bytes(self.raw as int),
    {
        let u = i64_to_u64_twos(self.raw);
        write_var(u as u128, out);
    }

    /// The exact number of bytes `write` appends.
    pub fn size(&self) -> (n: usize)
        ensures
            n as nat == var_long_bytes(self.raw as int).len(),
            1 <= n <= 10,
    {
        proof {
            lemma_var_bytes_len(to_unsigned64(self.raw as int));
            lemma_pow128_values();
            lemma_var_len_le(to_unsigned64(self.raw as int), 10);
        }
        let u0 = i64_to_u64_twos(self.raw);
        let mut u = u0;
        let mut n: usize = 1;
        while u >= 128
            invariant
                u0 as nat == to_unsigned64(self.raw as int),
                var_len(u0 as nat) <= 10,
                var_len(u0 as nat) == n - 1 + var_len(u as nat),
                1 <= n,
                n <= var_len(u0 as nat),
            decreases u,
        {
            proof {
                lemma_var_len_pos((u / 128) as nat);
            }
            u = u / 128;
            n = n + 1;
        }
        n
    }
}

impl From<i64> for VarLong {
    fn from(raw: i64) -> (r: Self) {
        Self { raw }
    }
}

impl vstd::std_specs::convert::FromSpecImpl<i64> for VarLong {
    open spec fn obeys_from_spec() -> bool {
        true
    }

    open spec fn from_spec(raw: i64) -> Self {
        Self { raw }
    }
}

// ------------------------------------------------------------------
// Round-trip laws
// ------------------------------------------------------------------

/// Encoding any 32-bit value and decoding it back yields the value, the
/// encoding is at most 5 bytes long, and exactly the encoding is
/// consumed, whatever bytes follow it.
pub proof fn lemma_var_int_round_trip(v: i32, rest: Seq<u8>)
    ensures
        var_int_bytes(v as int).len() <= 5,
        var_decode(var_int_bytes(v as int) + rest, 5) == (VarDecoded::Value {
            v: to_unsigned32(v as int),
            n: var_int_bytes(v as int).len() as nat,
        }),
        to_signed32(to_unsigned32(v as int)) == v as int,
{
    let u = to_unsigned32(v as int);
    lemma_pow128_values();
    lemma_var_len_le(u, 5);
    lemma_var_bytes_len(u);
    lemma_var_round_trip(u, 5, rest);
}

/// Encoding any 64-bit value and decoding it back yields the value, the
/// encoding is at most 10 bytes long, and exactly the encoding is
/// consumed, whatever bytes follow it.
pub proof fn lemma_var_long_round_trip(v: i64, rest: Seq<u8>)
    ensures
        var_long_bytes(v as int).len() <= 10,
        var_decode(var_long_bytes(v as int) + rest, 10) == (VarDecoded::Value {
            v: to_unsigned64(v as int),
            n: var_long_bytes(v as int).len() as nat,
        }),
        to_signed64(to_unsigned64(v as int)) == v as int,
{
    let u = to_unsigned64(v as int);
    lemma_pow128_values();
    lemma_var_len_le(u, 10);
    lemma_var_bytes_len(u);
    lemma_var_round_trip(u, 10, rest);
}


// ------------------------------------------------------------------
// Specification: fixed-width big-endian values
// ------------------------------------------------------------------

/// 256 raised to `k`: the place value of the `k`-th byte from the end.
pub open spec fn pow256(k: nat) -> nat
    decreases k,
{
    if k == 0 {
        1
    } else {
        256 * pow256((k - 1) as nat)
    }
}

/// The `n`-byte big-endian encoding of `v`.
pub open spec fn be_bytes(v: nat, n: nat) -> Seq<u8>
    decreases n,
{
    if n == 0 {
        Seq::empty()
    } else {
        be_bytes(v / 256, (n - 1) as nat) + seq![(v % 256) as u8]
    }
}

/// The value read big-endian from all of `s`.
pub open spec fn be_val(s: Seq<u8>) -> nat
    decreases s.len(),
{
    if s.len() == 0 {
        0
    } else {
        (be_val(s.drop_last()) * 256 + s.last()) as nat
    }
}

/// `pow256` at the widths the codec uses.
proof fn lemma_pow256_values()
    ensures
        pow256(1) == 0x100nat,
        pow256(2) == 0x1_0000nat,
        pow256(4) == 0x1_0000_0000nat,
        pow256(8) == 0x1_0000_0000_0000_0000nat,
        pow256(16) == 0x1_0000_0000_0000_0000_0000_0000_0000_0000nat,
{
    reveal_with_fuel(pow256, 17);
}

/// A big-endian reading is below the place value past its width.
pub proof fn lemma_be_val_bound(s: Seq<u8>)
    ensures
        be_val(s) < pow256(s.len()),
    decreases s.len(),
{
    if s.len() != 0 {
        lemma_be_val_bound(s.drop_last());
    }
}

/// The encoding has the requested width.
pub proof fn lemma_be_bytes_len(v: nat, n: nat)
    ensures
        be_bytes(v, n).len() == n,
    decreases n,
{
    if n != 0 {
        lemma_be_bytes_len(v / 256, (n - 1) as nat);
    }
}

/// A reading of at most 8 bytes fits a 64-bit pattern.
pub proof fn lemma_be_val_u64(s: Seq<u8>)
    requires
        s.len() <= 8,
    ensures
        be_val(s) < 0x1_0000_0000_0000_0000,
{
    lemma_be_val_bound(s);
    lemma_pow256_values();
    lemma_pow256_mono(s.len(), 8);
}

/// Encoding the value read from a byte sequence reproduces the bytes.
pub proof fn lemma_be_bytes_of_val(s: Seq<u8>)
    ensures
        be_bytes(be_val(s), s.len()) == s,
    decreases s.len(),
{
    if s.len() != 0 {
        let dl = s.drop_last();
        assert((be_val(dl) * 256 + s.last()) / 256 == be_val(dl));
        assert((be_val(dl) * 256 + s.last()) % 256 == s.last());
        lemma_be_bytes_of_val(dl);
        assert(be_bytes(be_val(s), s.len()) =~= s);
    }
}

// ------------------------------------------------------------------
// Executable fixed-width helpers
// ------------------------------------------------------------------

/// Appends the `n`-byte big-endian encoding of `v`.
fn write_be(v: u128, n: usize, out: &mut Vec<u8>)
    requires
        n <= 16,
    ensures
        final(out)@ == old(out)@ + be_bytes(v as nat, n as nat),
    decreases n,
{
    if n == 0 {
        proof {
            assert(out@ =~= out@ + be_bytes(v as nat, 0));
        }
        return ;
    }
    write_be(v / 256, n - 1, out);
    let ghost mid = out@;
    out.push((v % 256) as u8);
    proof {
        assert(out@ =~= mid + seq![(v % 256) as u8]);
        assert(out@ =~= old(out)@ + (be_bytes((v / 256) as nat, (n - 1) as nat) + seq![
            (v % 256) as u8,
        ]));
        assert(be_bytes(v as nat, n as nat) =~= be_bytes((v / 256) as nat, (n - 1) as nat)
            + seq![(v % 256) as u8]);
    }
}

/// Reads `n` bytes big-endian, or fails at the end of the input.
fn read_be(r: &mut ByteReader, n: usize) -> (res: Option<u128>)
    requires
        old(r).wf(),
        n <= 16,
    ensures
        final(r).wf(),
        match res {
            Some(v) => {
                &&& old(r).remaining().len() >= n
                &&& v as nat == be_val(old(r).remaining().take(n as int))
                &&& final(r).remaining() == old(r).remaining().skip(n as int)
            },
            None => {
                &&& old(r).remaining().len() < n
                &&& final(r).remaining().len() == 0
            },
        },
{
    let bytes = match r.take(n) {
        Some(b) => b,
        None => {
            return None;
        },
    };
    let ghost chunk = old(r).remaining().take(n as int);
    let mut val: u128 = 0;
    let mut i: usize = 0;
    proof {
        lemma_pow256_values();
        assert(chunk.take(0) =~= Seq::<u8>::empty());
    }
    while i < n
        invariant
            n <= 16,
            i <= n,
            bytes@ == chunk,
            chunk.len() == n,
            val as nat == be_val(chunk.take(i as int)),
            val < pow256(i as nat),
            pow256(16) == 0x1_0000_0000_0000_0000_0000_0000_0000_0000nat,
        decreases n - i,
    {
        proof {
            lemma_pow256_values();
            assert(chunk.take(i as int).push(chunk[i as int]) =~= chunk.take(i + 1));
            assert(chunk.take(i + 1).drop_last() =~= chunk.take(i as int));
            assert(pow256((i + 1) as nat) == 256 * pow256(i as nat));
            assert(val as nat * 256 + 256 <= pow256((i + 1) as nat)) by (nonlinear_arith)
                requires
                    (val as nat) < pow256(i as nat),
                    pow256((i + 1) as nat) == 256 * pow256(i as nat),
            ;
        }
        proof {
            lemma_pow256_mono((i + 1) as nat, 16);
        }
        let b = bytes[i];
        val = val * 256 + (b as u128);
        i = i + 1;
    }
    proof {
        assert(chunk.take(n as int) =~= chunk);
    }
    Some(val)
}

/// Powers of 256 are at least 1.
proof fn lemma_pow256_pos(k: nat)
    ensures
        pow256(k) >= 1,
    decreases k,
{
    if k > 0 {
        lemma_pow256_pos((k - 1) as nat);
    }
}

/// Powers of 256 grow with the exponent.
proof fn lemma_pow256_mono(a: nat, b: nat)
    requires
        a <= b,
    ensures
        pow256(a) <= pow256(b),
    decreases b,
{
    if a < b {
        lemma_pow256_mono(a, (b - 1) as nat);
        lemma_pow256_pos((b - 1) as nat);
    }
}


// ------------------------------------------------------------------
// Specification: small two's-complement widths
// ------------------------------------------------------------------

/// The unsigned 8-bit pattern of a signed value.
pub open spec fn to_unsigned8(v: int) -> nat
    recommends
        -0x80 <= v < 0x80,
{
    if v >= 0 {
        v as nat
    } else {
        (v + 0x100) as nat
    }
}

/// The signed reading of an 8-bit pattern.
pub open spec fn to_signed8(v: nat) -> int {
    let m = v % 0x100;
    if m < 0x80 {
        m as int
    } else {
        m - 0x100
    }
}

/// The unsigned 16-bit pattern of a signed value.
pub open spec fn to_unsigned16(v: int) -> nat
    recommends
        -0x8000 <= v < 0x8000,
{
    if v >= 0 {
        v as nat
    } else {
        (v + 0x1_0000) as nat
    }
}

/// The signed reading of a 16-bit pattern.
pub open spec fn to_signed16(v: nat) -> int {
    let m = v % 0x1_0000;
    if m < 0x8000 {
        m as int
    } else {
        m - 0x1_0000
    }
}

// ------------------------------------------------------------------
// Fixed-width wire values
// ------------------------------------------------------------------

/// Reads one byte.
pub fn read_u8(r: &mut ByteReader) -> (res: Result<u8, DecodeError>)
    requires
        old(r).wf(),
    ensures
        final(r).wf(),
        match res {
            Ok(v) => {
                &&& old(r).remaining().len() >= 1
                &&& v == old(r).remaining()[0]
                &&& final(r).remaining() == old(r).remaining().skip(1)
            },
            Err(e) => {
                &&& e == DecodeError::Eof
                &&& old(r).remaining().len() == 0
                &&& final(r).remaining() == old(r).remaining()
            },
        },
{
    match r.next() {
        Some(b) => Ok(b),
        None => Err(DecodeError::Eof),
    }
}

/// Writes one byte.
pub fn write_u8(v: u8, out: &mut Vec<u8>)
    ensures
        final(out)@ == old(out)@ + seq![v],
{
    out.push(v);
    proof {
        assert(out@ =~= old(out)@ + seq![v]);
    }
}

/// Reads a boolean: any non-zero byte is true.
pub fn read_bool(r: &mut ByteReader) -> (res: Result<bool, DecodeError>)
    requires
        old(r).wf(),
    ensures
        final(r).wf(),
        match res {
            Ok(v) => {
                &&& old(r).remaining().len() >= 1
                &&& v == (old(r).remaining()[0] != 0)
                &&& final(r).remaining() == old(r).remaining().skip(1)
            },
            Err(e) => {
                &&& e == DecodeError::Eof
                &&& old(r).remaining().len() == 0
                &&& final(r).remaining() == old(r).remaining()
            },
        },
{
    match r.next() {
        Some(b) => Ok(b != 0),
        None => Err(DecodeError::Eof),
    }
}

/// Writes a boolean as a single `0` or `1` byte.
pub fn write_bool(v: bool, out: &mut Vec<u8>)
    ensures
        final(out)@ == old(out)@ + seq![if v { 1u8 } else { 0u8 }],
{
    let b: u8 = if v {
        1
    } else {
        0
    };
    out.push(b);
    proof {
        assert(out@ =~= old(out)@ + seq![if v { 1u8 } else { 0u8 }]);
    }
}

/// Reads a signed byte.
pub fn read_i8(r: &mut ByteReader) -> (res: Result<i8, DecodeError>)
    requires
        old(r).wf(),
    ensures
        final(r).wf(),
        match res {
            Ok(v) => {
                &&& old(r).remaining().len() >= 1
                &&& v as int == to_signed8(old(r).remaining()[0] as nat)
                &&& final(r).remaining() == old(r).remaining().skip(1)
            },
            Err(e) => {
                &&& e == DecodeError::Eof
                &&& old(r).remaining().len() == 0
                &&& final(r).remaining() == old(r).remaining()
            },
        },
{
    match r.next() {
        Some(b) => {
            if b < 0x80 {
                Ok(b as i8)
            } else {
                let d = (0xFFu8 - b) as i8;
                Ok(-d - 1)
            }
        },
        None => Err(DecodeError::Eof),
    }
}

/// Writes a signed byte.
pub fn write_i8(v: i8, out: &mut Vec<u8>)
    ensures
        final(out)@ == old(out)@ + seq![(to_unsigned8(v as int) % 0x100) as u8],
{
    let b: u8 = if v >= 0 {
        v as u8
    } else {
        ((v as i16) + 0x100) as u8
    };
    out.push(b);
    proof {
        assert(out@ =~= old(out)@ + seq![(to_unsigned8(v as int) % 0x100) as u8]);
    }
}

/// Reads an unsigned 16-bit value, big-endian.
pub fn read_u16(r: &mut ByteReader) -> (res: Result<u16, DecodeError>)
    requires
        old(r).wf(),
    ensures
        final(r).wf(),
        match res {
            Ok(v) => {
                &&& old(r).remaining().len() >= 2
                &&& v as nat == be_val(old(r).remaining().take(2))
                &&& final(r).remaining() == old(r).remaining().skip(2)
            },
            Err(e) => {
                &&& e == DecodeError::Eof
                &&& old(r).remaining().len() < 2
                &&& final(r).remaining().len() == 0
            },
        },
{
    proof {
        lemma_be_val_bound(old(r).remaining().take(2));
        lemma_pow256_values();
    }
    match read_be(r, 2) {
        Some(v) => Ok(v as u16),
        None => Err(DecodeError::Eof),
    }
}

/// Writes an unsigned 16-bit value, big-endian.
pub fn write_u16(v: u16, out: &mut Vec<u8>)
    ensures
        final(out)@ == old(out)@ + be_bytes(v as nat, 2),
{
    write_be(v as u128, 2, out);
}

/// Reads a signed 16-bit value, big-endian.
pub fn read_i16(r: &mut ByteReader) -> (res: Result<i16, DecodeError>)
    requires
        old(r).wf(),
    ensures
        final(r).wf(),
        match res {
            Ok(v) => {
                &&& old(r).remaining().len() >= 2
                &&& v as int == to_signed16(be_val(old(r).remaining().take(2)))
                &&& final(r).remaining() == old(r).remaining().skip(2)
            },
            Err(e) => {
                &&& e == DecodeError::Eof
                &&& old(r).remaining().len() < 2
                &&& final(r).remaining().len() == 0
            },
        },
{
    proof {
        lemma_be_val_bound(old(r).remaining().take(2));
        lemma_pow256_values();
    }
    match read_be(r, 2) {
        Some(v) => {
            let u = v as u16;
            if u < 0x8000 {
                Ok(u as i16)
            } else {
                let d = (0xFFFFu16 - u) as i16;
                Ok(-d - 1)
            }
        },
        None => Err(DecodeError::Eof),
    }
}

/// Writes a signed 16-bit value, big-endian.
pub fn write_i16(v: i16, out: &mut Vec<u8>)
    ensures
        final(out)@ == old(out)@ + be_bytes(to_unsigned16(v as int), 2),
{
    let u: u16 = if v >= 0 {
        v as u16
    } else {
        ((v as i32) + 0x1_0000) as u16
    };
    write_be(u as u128, 2, out);
}

/// Reads a signed 32-bit value, big-endian.
pub fn read_i32(r: &mut ByteReader) -> (res: Result<i32, DecodeError>)
    requires
        old(r).wf(),
    ensures
        final(r).wf(),
        match res {
            Ok(v) => {
                &&& old(r).remaining().len() >= 4
                &&& v as int == to_signed32(be_val(old(r).remaining().take(4)))
                &&& final(r).remaining() == old(r).remaining().skip(4)
            },
            Err(e) => {
                &&& e == DecodeError::Eof
                &&& old(r).remaining().len() < 4
                &&& final(r).remaining().len() == 0
            },
        },
{
    proof {
        lemma_be_val_bound(old(r).remaining().take(4));
        lemma_pow256_values();
    }
    match read_be(r, 4) {
        Some(v) => Ok(u32_to_i32_twos(v as u32)),
        None => Err(DecodeError::Eof),
    }
}

/// Writes a signed 32-bit value, big-endian.
pub fn write_i32(v: i32, out: &mut Vec<u8>)
    ensures
        final(out)@ == old(out)@ + be_bytes(to_unsigned32(v as int), 4),
{
    let u = i32_to_u32_twos(v);
    write_be(u as u128, 4, out);
}

/// Reads a signed 64-bit value, big-endian.
pub fn read_i64(r: &mut ByteReader) -> (res: Result<i64, DecodeError>)
    requires
        old(r).wf(),
    ensures
        final(r).wf(),
        match res {
            Ok(v) => {
                &&& old(r).remaining().len() >= 8
                &&& v as int == to_signed64(be_val(old(r).remaining().take(8)))
                &&& final(r).remaining() == old(r).remaining().skip(8)
            },
            Err(e) => {
                &&& e == DecodeError::Eof
                &&& old(r).remaining().len() < 8
                &&& final(r).remaining().len() == 0
            },
        },
{
    proof {
        lemma_be_val_bound(old(r).remaining().take(8));
        lemma_pow256_values();
    }
    match read_be(r, 8) {
        Some(v) => Ok(u64_to_i64_twos(v as u64)),
        None => Err(DecodeError::Eof),
    }
}

/// Writes a signed 64-bit value, big-endian.
pub fn write_i64(v: i64, out: &mut Vec<u8>)
    ensures
        final(out)@ == old(out)@ + be_bytes(to_unsigned64(v as int), 8),
{
    let u = i64_to_u64_twos(v);
    write_be(u as u128, 8, out);
}

/// Reads a 128-bit identifier, big-endian.
pub fn read_u128(r: &mut ByteReader) -> (res: Result<u128, DecodeError>)
    requires
        old(r).wf(),
    ensures
        final(r).wf(),
        match res {
            Ok(v) => {
                &&& old(r).remaining().len() >= 16
                &&& v as nat == be_val(old(r).remaining().take(16))
                &&& final(r).remaining() == old(r).remaining().skip(16)
            },
            Err(e) => {
                &&& e == DecodeError::Eof
                &&& old(r).remaining().len() < 16
                &&& final(r).remaining().len() == 0
            },
        },
{
    match read_be(r, 16) {
        Some(v) => Ok(v),
        None => Err(DecodeError::Eof),
    }
}

/// Writes a 128-bit identifier, big-endian.
pub fn write_u128(v: u128, out: &mut Vec<u8>)
    ensures
        final(out)@ == old(out)@ + be_bytes(v as nat, 16),
{
    write_be(v, 16, out);
}

// ------------------------------------------------------------------
// Length-prefixed strings
// ------------------------------------------------------------------

/// The wire bytes of a length-prefixed string: the UTF-8 byte count as
/// a `VarInt`, then the UTF-8 bytes.
pub open spec fn string_bytes(s: Seq<char>) -> Seq<u8>
    recommends
        encode_utf8(s).len() < 0x8000_0000,
{
    var_bytes(encode_utf8(s).len()) + encode_utf8(s)
}

/// The outcome of decoding a length-prefixed string from the front of a
/// byte sequence.
pub enum StrDecoded {
    /// A well-formed string: its characters and the bytes it occupies.
    Value { s: Seq<char>, n: nat },
    /// Why the bytes do not begin with a well-formed string.
    Fail { e: DecodeError },
}

/// Decoding a length-prefixed string from the front of `b`.
pub open spec fn string_decode(b: Seq<u8>) -> StrDecoded {
    match var_decode(b, 5) {
        VarDecoded::Value { v, n } => {
            let l = to_signed32(v);
            if l < 0 {
                StrDecoded::Fail { e: DecodeError::InvalidLength }
            } else if b.len() - n < l {
                StrDecoded::Fail { e: DecodeError::Eof }
            } else if !valid_utf8(b.subrange(n as int, n + l)) {
                StrDecoded::Fail { e: DecodeError::InvalidText }
            } else {
                StrDecoded::Value {
                    s: decode_utf8(b.subrange(n as int, n + l)),
                    n: (n + l) as nat,
                }
            }
        },
        VarDecoded::TooLarge => StrDecoded::Fail { e: DecodeError::TooLarge },
        VarDecoded::Eof => StrDecoded::Fail { e: DecodeError::Eof },
    }
}

/// Relies on `str::len`: the byte length of the string's UTF-8 form,
/// which for any string held in memory fits in `usize`.
#[verifier::external_body]
fn str_byte_len(s: &str) -> (l: usize)
    ensures
        l as nat == encode_utf8(s@).len(),
{
    s.len()
}

/// Relies on `String::from_utf8`: it succeeds exactly on valid UTF-8
/// input and returns the characters that input encodes, as modelled by
/// vstd's `valid_utf8` and `decode_utf8`.
#[verifier::external_body]
fn bytes_to_string(v: Vec<u8>) -> (r: Option<String>)
    ensures
        match r {
            Some(s) => valid_utf8(v@) && s@ == decode_utf8(v@),
            None => !valid_utf8(v@),
        },
{
    match String::from_utf8(v) {
        Ok(s) => Some(s),
        Err(_) => None,
    }
}

/// Decodes a length-prefixed string.
pub fn read_string(r: &mut ByteReader) -> (res: Result<String, DecodeError>)
    requires
        old(r).wf(),
    ensures
        final(r).wf(),
        match string_decode(old(r).remaining()) {
            StrDecoded::Value { s, n } => {
                &&& res is Ok
                &&& res->Ok_0@ == s
                &&& final(r).remaining() == old(r).remaining().skip(n as int)
            },
            StrDecoded::Fail { e } => res == Err::<String, DecodeError>(e),
        },
{
    let ghost b = old(r).remaining();
    let len_vi = match VarInt::read(r) {
        Ok(v) => v,
        Err(e) => {
            return Err(e);
        },
    };
    if len_vi.raw < 0 {
        return Err(DecodeError::InvalidLength);
    }
    let l = len_vi.raw as usize;
    let ghost n = (match var_decode(b, 5) {
        VarDecoded::Value { v, n } => n,
        _ => 0,
    }) as int;
    let bytes = match r.take(l) {
        Some(v) => v,
        None => {
            return Err(DecodeError::Eof);
        },
    };
    proof {
        assert(b.skip(n).take(l as int) =~= b.subrange(n, n + l));
        assert(b.skip(n).skip(l as int) =~= b.skip(n + l));
    }
    match bytes_to_string(bytes) {
        Some(s) => Ok(s),
        None => Err(DecodeError::InvalidText),
    }
}

/// Encodes a length-prefixed string. Fails, appending nothing, exactly
/// when the UTF-8 byte count cannot be carried in a `VarInt`.
pub fn write_string(s: &String, out: &mut Vec<u8>) -> (ok: bool)
    ensures
        ok ==> final(out)@ == old(out)@ + string_bytes(s@),
        !ok ==> final(out)@ == old(out)@,
        ok <==> encode_utf8(s@).len() <= 0x7FFF_FFFF,
{
    let n = str_byte_len(s.as_str());
    if n > 0x7FFF_FFFF {
        return false;
    }
    let vi = VarInt { raw: n as i32 };
    vi.write(out);
    let mut bv = s.as_str().as_bytes_vec();
    out.append(&mut bv);
    proof {
        assert(var_int_bytes(n as int) == var_bytes(encode_utf8(s@).len()));
        assert(out@ =~= old(out)@ + string_bytes(s@));
    }
    true
}

/// The exact number of bytes `write_string` appends.
pub fn string_size(s: &String) -> (n: usize)
    requires
        encode_utf8(s@).len() <= 0x7FFF_FFFF,
    ensures
        n == string_bytes(s@).len(),
{
    let bl = str_byte_len(s.as_str());
    let vi = VarInt { raw: bl as i32 };
    proof {
        assert(var_int_bytes(bl as int) == var_bytes(encode_utf8(s@).len()));
        lemma_var_bytes_len(encode_utf8(s@).len());
    }
    let vs = vi.size();
    vs + bl
}

/// Encoding any string whose UTF-8 form fits the length prefix and
/// decoding it back yields the same characters and consumes exactly the
/// encoding, whatever bytes follow it.
pub proof fn lemma_string_round_trip(s: Seq<char>, rest: Seq<u8>)
    requires
        encode_utf8(s).len() < 0x8000_0000,
    ensures
        string_decode(string_bytes(s) + rest) == (StrDecoded::Value {
            s,
            n: string_bytes(s).len() as nat,
        }),
{
    let enc = encode_utf8(s);
    let l = enc.len();
    lemma_pow128_values();
    lemma_var_len_le(l, 5);
    lemma_var_bytes_len(l);
    assert(string_bytes(s) + rest =~= var_bytes(l) + (enc + rest));
    lemma_var_round_trip(l, 5, enc + rest);
    let total = string_bytes(s) + rest;
    let n = var_len(l) as int;
    assert(var_decode(total, 5) == (VarDecoded::Value { v: l, n: var_len(l) }));
    assert(to_signed32(l) == l);
    assert(total.subrange(n, n + l) =~= enc);
    encode_utf8_valid_utf8(s);
    encode_utf8_decode_utf8(s);
}

} // verus!
