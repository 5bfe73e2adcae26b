//! The byte-level building blocks of the boundary format.
//!
//! Every record that crosses the boundary is a concatenation of a few
//! primitive forms: single bytes, fixed-width little-endian integers, a
//! variable-width length prefix, and length-prefixed byte strings. For each
//! form this module gives the bytes it is written as (`*_wire`), the exact
//! meaning of reading it back (`parse_*`), an executable writer and reader
//! proved against those, and the law that reading what was written gives the
//! value back and leaves the rest of the input untouched.
use vstd::arithmetic::div_mod::{lemma_div_denominator, lemma_fundamental_div_mod_converse};
use vstd::prelude::*;

verus! {

/// Why a byte sequence could not be read back into a record.
#[derive(Clone, Copy, Debug, PartialEq, Eq, Structural)]
pub enum DecodeError {
    /// The input stopped before the value was complete.
    UnexpectedEnd,
    /// A level discriminant outside the five known levels.
    UnknownLevel,
    /// A value discriminant outside the ten known value forms.
    UnknownValue,
    /// A boolean byte other than 0 or 1.
    InvalidBool,
    /// A presence byte other than 0 (absent) or 1 (present).
    InvalidOption,
    /// A length prefix that is not in its shortest form or exceeds 32 bits.
    InvalidLength,
}

/// What reading a value off the front of a byte sequence yields: the value
/// and the bytes after it, or the reason the bytes were refused.
pub type Parsed<T> = Result<(T, Seq<u8>), DecodeError>;

/// The mathematical content of an executable read: the value's view and the
/// bytes that were left over.
pub open spec fn outcome<T: View>(r: Result<(T, &[u8]), DecodeError>) -> Parsed<T::V> {
    match r {
        Ok((v, rest)) => Ok((v@, rest@)),
        Err(e) => Err(e),
    }
}

/// Longest sequence whose length still fits the length prefix.
pub open spec fn fits_len(n: nat) -> bool {
    n <= 0xffff_ffff
}

// ---------------------------------------------------------------------------
// Single bytes
// ---------------------------------------------------------------------------

/// Reads one byte.
pub open spec fn parse_u8(s: Seq<u8>) -> Parsed<u8> {
    if s.len() < 1 {
        Err(DecodeError::UnexpectedEnd)
    } else {
        Ok((s[0], s.skip(1)))
    }
}

/// The byte that carries a signed 8-bit value (two's complement).
pub open spec fn i8_bits(v: i8) -> u8 {
    if v >= 0 {
        v as u8
    } else {
        (v + 256) as u8
    }
}

/// The signed value that a byte carries.
pub open spec fn i8_of_bits(b: u8) -> i8 {
    if b < 128 {
        b as i8
    } else {
        (b - 256) as i8
    }
}

/// Reads one byte as a signed value.
pub open spec fn parse_i8(s: Seq<u8>) -> Parsed<i8> {
    if s.len() < 1 {
        Err(DecodeError::UnexpectedEnd)
    } else {
        Ok((i8_of_bits(s[0]), s.skip(1)))
    }
}

/// The byte a boolean is written as: 1 for true, 0 for false.
pub open spec fn bool_byte(b: bool) -> u8 {
    if b {
        1
    } else {
        0
    }
}

/// Reads a boolean; a byte other than 0 or 1 is refused.
pub open spec fn parse_bool(s: Seq<u8>) -> Parsed<bool> {
    if s.len() < 1 {
        Err(DecodeError::UnexpectedEnd)
    } else if s[0] == 0 {
        Ok((false, s.skip(1)))
    } else if s[0] == 1 {
        Ok((true, s.skip(1)))
    } else {
        Err(DecodeError::InvalidBool)
    }
}

// ---------------------------------------------------------------------------
// Fixed-width little-endian integers
// ---------------------------------------------------------------------------

/// A 32-bit value as four bytes, least significant first.
pub open spec fn u32_wire(v: u32) -> Seq<u8> {
    seq![
        (v % 256) as u8,
        (v / 256 % 256) as u8,
        (v / 65536 % 256) as u8,
        (v / 16777216) as u8,
    ]
}

/// The 32-bit value held by the first four bytes of `s`.
pub open spec fn u32_of(s: Seq<u8>) -> u32
    recommends
        s.len() >= 4,
{
    (s[0] + 256 * s[1] + 65536 * s[2] + 16777216 * s[3]) as u32
}

/// Reads four bytes as a 32-bit value.
pub open spec fn parse_u32(s: Seq<u8>) -> Parsed<u32> {
    if s.len() < 4 {
        Err(DecodeError::UnexpectedEnd)
    } else {
        Ok((u32_of(s), s.skip(4)))
    }
}

/// A 64-bit value as eight bytes, least significant first.
pub open spec fn u64_wire(v: u64) -> Seq<u8> {
    u32_wire((v % 0x1_0000_0000) as u32) + u32_wire((v / 0x1_0000_0000) as u32)
}

/// The 64-bit value held by the first eight bytes of `s`.
pub open spec fn u64_of(s: Seq<u8>) -> u64
    recommends
        s.len() >= 8,
{
    (u32_of(s) + 0x1_0000_0000 * u32_of(s.skip(4))) as u64
}

/// Reads eight bytes as a 64-bit value.
pub open spec fn parse_u64(s: Seq<u8>) -> Parsed<u64> {
    if s.len() < 8 {
        Err(DecodeError::UnexpectedEnd)
    } else {
        Ok((u64_of(s), s.skip(8)))
    }
}

/// The unsigned value with the same 32 bits as `v` (two's complement).
pub open spec fn i32_bits(v: i32) -> u32 {
    if v >= 0 {
        v as u32
    } else {
        (v + 0x1_0000_0000) as u32
    }
}

/// The signed value with the same 32 bits as `u`.
pub open spec fn i32_of_bits(u: u32) -> i32 {
    if u < 0x8000_0000 {
        u as i32
    } else {
        (u - 0x1_0000_0000) as i32
    }
}

/// Reads four bytes as a signed 32-bit value.
pub open spec fn parse_i32(s: Seq<u8>) -> Parsed<i32> {
    if s.len() < 4 {
        Err(DecodeError::UnexpectedEnd)
    } else {
        Ok((i32_of_bits(u32_of(s)), s.skip(4)))
    }
}

/// The unsigned value with the same 64 bits as `v` (two's complement).
pub open spec fn i64_bits(v: i64) -> u64 {
    if v >= 0 {
        v as u64
    } else {
        (v + 0x1_0000_0000_0000_0000) as u64
    }
}

/// The signed value with the same 64 bits as `u`.
pub open spec fn i64_of_bits(u: u64) -> i64 {
    if u < 0x8000_0000_0000_0000 {
        u as i64
    } else {
        (u - 0x1_0000_0000_0000_0000) as i64
    }
}

/// Reads eight bytes as a signed 64-bit value.
pub open spec fn parse_i64(s: Seq<u8>) -> Parsed<i64> {
    if s.len() < 8 {
        Err(DecodeError::UnexpectedEnd)
    } else {
        Ok((i64_of_bits(u64_of(s)), s.skip(8)))
    }
}

// ---------------------------------------------------------------------------
// Length prefix
// ---------------------------------------------------------------------------

/// A length in its shortest form. The two low bits of the first byte say how
/// many bytes follow: lengths below 2^6 take one byte, below 2^14 two, below
/// 2^30 four, and anything larger a marker byte and four more.
#[verifier::opaque]
pub open spec fn len_wire(n: u32) -> Seq<u8> {
    if n < 64 {
        seq![(4 * n) as u8]
    } else if n < 16384 {
        seq![((4 * n + 1) % 256) as u8, ((4 * n + 1) / 256) as u8]
    } else if n < 0x4000_0000 {
        u32_wire((4 * n + 2) as u32)
    } else {
        seq![3u8] + u32_wire(n)
    }
}

/// Reads a length prefix, refusing any form that `len_wire` would not write.
#[verifier::opaque]
pub open spec fn parse_len(s: Seq<u8>) -> Parsed<u32> {
    if s.len() < 1 {
        Err(DecodeError::UnexpectedEnd)
    } else if s[0] % 4 == 0 {
        Ok(((s[0] / 4) as u32, s.skip(1)))
    } else if s[0] % 4 == 1 {
        if s.len() < 2 {
            Err(DecodeError::UnexpectedEnd)
        } else if (s[0] + 256 * s[1]) / 4 < 64 {
            Err(DecodeError::InvalidLength)
        } else {
            Ok((((s[0] + 256 * s[1]) / 4) as u32, s.skip(2)))
        }
    } else if s[0] % 4 == 2 {
        if s.len() < 4 {
            Err(DecodeError::UnexpectedEnd)
        } else if u32_of(s) / 4 < 16384 {
            Err(DecodeError::InvalidLength)
        } else {
            Ok(((u32_of(s) / 4) as u32, s.skip(4)))
        }
    } else if s[0] != 3 {
        Err(DecodeError::InvalidLength)
    } else if s.len() < 5 {
        Err(DecodeError::UnexpectedEnd)
    } else if u32_of(s.skip(1)) < 0x4000_0000 {
        Err(DecodeError::InvalidLength)
    } else {
        Ok((u32_of(s.skip(1)), s.skip(5)))
    }
}

// ---------------------------------------------------------------------------
// Byte strings
// ---------------------------------------------------------------------------

/// A byte string: its length prefix, then the bytes themselves, unchanged.
pub open spec fn bytes_wire(b: Seq<u8>) -> Seq<u8>
    recommends
        fits_len(b.len()),
{
    len_wire(b.len() as u32) + b
}

/// Reads a length prefix and then as many bytes as it says.
pub open spec fn parse_bytes(s: Seq<u8>) -> Parsed<Seq<u8>> {
    match parse_len(s) {
        Err(e) => Err(e),
        Ok((n, rest)) => if rest.len() < n {
            Err(DecodeError::UnexpectedEnd)
        } else {
            Ok((rest.take(n as int), rest.skip(n as int)))
        },
    }
}

// ---------------------------------------------------------------------------
// Laws: what is written is read back
// ---------------------------------------------------------------------------

/// Reading a byte written in front of `tail` gives the byte and `tail`.
pub proof fn lemma_u8_round_trip(v: u8, tail: Seq<u8>)
    ensures
        parse_u8(seq![v] + tail) == Ok::<(u8, Seq<u8>), DecodeError>((v, tail)),
{
    assert((seq![v] + tail).skip(1) =~= tail);
}

/// Reading a signed byte written in front of `tail` gives it back.
pub proof fn lemma_i8_round_trip(v: i8, tail: Seq<u8>)
    ensures
        parse_i8(seq![i8_bits(v)] + tail) == Ok::<(i8, Seq<u8>), DecodeError>((v, tail)),
{
    assert((seq![i8_bits(v)] + tail).skip(1) =~= tail);
}

/// Reading a boolean written in front of `tail` gives it back.
pub proof fn lemma_bool_round_trip(v: bool, tail: Seq<u8>)
    ensures
        parse_bool(seq![bool_byte(v)] + tail) == Ok::<(bool, Seq<u8>), DecodeError>((v, tail)),
{
    assert((seq![bool_byte(v)] + tail).skip(1) =~= tail);
}

/// The four bytes of a 32-bit value hold that value, whatever follows them.
pub proof fn lemma_u32_of_wire(v: u32, tail: Seq<u8>)
    ensures
        u32_of(u32_wire(v) + tail) == v,
        (u32_wire(v) + tail).len() == 4 + tail.len(),
        (u32_wire(v) + tail).skip(4) == tail,
{
    let s = u32_wire(v) + tail;
    assert(s[0] == (v % 256) as u8);
    assert(s[1] == (v / 256 % 256) as u8);
    assert(s[2] == (v / 65536 % 256) as u8);
    assert(s[3] == (v / 16777216) as u8);
    assert(s.skip(4) =~= tail);
}

/// Reading a 32-bit value written in front of `tail` gives it back.
pub proof fn lemma_u32_round_trip(v: u32, tail: Seq<u8>)
    ensures
        parse_u32(u32_wire(v) + tail) == Ok::<(u32, Seq<u8>), DecodeError>((v, tail)),
{
    lemma_u32_of_wire(v, tail);
}

/// The eight bytes of a 64-bit value hold that value, whatever follows them.
pub proof fn lemma_u64_of_wire(v: u64, tail: Seq<u8>)
    ensures
        u64_of(u64_wire(v) + tail) == v,
        (u64_wire(v) + tail).len() == 8 + tail.len(),
        (u64_wire(v) + tail).skip(8) == tail,
{
    let lo = (v % 0x1_0000_0000) as u32;
    let hi = (v / 0x1_0000_0000) as u32;
    let s = u64_wire(v) + tail;
    assert(s =~= u32_wire(lo) + (u32_wire(hi) + tail));
    lemma_u32_of_wire(lo, u32_wire(hi) + tail);
    lemma_u32_of_wire(hi, tail);
    assert(s.skip(8) =~= tail);
}

/// Reading a 64-bit value written in front of `tail` gives it back.
pub proof fn lemma_u64_round_trip(v: u64, tail: Seq<u8>)
    ensures
        parse_u64(u64_wire(v) + tail) == Ok::<(u64, Seq<u8>), DecodeError>((v, tail)),
{
    lemma_u64_of_wire(v, tail);
}

/// Reading a signed 32-bit value written in front of `tail` gives it back.
pub proof fn lemma_i32_round_trip(v: i32, tail: Seq<u8>)
    ensures
        parse_i32(u32_wire(i32_bits(v)) + tail) == Ok::<(i32, Seq<u8>), DecodeError>((v, tail)),
{
    lemma_u32_of_wire(i32_bits(v), tail);
}

/// Reading a signed 64-bit value written in front of `tail` gives it back.
pub proof fn lemma_i64_round_trip(v: i64, tail: Seq<u8>)
    ensures
        parse_i64(u64_wire(i64_bits(v)) + tail) == Ok::<(i64, Seq<u8>), DecodeError>((v, tail)),
{
    lemma_u64_of_wire(i64_bits(v), tail);
}

/// Reading a length prefix written in front of `tail` gives the length back.
pub proof fn lemma_len_round_trip(n: u32, tail: Seq<u8>)
    ensures
        parse_len(len_wire(n) + tail) == Ok::<(u32, Seq<u8>), DecodeError>((n, tail)),
{
    reveal(len_wire);
    reveal(parse_len);
    let s = len_wire(n) + tail;
    if n < 64 {
        assert(s[0] == (4 * n) as u8);
        assert(s.skip(1) =~= tail);
    } else if n < 16384 {
        let v = 4 * n + 1;
        assert(s[0] == (v % 256) as u8);
        assert(s[1] == (v / 256) as u8);
        assert(s[0] + 256 * s[1] == v);
        assert(s.skip(2) =~= tail);
    } else if n < 0x4000_0000 {
        let v = (4 * n + 2) as u32;
        lemma_u32_of_wire(v, tail);
        assert(s[0] == (v % 256) as u8);
    } else {
        assert(s[0] == 3u8);
        assert(s.skip(1) =~= u32_wire(n) + tail);
        lemma_u32_of_wire(n, tail);
        assert(s.skip(5) =~= tail);
    }
}

/// Reading a byte string written in front of `tail` gives the string back.
pub proof fn lemma_bytes_round_trip(b: Seq<u8>, tail: Seq<u8>)
    requires
        fits_len(b.len()),
    ensures
        parse_bytes(bytes_wire(b) + tail) == Ok::<(Seq<u8>, Seq<u8>), DecodeError>((b, tail)),
{
    let n = b.len() as u32;
    assert(bytes_wire(b) + tail =~= len_wire(n) + (b + tail));
    lemma_len_round_trip(n, b + tail);
    assert((b + tail).take(n as int) =~= b);
    assert((b + tail).skip(n as int) =~= tail);
}

// ---------------------------------------------------------------------------
// Laws: only what is written is read
// ---------------------------------------------------------------------------

/// A byte that is read was the first byte of the input.
pub proof fn lemma_u8_canonical(s: Seq<u8>)
    ensures
        parse_u8(s) matches Ok((v, rest)) ==> s == seq![v] + rest,
{
    if s.len() >= 1 {
        assert(s =~= seq![s[0]] + s.skip(1));
    }
}

/// A signed byte that is read was written as the first byte of the input.
pub proof fn lemma_i8_canonical(s: Seq<u8>)
    ensures
        parse_i8(s) matches Ok((v, rest)) ==> s == seq![i8_bits(v)] + rest,
{
    if s.len() >= 1 {
        assert(s =~= seq![s[0]] + s.skip(1));
    }
}

/// A boolean that is read was written as the first byte of the input.
pub proof fn lemma_bool_canonical(s: Seq<u8>)
    ensures
        parse_bool(s) matches Ok((v, rest)) ==> s == seq![bool_byte(v)] + rest,
{
    if s.len() >= 1 {
        assert(s =~= seq![s[0]] + s.skip(1));
    }
}

/// Four bytes are the wire form of the 32-bit value they hold.
pub proof fn lemma_u32_wire_of(s: Seq<u8>)
    requires
        s.len() >= 4,
    ensures
        s == u32_wire(u32_of(s)) + s.skip(4),
{
    let b0 = s[0] as int;
    let b1 = s[1] as int;
    let b2 = s[2] as int;
    let b3 = s[3] as int;
    let q2 = b2 + 256 * b3;
    let q1 = b1 + 256 * q2;
    let v = b0 + 256 * q1;
    assert(u32_of(s) == v);
    lemma_fundamental_div_mod_converse(v, 256, q1, b0);
    lemma_fundamental_div_mod_converse(q1, 256, q2, b1);
    lemma_fundamental_div_mod_converse(q2, 256, b3, b2);
    lemma_div_denominator(v, 256, 256);
    lemma_div_denominator(v, 65536, 256);
    assert(v / 65536 == q2);
    assert(v / 16777216 == b3);
    assert(s =~= u32_wire(u32_of(s)) + s.skip(4));
}

/// Eight bytes are the wire form of the 64-bit value they hold.
pub proof fn lemma_u64_wire_of(s: Seq<u8>)
    requires
        s.len() >= 8,
    ensures
        s == u64_wire(u64_of(s)) + s.skip(8),
{
    let lo = u32_of(s);
    let hi = u32_of(s.skip(4));
    lemma_u32_wire_of(s);
    lemma_u32_wire_of(s.skip(4));
    assert(s.skip(4).skip(4) =~= s.skip(8));
    assert((u64_of(s) % 0x1_0000_0000) as u32 == lo);
    assert((u64_of(s) / 0x1_0000_0000) as u32 == hi);
    assert(s =~= u32_wire(lo) + (u32_wire(hi) + s.skip(8)));
    assert(s =~= u64_wire(u64_of(s)) + s.skip(8));
}

/// A 32-bit value that is read was written at the front of the input.
pub proof fn lemma_u32_canonical(s: Seq<u8>)
    ensures
        parse_u32(s) matches Ok((v, rest)) ==> s == u32_wire(v) + rest,
{
    if s.len() >= 4 {
        lemma_u32_wire_of(s);
    }
}

/// A signed 32-bit value that is read was written at the front of the input.
pub proof fn lemma_i32_canonical(s: Seq<u8>)
    ensures
        parse_i32(s) matches Ok((v, rest)) ==> s == u32_wire(i32_bits(v)) + rest,
{
    if s.len() >= 4 {
        lemma_u32_wire_of(s);
    }
}

/// A 64-bit value that is read was written at the front of the input.
pub proof fn lemma_u64_canonical(s: Seq<u8>)
    ensures
        parse_u64(s) matches Ok((v, rest)) ==> s == u64_wire(v) + rest,
{
    if s.len() >= 8 {
        lemma_u64_wire_of(s);
    }
}

/// A signed 64-bit value that is read was written at the front of the input.
pub proof fn lemma_i64_canonical(s: Seq<u8>)
    ensures
        parse_i64(s) matches Ok((v, rest)) ==> s == u64_wire(i64_bits(v)) + rest,
{
    if s.len() >= 8 {
        lemma_u64_wire_of(s);
    }
}

/// A length that is read was written in its shortest form at the front of
/// the input: no other prefix is accepted for it.
pub proof fn lemma_len_canonical(s: Seq<u8>)
    ensures
        parse_len(s) matches Ok((n, rest)) ==> s == len_wire(n) + rest,
{
    reveal(parse_len);
    match parse_len(s) {
        Err(_) => {},
        Ok((n, rest)) => {
            let first = s[0] as int;
            if first % 4 == 0 {
                assert(len_wire(n) == seq![(4 * n) as u8]) by {
                    reveal(len_wire);
                }
                assert(s =~= seq![(4 * n) as u8] + rest);
            } else if first % 4 == 1 {
                let second = s[1] as int;
                let v = first + 256 * second;
                assert(v % 4 == 1 && v == 4 * n + 1 && 64 <= n < 16384);
                lemma_fundamental_div_mod_converse(v, 256, second, first);
                assert(len_wire(n) == seq![(v % 256) as u8, (v / 256) as u8]) by {
                    reveal(len_wire);
                }
                assert(s =~= seq![(v % 256) as u8, (v / 256) as u8] + rest);
            } else if first % 4 == 2 {
                lemma_u32_wire_of(s);
                let v = u32_of(s) as int;
                assert(v == first + 256 * (s[1] + 256 * (s[2] + 256 * s[3])));
                assert(v % 4 == 2 && v == 4 * n + 2 && 16384 <= n < 0x4000_0000);
                assert(len_wire(n) == u32_wire((4 * n + 2) as u32)) by {
                    reveal(len_wire);
                }
            } else {
                lemma_u32_wire_of(s.skip(1));
                assert(s.skip(1).skip(4) =~= s.skip(5));
                assert(len_wire(n) == seq![3u8] + u32_wire(n)) by {
                    reveal(len_wire);
                }
                assert(s =~= seq![3u8] + s.skip(1));
                lemma_concat_assoc(seq![3u8], u32_wire(n), rest);
            }
        },
    }
}

/// Concatenation may be bracketed either way.
pub proof fn lemma_concat_assoc(a: Seq<u8>, b: Seq<u8>, c: Seq<u8>)
    ensures
        a + (b + c) == (a + b) + c,
{
    assert(a + (b + c) =~= (a + b) + c);
}

/// A byte string that is read fits the length prefix and was written at the
/// front of the input.
pub proof fn lemma_bytes_canonical(s: Seq<u8>)
    ensures
        parse_bytes(s) matches Ok((b, rest)) ==> fits_len(b.len()) && s == bytes_wire(b) + rest,
{
    lemma_len_canonical(s);
    match parse_len(s) {
        Err(_) => {},
        Ok((n, body)) => {
            if body.len() >= n {
                let b = body.take(n as int);
                let rest = body.skip(n as int);
                assert(body =~= b + rest);
                assert(s =~= (len_wire(n) + b) + rest);
            }
        },
    }
}

// ---------------------------------------------------------------------------
// Writers
// ---------------------------------------------------------------------------

pub(crate) fn put_i8(out: &mut Vec<u8>, v: i8)
    ensures
        final(out)@ == old(out)@.push(i8_bits(v)),
{
    let b: u8 = if v >= 0 {
        v as u8
    } else {
        (v as i16 + 256) as u8
    };
    out.push(b);
}

pub(crate) fn put_bool(out: &mut Vec<u8>, v: bool)
    ensures
        final(out)@ == old(out)@.push(bool_byte(v)),
{
    let b: u8 = if v {
        1
    } else {
        0
    };
    out.push(b);
}

pub(crate) fn put_u32(out: &mut Vec<u8>, v: u32)
    ensures
        final(out)@ == old(out)@ + u32_wire(v),
{
    out.push((v % 256) as u8);
    out.push((v / 256 % 256) as u8);
    out.push((v / 65536 % 256) as u8);
    out.push((v / 16777216) as u8);
    assert(out@ =~= old(out)@ + u32_wire(v));
}

pub(crate) fn put_u64(out: &mut Vec<u8>, v: u64)
    ensures
        final(out)@ == old(out)@ + u64_wire(v),
{
    put_u32(out, (v % 0x1_0000_0000) as u32);
    put_u32(out, (v / 0x1_0000_0000) as u32);
    assert(out@ =~= old(out)@ + u64_wire(v));
}

pub(crate) fn put_i32(out: &mut Vec<u8>, v: i32)
    ensures
        final(out)@ == old(out)@ + u32_wire(i32_bits(v)),
{
    let u: u32 = if v >= 0 {
        v as u32
    } else {
        (v as i64 + 0x1_0000_0000) as u32
    };
    put_u32(out, u);
}

pub(crate) fn put_i64(out: &mut Vec<u8>, v: i64)
    ensures
        final(out)@ == old(out)@ + u64_wire(i64_bits(v)),
{
    let u: u64 = if v >= 0 {
        v as u64
    } else {
        (v as i128 + 0x1_0000_0000_0000_0000) as u64
    };
    put_u64(out, u);
}

pub(crate) fn put_len(out: &mut Vec<u8>, n: u32)
    ensures
        final(out)@ == old(out)@ + len_wire(n),
{
    if n < 64 {
        out.push((4 * n) as u8);
    } else if n < 16384 {
        let v: u32 = 4 * n + 1;
        out.push((v % 256) as u8);
        out.push((v / 256) as u8);
    } else if n < 0x4000_0000 {
        put_u32(out, 4 * n + 2);
    } else {
        out.push(3);
        put_u32(out, n);
    }
    proof {
        reveal(len_wire);
    }
    assert(out@ =~= old(out)@ + len_wire(n));
}

/// Appends `b` to `out`, byte for byte.
pub(crate) fn put_raw(out: &mut Vec<u8>, b: &[u8])
    ensures
        final(out)@ == old(out)@ + b@,
{
    let mut i: usize = 0;
    while i < b.len()
        invariant
            i <= b.len(),
            out@ == old(out)@ + b@.take(i as int),
        decreases b.len() - i,
    {
        out.push(b[i]);
        i = i + 1;
        assert(out@ =~= old(out)@ + b@.take(i as int));
    }
    assert(b@.take(i as int) =~= b@);
}

/// Whether a sequence of `n` items is short enough for the length prefix.
pub(crate) fn len_fits(n: usize) -> (r: bool)
    ensures
        r == fits_len(n as nat),
{
    n <= 0xffff_ffff
}

pub(crate) fn put_bytes(out: &mut Vec<u8>, b: &[u8])
    requires
        fits_len(b@.len()),
    ensures
        final(out)@ == old(out)@ + bytes_wire(b@),
{
    put_len(out, b.len() as u32);
    put_raw(out, b);
    assert(out@ =~= old(out)@ + bytes_wire(b@));
}

// ---------------------------------------------------------------------------
// Readers
// ---------------------------------------------------------------------------

pub(crate) fn take_u8<'a>(input: &'a [u8]) -> (r: Result<(u8, &'a [u8]), DecodeError>)
    ensures
        outcome(r) == parse_u8(input@),
{
    if input.len() < 1 {
        Err(DecodeError::UnexpectedEnd)
    } else {
        Ok((input[0], vstd::slice::slice_subrange(input, 1, input.len())))
    }
}

pub(crate) fn take_i8<'a>(input: &'a [u8]) -> (r: Result<(i8, &'a [u8]), DecodeError>)
    ensures
        outcome(r) == parse_i8(input@),
{
    if input.len() < 1 {
        Err(DecodeError::UnexpectedEnd)
    } else {
        let b = input[0];
        let v: i8 = if b < 128 {
            b as i8
        } else {
            (b as i16 - 256) as i8
        };
        Ok((v, vstd::slice::slice_subrange(input, 1, input.len())))
    }
}

pub(crate) fn take_bool<'a>(input: &'a [u8]) -> (r: Result<(bool, &'a [u8]), DecodeError>)
    ensures
        outcome(r) == parse_bool(input@),
{
    if input.len() < 1 {
        Err(DecodeError::UnexpectedEnd)
    } else if input[0] == 0 {
        Ok((false, vstd::slice::slice_subrange(input, 1, input.len())))
    } else if input[0] == 1 {
        Ok((true, vstd::slice::slice_subrange(input, 1, input.len())))
    } else {
        Err(DecodeError::InvalidBool)
    }
}

/// The 32-bit value of the first four bytes of `input`.
fn first_u32(input: &[u8]) -> (v: u32)
    requires
        input@.len() >= 4,
    ensures
        v == u32_of(input@),
{
    input[0] as u32 + 256 * (input[1] as u32) + 65536 * (input[2] as u32) + 16777216 * (
    input[3] as u32)
}

pub(crate) fn take_u32<'a>(input: &'a [u8]) -> (r: Result<(u32, &'a [u8]), DecodeError>)
    ensures
        outcome(r) == parse_u32(input@),
{
    if input.len() < 4 {
        Err(DecodeError::UnexpectedEnd)
    } else {
        Ok((first_u32(input), vstd::slice::slice_subrange(input, 4, input.len())))
    }
}

pub(crate) fn take_u64<'a>(input: &'a [u8]) -> (r: Result<(u64, &'a [u8]), DecodeError>)
    ensures
        outcome(r) == parse_u64(input@),
{
    if input.len() < 8 {
        Err(DecodeError::UnexpectedEnd)
    } else {
        let lo = first_u32(input);
        let hi = first_u32(vstd::slice::slice_subrange(input, 4, input.len()));
        let v: u64 = lo as u64 + 0x1_0000_0000 * (hi as u64);
        Ok((v, vstd::slice::slice_subrange(input, 8, input.len())))
    }
}

pub(crate) fn take_i32<'a>(input: &'a [u8]) -> (r: Result<(i32, &'a [u8]), DecodeError>)
    ensures
        outcome(r) == parse_i32(input@),
{
    if input.len() < 4 {
        Err(DecodeError::UnexpectedEnd)
    } else {
        let u = first_u32(input);
        let v: i32 = if u < 0x8000_0000 {
            u as i32
        } else {
            (u as i64 - 0x1_0000_0000) as i32
        };
        Ok((v, vstd::slice::slice_subrange(input, 4, input.len())))
    }
}

pub(crate) fn take_i64<'a>(input: &'a [u8]) -> (r: Result<(i64, &'a [u8]), DecodeError>)
    ensures
        outcome(r) == parse_i64(input@),
{
    match take_u64(input) {
        Err(e) => Err(e),
        Ok((u, rest)) => {
            let v: i64 = if u < 0x8000_0000_0000_0000 {
                u as i64
            } else {
                (u as i128 - 0x1_0000_0000_0000_0000) as i64
            };
            Ok((v, rest))
        },
    }
}

pub(crate) fn take_len<'a>(input: &'a [u8]) -> (r: Result<(u32, &'a [u8]), DecodeError>)
    ensures
        outcome(r) == parse_len(input@),
{
    proof {
        reveal(parse_len);
    }
    if input.len() < 1 {
        return Err(DecodeError::UnexpectedEnd);
    }
    let first = input[0];
    if first % 4 == 0 {
        Ok(((first / 4) as u32, vstd::slice::slice_subrange(input, 1, input.len())))
    } else if first % 4 == 1 {
        if input.len() < 2 {
            return Err(DecodeError::UnexpectedEnd);
        }
        let x: u32 = (first as u32 + 256 * (input[1] as u32)) / 4;
        if x < 64 {
            Err(DecodeError::InvalidLength)
        } else {
            Ok((x, vstd::slice::slice_subrange(input, 2, input.len())))
        }
    } else if first % 4 == 2 {
        if input.len() < 4 {
            return Err(DecodeError::UnexpectedEnd);
        }
        let x: u32 = first_u32(input) / 4;
        if x < 16384 {
            Err(DecodeError::InvalidLength)
        } else {
            Ok((x, vstd::slice::slice_subrange(input, 4, input.len())))
        }
    } else if first != 3 {
        Err(DecodeError::InvalidLength)
    } else if input.len() < 5 {
        Err(DecodeError::UnexpectedEnd)
    } else {
        let x: u32 = first_u32(vstd::slice::slice_subrange(input, 1, input.len()));
        if x < 0x4000_0000 {
            Err(DecodeError::InvalidLength)
        } else {
            Ok((x, vstd::slice::slice_subrange(input, 5, input.len())))
        }
    }
}

pub(crate) fn take_bytes<'a>(input: &'a [u8]) -> (r: Result<(Vec<u8>, &'a [u8]), DecodeError>)
    ensures
        outcome(r) == parse_bytes(input@),
{
    match take_len(input) {
        Err(e) => Err(e),
        Ok((n, rest)) => {
            if rest.len() < n as usize {
                Err(DecodeError::UnexpectedEnd)
            } else {
                let body = vstd::slice::slice_subrange(rest, 0, n as usize);
                let after = vstd::slice::slice_subrange(rest, n as usize, rest.len());
                Ok((vstd::slice::slice_to_vec(body), after))
            }
        },
    }
}

} // verus!
