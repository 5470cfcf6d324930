//! Primitive wire codec: fixed-width big-endian integers, booleans,
//! length-prefixed byte strings, UTF-8 strings, and the MQTT Variable Byte
//! Integer.
//!
//! Every decoding function is specified against a `parse_*` spec function
//! over the byte sequence and a position, and every encoding function is
//! specified against an `enc_*` spec function that gives the exact bytes
//! produced.  Round-trip lemmas connect the two directions.

use vstd::prelude::*;

verus! {

/// The two error kinds of the codec: the buffer ends before an operation can
/// complete (recoverable once more bytes arrive), or the bytes are present
/// but violate a protocol invariant.
#[derive(Clone, Copy, Debug, PartialEq, Eq, Structural)]
pub enum CodecError {
    InsufficientBytes,
    MalformedBytes,
}

/// Outcome of a specification-level parse at position `i` of a byte
/// sequence: a value together with the position just past it, or one of the
/// two failure kinds.
#[verifier::ext_equal]
pub ghost enum Parsed<T> {
    Found { val: T, next: int },
    Incomplete,
    Malformed,
}

/// Relates the result of an executable reader to the specification-level
/// parse outcome, for value types used in both worlds.
pub open spec fn reads_to<T>(r: Result<(T, usize), CodecError>, p: Parsed<T>, i: int, bound: int) -> bool {
    match p {
        Parsed::Found { val, next } => r == Ok::<(T, usize), CodecError>((val, next as usize))
            && i < next <= bound && next <= usize::MAX,
        Parsed::Incomplete => r == Err::<(T, usize), CodecError>(CodecError::InsufficientBytes),
        Parsed::Malformed => r == Err::<(T, usize), CodecError>(CodecError::MalformedBytes),
    }
}

/// As `reads_to`, for readers that return an owned byte vector whose view is
/// the parsed value.
pub open spec fn reads_to_bytes(r: Result<(Vec<u8>, usize), CodecError>, p: Parsed<Seq<u8>>, i: int, bound: int) -> bool {
    match p {
        Parsed::Found { val, next } => r matches Ok(x) && x.0@ == val && x.1 == next
            && i < next <= bound && next <= usize::MAX,
        Parsed::Incomplete => r matches Err(e) && e == CodecError::InsufficientBytes,
        Parsed::Malformed => r matches Err(e) && e == CodecError::MalformedBytes,
    }
}

/// The sequence `orig` with the bytes of `ins` written over the range that
/// starts at `at`; everything outside that range is unchanged.
pub open spec fn spliced(orig: Seq<u8>, at: int, ins: Seq<u8>) -> Seq<u8> {
    orig.subrange(0, at) + ins + orig.subrange(at + ins.len(), orig.len() as int)
}

/// Two consecutive writes are one write of the concatenation.
pub proof fn lemma_spliced_concat(orig: Seq<u8>, at: int, a: Seq<u8>, b: Seq<u8>)
    requires
        0 <= at,
        at + a.len() + b.len() <= orig.len(),
    ensures
        spliced(spliced(orig, at, a), at + a.len(), b) == spliced(orig, at, a + b),
{
    assert(spliced(spliced(orig, at, a), at + a.len(), b) =~= spliced(orig, at, a + b));
}

/// Writing an empty sequence changes nothing.
pub proof fn lemma_spliced_empty(orig: Seq<u8>, at: int)
    requires
        0 <= at <= orig.len(),
    ensures
        spliced(orig, at, Seq::<u8>::empty()) == orig,
{
    assert(spliced(orig, at, Seq::<u8>::empty()) =~= orig);
}

// ---------------------------------------------------------------------------
// u8
// ---------------------------------------------------------------------------

pub open spec fn enc_u8(v: u8) -> Seq<u8> {
    seq![v]
}

pub open spec fn parse_u8(s: Seq<u8>, i: int) -> Parsed<u8> {
    if 0 <= i && i + 1 <= s.len() {
        Parsed::Found { val: s[i], next: i + 1 }
    } else {
        Parsed::Incomplete
    }
}

pub fn read_u8(s: &[u8], pos: usize) -> (r: Result<(u8, usize), CodecError>)
    requires
        pos <= s@.len(),
    ensures
        reads_to(r, parse_u8(s@, pos as int), pos as int, s@.len() as int),
{
    if pos < s.len() {
        Ok((*vstd::slice::slice_index_get(s, pos), pos + 1))
    } else {
        Err(CodecError::InsufficientBytes)
    }
}

pub fn write_u8(buf: &mut Vec<u8>, pos: usize, v: u8)
    requires
        pos + 1 <= old(buf)@.len(),
    ensures
        final(buf)@ == spliced(old(buf)@, pos as int, enc_u8(v)),
        final(buf)@.len() == old(buf)@.len(),
{
    buf[pos] = v;
    assert(buf@ =~= spliced(old(buf)@, pos as int, enc_u8(v)));
}

// ---------------------------------------------------------------------------
// u16 (big endian)
// ---------------------------------------------------------------------------

pub open spec fn enc_u16(v: u16) -> Seq<u8> {
    seq![(v / 256) as u8, (v % 256) as u8]
}

pub open spec fn combine_u16(hi: u8, lo: u8) -> u16 {
    (hi * 256 + lo) as u16
}

pub open spec fn parse_u16(s: Seq<u8>, i: int) -> Parsed<u16> {
    if 0 <= i && i + 2 <= s.len() {
        Parsed::Found { val: combine_u16(s[i], s[i + 1]), next: i + 2 }
    } else {
        Parsed::Incomplete
    }
}

pub fn read_u16(s: &[u8], pos: usize) -> (r: Result<(u16, usize), CodecError>)
    requires
        pos <= s@.len(),
    ensures
        reads_to(r, parse_u16(s@, pos as int), pos as int, s@.len() as int),
{
    if s.len() - pos >= 2 {
        let hi = *vstd::slice::slice_index_get(s, pos);
        let lo = *vstd::slice::slice_index_get(s, pos + 1);
        Ok(((hi as u16) * 256 + (lo as u16), pos + 2))
    } else {
        Err(CodecError::InsufficientBytes)
    }
}

pub fn write_u16(buf: &mut Vec<u8>, pos: usize, v: u16)
    requires
        pos + 2 <= old(buf)@.len(),
    ensures
        final(buf)@ == spliced(old(buf)@, pos as int, enc_u16(v)),
        final(buf)@.len() == old(buf)@.len(),
{
    // Binding the length teaches the prover that positions fit in usize.
    let buf_len: usize = buf.len();
    buf[pos] = (v / 256) as u8;
    buf[pos + 1] = (v % 256) as u8;
    assert(buf@ =~= spliced(old(buf)@, pos as int, enc_u16(v)));
}

/// Parsing two encoded bytes yields the value back.
pub proof fn lemma_parse_enc_u16(s: Seq<u8>, i: int, v: u16)
    requires
        0 <= i,
        i + 2 <= s.len(),
        s.subrange(i, i + 2) == enc_u16(v),
    ensures
        parse_u16(s, i) == (Parsed::Found { val: v, next: i + 2 }),
{
    assert(s[i] == enc_u16(v)[0]);
    assert(s[i + 1] == enc_u16(v)[1]);
    assert(combine_u16((v / 256) as u8, (v % 256) as u8) == v);
}

// ---------------------------------------------------------------------------
// u32 (big endian)
// ---------------------------------------------------------------------------

pub open spec fn enc_u32(v: u32) -> Seq<u8> {
    seq![
        (v / 0x1000000) as u8,
        ((v / 0x10000) % 256) as u8,
        ((v / 256) % 256) as u8,
        (v % 256) as u8,
    ]
}

pub open spec fn combine_u32(b0: u8, b1: u8, b2: u8, b3: u8) -> u32 {
    (b0 * 0x1000000 + b1 * 0x10000 + b2 * 256 + b3) as u32
}

pub open spec fn parse_u32(s: Seq<u8>, i: int) -> Parsed<u32> {
    if 0 <= i && i + 4 <= s.len() {
        Parsed::Found { val: combine_u32(s[i], s[i + 1], s[i + 2], s[i + 3]), next: i + 4 }
    } else {
        Parsed::Incomplete
    }
}

pub fn read_u32(s: &[u8], pos: usize) -> (r: Result<(u32, usize), CodecError>)
    requires
        pos <= s@.len(),
    ensures
        reads_to(r, parse_u32(s@, pos as int), pos as int, s@.len() as int),
{
    if s.len() - pos >= 4 {
        let b0 = *vstd::slice::slice_index_get(s, pos);
        let b1 = *vstd::slice::slice_index_get(s, pos + 1);
        let b2 = *vstd::slice::slice_index_get(s, pos + 2);
        let b3 = *vstd::slice::slice_index_get(s, pos + 3);
        Ok((
            (b0 as u32) * 0x1000000 + (b1 as u32) * 0x10000 + (b2 as u32) * 256 + (b3 as u32),
            pos + 4,
        ))
    } else {
        Err(CodecError::InsufficientBytes)
    }
}

pub fn write_u32(buf: &mut Vec<u8>, pos: usize, v: u32)
    requires
        pos + 4 <= old(buf)@.len(),
    ensures
        final(buf)@ == spliced(old(buf)@, pos as int, enc_u32(v)),
        final(buf)@.len() == old(buf)@.len(),
{
    // Binding the length teaches the prover that positions fit in usize.
    let buf_len: usize = buf.len();
    buf[pos] = (v / 0x1000000) as u8;
    buf[pos + 1] = ((v / 0x10000) % 256) as u8;
    buf[pos + 2] = ((v / 256) % 256) as u8;
    buf[pos + 3] = (v % 256) as u8;
    assert(buf@ =~= spliced(old(buf)@, pos as int, enc_u32(v)));
}

/// Parsing four encoded bytes yields the value back.
pub proof fn lemma_parse_enc_u32(s: Seq<u8>, i: int, v: u32)
    requires
        0 <= i,
        i + 4 <= s.len(),
        s.subrange(i, i + 4) == enc_u32(v),
    ensures
        parse_u32(s, i) == (Parsed::Found { val: v, next: i + 4 }),
{
    assert(s[i] == enc_u32(v)[0]);
    assert(s[i + 1] == enc_u32(v)[1]);
    assert(s[i + 2] == enc_u32(v)[2]);
    assert(s[i + 3] == enc_u32(v)[3]);
    assert(combine_u32(
        (v / 0x1000000) as u8,
        ((v / 0x10000) % 256) as u8,
        ((v / 256) % 256) as u8,
        (v % 256) as u8,
    ) == v) by (nonlinear_arith);
}

// ---------------------------------------------------------------------------
// bool: one byte, strictly 0 or 1
// ---------------------------------------------------------------------------

pub open spec fn enc_bool(v: bool) -> Seq<u8> {
    seq![if v { 1u8 } else { 0u8 }]
}

pub open spec fn parse_bool(s: Seq<u8>, i: int) -> Parsed<bool> {
    match parse_u8(s, i) {
        Parsed::Found { val, next } => {
            if val == 0 {
                Parsed::Found { val: false, next }
            } else if val == 1 {
                Parsed::Found { val: true, next }
            } else {
                Parsed::Malformed
            }
        },
        Parsed::Incomplete => Parsed::Incomplete,
        Parsed::Malformed => Parsed::Malformed,
    }
}

pub fn read_bool(s: &[u8], pos: usize) -> (r: Result<(bool, usize), CodecError>)
    requires
        pos <= s@.len(),
    ensures
        reads_to(r, parse_bool(s@, pos as int), pos as int, s@.len() as int),
{
    let (b, next) = read_u8(s, pos)?;
    if b == 0 {
        Ok((false, next))
    } else if b == 1 {
        Ok((true, next))
    } else {
        Err(CodecError::MalformedBytes)
    }
}

pub fn write_bool(buf: &mut Vec<u8>, pos: usize, v: bool)
    requires
        pos + 1 <= old(buf)@.len(),
    ensures
        final(buf)@ == spliced(old(buf)@, pos as int, enc_bool(v)),
        final(buf)@.len() == old(buf)@.len(),
{
    write_u8(buf, pos, if v { 1 } else { 0 });
}

// ---------------------------------------------------------------------------
// Variable Byte Integer: 1-4 bytes, 7 data bits per byte, continuation bit
// in the high bit; minimal encodings only.
// ---------------------------------------------------------------------------

/// Largest value a Variable Byte Integer can carry.
pub const VBI_MAX: u32 = 0x0FFFFFFF;

/// The minimal variable-byte encoding of `v`.
pub open spec fn enc_vbi(v: u32) -> Seq<u8>
    decreases v,
{
    if v < 128 {
        seq![v as u8]
    } else {
        seq![(v % 128 + 128) as u8] + enc_vbi(v / 128)
    }
}

/// Number of bytes of the minimal variable-byte encoding.
pub open spec fn vbi_len(v: u32) -> int {
    if v < 0x80 {
        1
    } else if v < 0x4000 {
        2
    } else if v < 0x200000 {
        3
    } else {
        4
    }
}

pub proof fn lemma_enc_vbi_len(v: u32)
    requires
        v <= VBI_MAX,
    ensures
        enc_vbi(v).len() == vbi_len(v),
{
    reveal_with_fuel(enc_vbi, 5);
}

/// Strict parse of a Variable Byte Integer: rejects a continuation chain of
/// more than four bytes, and rejects a non-minimal encoding (a final
/// zero-valued byte after the first).
pub open spec fn parse_vbi(s: Seq<u8>, i: int) -> Parsed<u32> {
    if !(0 <= i && i + 1 <= s.len()) {
        Parsed::Incomplete
    } else {
        let b0 = s[i];
        if b0 < 128 {
            Parsed::Found { val: b0 as u32, next: i + 1 }
        } else if i + 2 > s.len() {
            Parsed::Incomplete
        } else {
            let b1 = s[i + 1];
            if b1 < 128 {
                if b1 == 0 {
                    Parsed::Malformed
                } else {
                    Parsed::Found { val: ((b0 - 128) + b1 * 128) as u32, next: i + 2 }
                }
            } else if i + 3 > s.len() {
                Parsed::Incomplete
            } else {
                let b2 = s[i + 2];
                if b2 < 128 {
                    if b2 == 0 {
                        Parsed::Malformed
                    } else {
                        Parsed::Found {
                            val: ((b0 - 128) + (b1 - 128) * 128 + b2 * 0x4000) as u32,
                            next: i + 3,
                        }
                    }
                } else if i + 4 > s.len() {
                    Parsed::Incomplete
                } else {
                    let b3 = s[i + 3];
                    if b3 < 128 {
                        if b3 == 0 {
                            Parsed::Malformed
                        } else {
                            Parsed::Found {
                                val: ((b0 - 128) + (b1 - 128) * 128 + (b2 - 128) * 0x4000 + b3
                                    * 0x200000) as u32,
                                next: i + 4,
                            }
                        }
                    } else {
                        Parsed::Malformed
                    }
                }
            }
        }
    }
}

/// A parsed Variable Byte Integer is always within range and consumes at
/// most four bytes.
pub proof fn lemma_parse_vbi_bounds(s: Seq<u8>, i: int)
    ensures
        parse_vbi(s, i) matches Parsed::Found { val, next } ==> val <= VBI_MAX && i < next <= i + 4
            && next <= s.len(),
{
}

pub fn read_vbi(s: &[u8], pos: usize) -> (r: Result<(u32, usize), CodecError>)
    requires
        pos <= s@.len(),
    ensures
        reads_to(r, parse_vbi(s@, pos as int), pos as int, s@.len() as int),
        r matches Ok(x) ==> x.0 <= VBI_MAX,
{
    let (b0, p1) = read_u8(s, pos)?;
    if b0 < 128 {
        return Ok((b0 as u32, p1));
    }
    let (b1, p2) = read_u8(s, p1)?;
    if b1 < 128 {
        if b1 == 0 {
            return Err(CodecError::MalformedBytes);
        }
        return Ok(((b0 - 128) as u32 + (b1 as u32) * 128, p2));
    }
    let (b2, p3) = read_u8(s, p2)?;
    if b2 < 128 {
        if b2 == 0 {
            return Err(CodecError::MalformedBytes);
        }
        return Ok(
            ((b0 - 128) as u32 + ((b1 - 128) as u32) * 128 + (b2 as u32) * 0x4000, p3),
        );
    }
    let (b3, p4) = read_u8(s, p3)?;
    if b3 < 128 {
        if b3 == 0 {
            return Err(CodecError::MalformedBytes);
        }
        return Ok(
            (
                (b0 - 128) as u32 + ((b1 - 128) as u32) * 128 + ((b2 - 128) as u32) * 0x4000 + (
                b3 as u32) * 0x200000,
                p4,
            ),
        );
    }
    Err(CodecError::MalformedBytes)
}

/// Number of bytes `write_vbi` produces for `v`.
pub fn vbi_size(v: u32) -> (n: usize)
    requires
        v <= VBI_MAX,
    ensures
        n == vbi_len(v),
        n == enc_vbi(v).len(),
{
    proof {
        lemma_enc_vbi_len(v);
    }
    if v < 0x80 {
        1
    } else if v < 0x4000 {
        2
    } else if v < 0x200000 {
        3
    } else {
        4
    }
}

pub fn write_vbi(buf: &mut Vec<u8>, pos: usize, v: u32) -> (n: usize)
    requires
        v <= VBI_MAX,
        pos + vbi_len(v) <= old(buf)@.len(),
    ensures
        final(buf)@ == spliced(old(buf)@, pos as int, enc_vbi(v)),
        final(buf)@.len() == old(buf)@.len(),
        n == vbi_len(v),
{
    proof {
        lemma_enc_vbi_len(v);
        reveal_with_fuel(enc_vbi, 5);
        vstd::arithmetic::div_mod::lemma_div_denominator(v as int, 128, 128);
        vstd::arithmetic::div_mod::lemma_div_denominator(v as int, 0x4000, 128);
        assert(v as int / 0x4000 == (v as int / 128) / 128);
        assert(v as int / 0x200000 == (v as int / 0x4000) / 128);
    }
    // Binding the length teaches the prover that positions fit in usize.
    let buf_len: usize = buf.len();
    if v < 0x80 {
        buf[pos] = v as u8;
        assert(buf@ =~= spliced(old(buf)@, pos as int, enc_vbi(v)));
        1
    } else if v < 0x4000 {
        buf[pos] = (v % 128 + 128) as u8;
        buf[pos + 1] = (v / 128) as u8;
        assert(buf@ =~= spliced(old(buf)@, pos as int, enc_vbi(v)));
        2
    } else if v < 0x200000 {
        buf[pos] = (v % 128 + 128) as u8;
        buf[pos + 1] = ((v / 128) % 128 + 128) as u8;
        buf[pos + 2] = (v / 0x4000) as u8;
        assert(buf@ =~= spliced(old(buf)@, pos as int, enc_vbi(v)));
        3
    } else {
        buf[pos] = (v % 128 + 128) as u8;
        buf[pos + 1] = ((v / 128) % 128 + 128) as u8;
        buf[pos + 2] = ((v / 0x4000) % 128 + 128) as u8;
        buf[pos + 3] = (v / 0x200000) as u8;
        assert(buf@ =~= spliced(old(buf)@, pos as int, enc_vbi(v)));
        4
    }
}

/// Parsing a minimal variable-byte encoding yields the value back.
pub proof fn lemma_parse_enc_vbi(s: Seq<u8>, i: int, v: u32)
    requires
        v <= VBI_MAX,
        0 <= i,
        i + enc_vbi(v).len() <= s.len(),
        s.subrange(i, i + enc_vbi(v).len()) == enc_vbi(v),
    ensures
        parse_vbi(s, i) == (Parsed::Found { val: v, next: i + vbi_len(v) }),
{
    reveal_with_fuel(enc_vbi, 5);
    lemma_enc_vbi_len(v);
    vstd::arithmetic::div_mod::lemma_div_denominator(v as int, 128, 128);
    vstd::arithmetic::div_mod::lemma_div_denominator(v as int, 0x4000, 128);
    assert(v as int / 0x4000 == (v as int / 128) / 128);
    assert(v as int / 0x200000 == (v as int / 0x4000) / 128);
    let e = enc_vbi(v);
    if v < 0x80 {
        assert(s[i] == e[0]);
    } else if v < 0x4000 {
        assert(s[i] == e[0]);
        assert(s[i + 1] == e[1]);
        assert(v / 128 >= 1 && v / 128 < 128) by (nonlinear_arith)
            requires 0x80 <= v < 0x4000;
        assert((s[i] - 128) + s[i + 1] * 128 == v) by (nonlinear_arith)
            requires s[i] == v % 128 + 128 && s[i + 1] == v / 128;
    } else if v < 0x200000 {
        assert(s[i] == e[0]);
        assert(s[i + 1] == e[1]);
        assert(s[i + 2] == e[2]);
        assert(v / 0x4000 >= 1 && v / 0x4000 < 128) by (nonlinear_arith)
            requires 0x4000 <= v < 0x200000;
        assert((s[i] - 128) + (s[i + 1] - 128) * 128 + s[i + 2] * 0x4000 == v) by (nonlinear_arith)
            requires
                s[i] == v % 128 + 128,
                s[i + 1] == (v / 128) % 128 + 128,
                s[i + 2] == v / 0x4000,
        ;
    } else {
        assert(s[i] == e[0]);
        assert(s[i + 1] == e[1]);
        assert(s[i + 2] == e[2]);
        assert(s[i + 3] == e[3]);
        assert(v / 0x200000 >= 1 && v / 0x200000 < 128) by (nonlinear_arith)
            requires 0x200000 <= v <= 0x0FFFFFFF;
        assert((s[i] - 128) + (s[i + 1] - 128) * 128 + (s[i + 2] - 128) * 0x4000 + s[i + 3]
            * 0x200000 == v) by (nonlinear_arith)
            requires
                s[i] == v % 128 + 128,
                s[i + 1] == (v / 128) % 128 + 128,
                s[i + 2] == (v / 0x4000) % 128 + 128,
                s[i + 3] == v / 0x200000,
        ;
    }
}

// ---------------------------------------------------------------------------
// Length-prefixed byte strings and UTF-8 strings
// ---------------------------------------------------------------------------

/// A byte string on the wire: a big-endian u16 length followed by that many
/// bytes.  Meaningful for `d.len() <= 0xFFFF`.
pub open spec fn enc_data(d: Seq<u8>) -> Seq<u8> {
    enc_u16(d.len() as u16) + d
}

pub open spec fn parse_data(s: Seq<u8>, i: int) -> Parsed<Seq<u8>> {
    match parse_u16(s, i) {
        Parsed::Found { val, next } => {
            if next + val <= s.len() {
                Parsed::Found { val: s.subrange(next, next + val), next: next + val }
            } else {
                Parsed::Incomplete
            }
        },
        Parsed::Incomplete => Parsed::Incomplete,
        Parsed::Malformed => Parsed::Malformed,
    }
}

/// A UTF-8 string on the wire: a byte string whose bytes must be valid
/// UTF-8.
pub open spec fn parse_str(s: Seq<u8>, i: int) -> Parsed<Seq<u8>> {
    match parse_data(s, i) {
        Parsed::Found { val, next } => {
            if vstd::utf8::valid_utf8(val) {
                Parsed::Found { val, next }
            } else {
                Parsed::Malformed
            }
        },
        Parsed::Incomplete => Parsed::Incomplete,
        Parsed::Malformed => Parsed::Malformed,
    }
}

pub fn read_data(s: &[u8], pos: usize) -> (r: Result<(Vec<u8>, usize), CodecError>)
    requires
        pos <= s@.len(),
    ensures
        reads_to_bytes(r, parse_data(s@, pos as int), pos as int, s@.len() as int),
{
    let (len, p1) = read_u16(s, pos)?;
    if s.len() - p1 >= len as usize {
        let part = vstd::slice::slice_subrange(s, p1, p1 + len as usize);
        let out = vstd::slice::slice_to_vec(part);
        Ok((out, p1 + len as usize))
    } else {
        Err(CodecError::InsufficientBytes)
    }
}

pub fn read_str(s: &[u8], pos: usize) -> (r: Result<(Vec<u8>, usize), CodecError>)
    requires
        pos <= s@.len(),
    ensures
        reads_to_bytes(r, parse_str(s@, pos as int), pos as int, s@.len() as int),
{
    let (out, next) = read_data(s, pos)?;
    if crate::utf8check::is_utf8(out.as_slice()) {
        Ok((out, next))
    } else {
        Err(CodecError::MalformedBytes)
    }
}

/// Writes raw bytes (no length prefix).
pub fn write_bytes(buf: &mut Vec<u8>, pos: usize, data: &[u8])
    requires
        pos + data@.len() <= old(buf)@.len(),
    ensures
        final(buf)@ == spliced(old(buf)@, pos as int, data@),
        final(buf)@.len() == old(buf)@.len(),
{
    // Binding the length teaches the prover that positions fit in usize.
    let buf_len: usize = buf.len();
    let mut k: usize = 0;
    while k < data.len()
        invariant
            k <= data@.len(),
            pos + data@.len() <= buf_len,
            buf_len == buf@.len(),
            buf_len == old(buf)@.len(),
            buf@ == spliced(old(buf)@, pos as int, data@.subrange(0, k as int)),
        decreases data@.len() - k,
    {
        buf[pos + k] = *vstd::slice::slice_index_get(data, k);
        assert(buf@ =~= spliced(old(buf)@, pos as int, data@.subrange(0, k + 1 as int)));
        k = k + 1;
    }
    assert(data@.subrange(0, data@.len() as int) =~= data@);
}

/// Writes a length-prefixed byte string.
pub fn write_data(buf: &mut Vec<u8>, pos: usize, data: &[u8]) -> (n: usize)
    requires
        data@.len() <= 0xFFFF,
        pos + 2 + data@.len() <= old(buf)@.len(),
    ensures
        final(buf)@ == spliced(old(buf)@, pos as int, enc_data(data@)),
        final(buf)@.len() == old(buf)@.len(),
        n == enc_data(data@).len(),
{
    // Binding the length teaches the prover that positions fit in usize.
    let buf_len: usize = buf.len();
    write_u16(buf, pos, data.len() as u16);
    write_bytes(buf, pos + 2, data);
    proof {
        lemma_spliced_concat(old(buf)@, pos as int, enc_u16(data@.len() as u16), data@);
    }
    2 + data.len()
}

/// Parsing an encoded byte string yields the bytes back.
pub proof fn lemma_parse_enc_data(s: Seq<u8>, i: int, d: Seq<u8>)
    requires
        d.len() <= 0xFFFF,
        0 <= i,
        i + 2 + d.len() <= s.len(),
        s.subrange(i, i + 2 + d.len()) == enc_data(d),
    ensures
        parse_data(s, i) == (Parsed::Found { val: d, next: i + 2 + d.len() }),
{
    let n = d.len() as u16;
    assert(s.subrange(i, i + 2) =~= enc_u16(n));
    lemma_parse_enc_u16(s, i, n);
    assert forall|k: int| 0 <= k < d.len() implies s[i + 2 + k] == d[k] by {
        assert(enc_data(d)[2 + k] == d[k]);
        assert(s.subrange(i, i + 2 + d.len() as int)[2 + k] == s[i + 2 + k]);
    }
    assert(s.subrange(i + 2, i + 2 + d.len()) =~= d);
}

/// Parsing an encoded UTF-8 string yields the bytes back.
pub proof fn lemma_parse_enc_str(s: Seq<u8>, i: int, d: Seq<u8>)
    requires
        d.len() <= 0xFFFF,
        vstd::utf8::valid_utf8(d),
        0 <= i,
        i + 2 + d.len() <= s.len(),
        s.subrange(i, i + 2 + d.len()) == enc_data(d),
    ensures
        parse_str(s, i) == (Parsed::Found { val: d, next: i + 2 + d.len() }),
{
    lemma_parse_enc_data(s, i, d);
}

/// Position bounds of a successful byte-string parse.
pub proof fn lemma_parse_data_bounds(s: Seq<u8>, i: int)
    ensures
        parse_data(s, i) matches Parsed::Found { val, next } ==> i + 2 <= next <= s.len()
            && val.len() == next - i - 2,
        parse_str(s, i) matches Parsed::Found { val, next } ==> i + 2 <= next <= s.len()
            && val.len() == next - i - 2,
{
}

/// The view of an optional byte vector.
pub open spec fn view_opt_bytes(v: Option<Vec<u8>>) -> Option<Seq<u8>> {
    match v {
        Some(x) => Some(x@),
        None => None,
    }
}

/// A byte string that fits behind a u16 length prefix.
pub open spec fn wf_data(d: Seq<u8>) -> bool {
    d.len() <= 0xFFFF
}

/// A UTF-8 string that fits behind a u16 length prefix.
pub open spec fn wf_str(d: Seq<u8>) -> bool {
    d.len() <= 0xFFFF && vstd::utf8::valid_utf8(d)
}

pub open spec fn wf_opt_data(v: Option<Seq<u8>>) -> bool {
    v matches Some(d) ==> wf_data(d)
}

pub open spec fn wf_opt_str(v: Option<Seq<u8>>) -> bool {
    v matches Some(d) ==> wf_str(d)
}

/// Splits a fact about a concatenated byte range into facts about its two
/// parts.
pub proof fn lemma_subrange_split(s: Seq<u8>, i: int, a: Seq<u8>, b: Seq<u8>)
    requires
        0 <= i,
        i + a.len() + b.len() <= s.len(),
        s.subrange(i, i + a.len() + b.len()) == a + b,
    ensures
        s.subrange(i, i + a.len()) == a,
        s.subrange(i + a.len(), i + a.len() + b.len()) == b,
{
    assert forall|k: int| 0 <= k < a.len() implies s[i + k] == a[k] by {
        assert((a + b)[k] == a[k]);
        assert(s.subrange(i, i + a.len() + b.len())[k] == s[i + k]);
    }
    assert forall|k: int| 0 <= k < b.len() implies s[i + a.len() + k] == b[k] by {
        assert((a + b)[a.len() + k] == b[k]);
        assert(s.subrange(i, i + a.len() + b.len())[a.len() + k] == s[i + a.len() + k]);
    }
    assert(s.subrange(i, i + a.len()) =~= a);
    assert(s.subrange(i + a.len(), i + a.len() + b.len()) =~= b);
}

/// Clamps a distance to zero: the measure of the remaining bytes of a
/// length-delimited region.
pub open spec fn rem(i: int, end: int) -> int {
    if i < end {
        end - i
    } else {
        0
    }
}

// ---------------------------------------------------------------------------
// VariableByteInteger: a validated 28-bit value
// ---------------------------------------------------------------------------

/// A value representable as a Variable Byte Integer: an unsigned integer up
/// to 268,435,455.
#[derive(Clone, Copy, Debug, PartialEq, Eq, Structural)]
pub struct VariableByteInteger(pub u32);

impl VariableByteInteger {
    /// Validated construction: values above the 28-bit maximum are rejected.
    pub fn new(value: u32) -> (r: Result<Self, CodecError>)
        ensures
            value <= VBI_MAX ==> r == Ok::<Self, CodecError>(VariableByteInteger(value)),
            value > VBI_MAX ==> r == Err::<Self, CodecError>(CodecError::MalformedBytes),
    {
        if value <= VBI_MAX {
            Ok(VariableByteInteger(value))
        } else {
            Err(CodecError::MalformedBytes)
        }
    }

    pub fn get(self) -> (r: u32)
        ensures
            r == self.0,
    {
        self.0
    }
}

} // verus!

