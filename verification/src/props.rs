//! Property lists: a Variable Byte Integer total length followed by
//! single-byte property identifiers, each with its typed value.  Every
//! packet type has a closed table of allowed identifiers; an identifier
//! outside the table is a malformed-content error, and a repeated
//! non-repeatable identifier is rejected.
//!
//! This module holds the property identifiers and the property set shared by
//! the acknowledgement packets (the reason string alone).

use crate::codec::{
    enc_data, enc_u8, enc_vbi, lemma_enc_vbi_len, lemma_parse_enc_str, lemma_parse_enc_vbi,
    lemma_spliced_concat, lemma_subrange_split, parse_str, parse_u8, parse_vbi, read_str, read_u8,
    read_vbi, rem, spliced, view_opt_bytes, wf_opt_str, write_data, write_u8, write_vbi,
    CodecError, Parsed,
};
use vstd::prelude::*;

verus! {

pub const PROP_PAYLOAD_FORMAT_INDICATOR: u8 = 0x01;

pub const PROP_MESSAGE_EXPIRY_INTERVAL: u8 = 0x02;

pub const PROP_CONTENT_TYPE: u8 = 0x03;

pub const PROP_RESPONSE_TOPIC: u8 = 0x08;

pub const PROP_CORRELATION_DATA: u8 = 0x09;

pub const PROP_SUBSCRIPTION_ID: u8 = 0x0B;

pub const PROP_SESSION_EXPIRY_INTERVAL: u8 = 0x11;

pub const PROP_ASSIGNED_CLIENT_ID: u8 = 0x12;

pub const PROP_SERVER_KEEP_ALIVE: u8 = 0x13;

pub const PROP_AUTHENTICATION_METHOD: u8 = 0x15;

pub const PROP_AUTHENTICATION_DATA: u8 = 0x16;

pub const PROP_REQUEST_PROBLEM_INFORMATION: u8 = 0x17;

pub const PROP_WILL_DELAY_INTERVAL: u8 = 0x18;

pub const PROP_REQUEST_RESPONSE_INFORMATION: u8 = 0x19;

pub const PROP_RESPONSE_INFORMATION: u8 = 0x1A;

pub const PROP_SERVER_REFERENCE: u8 = 0x1C;

pub const PROP_REASON_STRING: u8 = 0x1F;

pub const PROP_RECEIVE_MAXIMUM: u8 = 0x21;

pub const PROP_TOPIC_ALIAS_MAXIMUM: u8 = 0x22;

pub const PROP_TOPIC_ALIAS: u8 = 0x23;

pub const PROP_MAXIMUM_QOS: u8 = 0x24;

pub const PROP_RETAIN_AVAILABLE: u8 = 0x25;

pub const PROP_MAXIMUM_PACKET_SIZE: u8 = 0x27;

pub const PROP_WILDCARD_SUBSCRIPTION_AVAILABLE: u8 = 0x28;

pub const PROP_SUBSCRIPTION_ID_AVAILABLE: u8 = 0x29;

pub const PROP_SHARED_SUBSCRIPTION_AVAILABLE: u8 = 0x2A;

// ---------------------------------------------------------------------------
// Property segments: an identifier byte and a typed value, written only when
// the field is present or differs from its protocol default.
// ---------------------------------------------------------------------------

pub open spec fn enc_opt_u32(id: u8, v: Option<u32>) -> Seq<u8> {
    match v {
        Some(x) => seq![id] + crate::codec::enc_u32(x),
        None => Seq::empty(),
    }
}

pub open spec fn enc_opt_u16(id: u8, v: Option<u16>) -> Seq<u8> {
    match v {
        Some(x) => seq![id] + crate::codec::enc_u16(x),
        None => Seq::empty(),
    }
}

pub open spec fn enc_opt_data(id: u8, v: Option<Seq<u8>>) -> Seq<u8> {
    match v {
        Some(x) => seq![id] + enc_data(x),
        None => Seq::empty(),
    }
}

pub open spec fn enc_u8_unless(id: u8, v: u8, default: u8) -> Seq<u8> {
    if v != default {
        seq![id, v]
    } else {
        Seq::empty()
    }
}

pub open spec fn enc_u16_unless(id: u8, v: u16, default: u16) -> Seq<u8> {
    if v != default {
        seq![id] + crate::codec::enc_u16(v)
    } else {
        Seq::empty()
    }
}

pub open spec fn enc_u32_unless(id: u8, v: u32, default: u32) -> Seq<u8> {
    if v != default {
        seq![id] + crate::codec::enc_u32(v)
    } else {
        Seq::empty()
    }
}

pub open spec fn enc_opt_u8p(id: u8, v: Option<u8>) -> Seq<u8> {
    match v {
        Some(x) => seq![id, x],
        None => Seq::empty(),
    }
}

pub open spec fn enc_opt_bool(id: u8, v: Option<bool>) -> Seq<u8> {
    match v {
        Some(x) => seq![id] + crate::codec::enc_bool(x),
        None => Seq::empty(),
    }
}

pub open spec fn enc_opt_qos(id: u8, v: Option<crate::types::QoS>) -> Seq<u8> {
    match v {
        Some(x) => seq![id, x.as_byte()],
        None => Seq::empty(),
    }
}

pub open spec fn enc_bool_unless(id: u8, v: bool, default: bool) -> Seq<u8> {
    if v != default {
        seq![id] + crate::codec::enc_bool(v)
    } else {
        Seq::empty()
    }
}

/// Writes one property: the identifier byte and a u8 value.
pub fn write_prop_u8(buf: &mut Vec<u8>, pos: usize, id: u8, v: u8)
    requires
        pos + 2 <= old(buf)@.len(),
    ensures
        final(buf)@ == spliced(old(buf)@, pos as int, seq![id, v]),
        final(buf)@.len() == old(buf)@.len(),
{
    // Binding the length teaches the prover that positions fit in usize.
    let buf_len: usize = buf.len();
    buf[pos] = id;
    buf[pos + 1] = v;
    assert(buf@ =~= spliced(old(buf)@, pos as int, seq![id, v]));
}

/// Writes one property: the identifier byte and a strict boolean byte.
pub fn write_prop_bool(buf: &mut Vec<u8>, pos: usize, id: u8, v: bool)
    requires
        pos + 2 <= old(buf)@.len(),
    ensures
        final(buf)@ == spliced(old(buf)@, pos as int, seq![id] + crate::codec::enc_bool(v)),
        final(buf)@.len() == old(buf)@.len(),
{
    // Binding the length teaches the prover that positions fit in usize.
    let buf_len: usize = buf.len();
    buf[pos] = id;
    buf[pos + 1] = if v {
        1
    } else {
        0
    };
    assert(buf@ =~= spliced(old(buf)@, pos as int, seq![id] + crate::codec::enc_bool(v)));
}

/// Writes one property: the identifier byte and a big-endian u16 value.
pub fn write_prop_u16(buf: &mut Vec<u8>, pos: usize, id: u8, v: u16)
    requires
        pos + 3 <= old(buf)@.len(),
    ensures
        final(buf)@ == spliced(old(buf)@, pos as int, seq![id] + crate::codec::enc_u16(v)),
        final(buf)@.len() == old(buf)@.len(),
{
    // Binding the length teaches the prover that positions fit in usize.
    let buf_len: usize = buf.len();
    crate::codec::write_u8(buf, pos, id);
    proof {
        crate::codec::lemma_spliced_concat(
            old(buf)@,
            pos as int,
            seq![id],
            crate::codec::enc_u16(v),
        );
    }
    crate::codec::write_u16(buf, pos + 1, v);
}

/// Writes one property: the identifier byte and a big-endian u32 value.
pub fn write_prop_u32(buf: &mut Vec<u8>, pos: usize, id: u8, v: u32)
    requires
        pos + 5 <= old(buf)@.len(),
    ensures
        final(buf)@ == spliced(old(buf)@, pos as int, seq![id] + crate::codec::enc_u32(v)),
        final(buf)@.len() == old(buf)@.len(),
{
    // Binding the length teaches the prover that positions fit in usize.
    let buf_len: usize = buf.len();
    crate::codec::write_u8(buf, pos, id);
    proof {
        crate::codec::lemma_spliced_concat(
            old(buf)@,
            pos as int,
            seq![id],
            crate::codec::enc_u32(v),
        );
    }
    crate::codec::write_u32(buf, pos + 1, v);
}

/// Writes one property: the identifier byte and a Variable Byte Integer.
pub fn write_prop_vbi(buf: &mut Vec<u8>, pos: usize, id: u8, v: u32)
    requires
        v <= crate::codec::VBI_MAX,
        pos + 1 + crate::codec::vbi_len(v) <= old(buf)@.len(),
    ensures
        final(buf)@ == spliced(old(buf)@, pos as int, seq![id] + crate::codec::enc_vbi(v)),
        final(buf)@.len() == old(buf)@.len(),
{
    // Binding the length teaches the prover that positions fit in usize.
    let buf_len: usize = buf.len();
    crate::codec::write_u8(buf, pos, id);
    proof {
        lemma_enc_vbi_len(v);
        crate::codec::lemma_spliced_concat(
            old(buf)@,
            pos as int,
            seq![id],
            crate::codec::enc_vbi(v),
        );
    }
    crate::codec::write_vbi(buf, pos + 1, v);
}

/// Writes one property: the identifier byte and a length-prefixed byte
/// string.
pub fn write_prop_data(buf: &mut Vec<u8>, pos: usize, id: u8, v: &[u8])
    requires
        v@.len() <= 0xFFFF,
        pos + 3 + v@.len() <= old(buf)@.len(),
    ensures
        final(buf)@ == spliced(old(buf)@, pos as int, seq![id] + enc_data(v@)),
        final(buf)@.len() == old(buf)@.len(),
{
    // Binding the length teaches the prover that positions fit in usize.
    let buf_len: usize = buf.len();
    crate::codec::write_u8(buf, pos, id);
    proof {
        crate::codec::lemma_spliced_concat(old(buf)@, pos as int, seq![id], enc_data(v@));
    }
    write_data(buf, pos + 1, v);
}

// ---------------------------------------------------------------------------
// The reason-string-only property set
// ---------------------------------------------------------------------------

/// One pass of the property loop of a set whose only allowed property is the
/// reason string.  `end` is the declared end of the property region.
pub open spec fn parse_rs_prop_items(s: Seq<u8>, i: int, end: int, acc: Option<Seq<u8>>) -> Parsed<
    Option<Seq<u8>>,
>
    decreases rem(i, end),
{
    if i >= end {
        Parsed::Found { val: acc, next: i }
    } else {
        match parse_u8(s, i) {
            Parsed::Found { val: id, next: j } => {
                if id == PROP_REASON_STRING {
                    match parse_str(s, j) {
                        Parsed::Found { val: v, next: k } => {
                            if acc is Some {
                                Parsed::Malformed
                            } else {
                                parse_rs_prop_items(s, k, end, Some(v))
                            }
                        },
                        Parsed::Incomplete => Parsed::Incomplete,
                        Parsed::Malformed => Parsed::Malformed,
                    }
                } else {
                    Parsed::Malformed
                }
            },
            _ => Parsed::Incomplete,
        }
    }
}

/// The property region of a reason-string-only set.
pub open spec fn parse_rs_props(s: Seq<u8>, i: int) -> Parsed<Option<Seq<u8>>> {
    match parse_vbi(s, i) {
        Parsed::Found { val: len, next: j } => parse_rs_prop_items(s, j, j + len, None),
        Parsed::Incomplete => Parsed::Incomplete,
        Parsed::Malformed => Parsed::Malformed,
    }
}

/// The property items of a reason-string-only set: the reason string is
/// written only when present.
pub open spec fn enc_rs_prop_items(reason_string: Option<Seq<u8>>) -> Seq<u8> {
    match reason_string {
        Some(v) => seq![PROP_REASON_STRING] + enc_data(v),
        None => Seq::empty(),
    }
}

/// The full property region: total length, then the items.
pub open spec fn enc_rs_props(reason_string: Option<Seq<u8>>) -> Seq<u8> {
    enc_vbi(enc_rs_prop_items(reason_string).len() as u32) + enc_rs_prop_items(reason_string)
}

/// Parsing an encoded reason-string-only property region yields the fields
/// back.
pub proof fn lemma_parse_enc_rs_props(s: Seq<u8>, i: int, rs: Option<Seq<u8>>)
    requires
        wf_opt_str(rs),
        0 <= i,
        i + enc_rs_props(rs).len() <= s.len(),
        s.subrange(i, i + enc_rs_props(rs).len()) == enc_rs_props(rs),
    ensures
        parse_rs_props(s, i) == (Parsed::Found {
            val: rs,
            next: i + enc_rs_props(rs).len(),
        }),
{
    let items = enc_rs_prop_items(rs);
    let lenbytes = enc_vbi(items.len() as u32);
    lemma_enc_vbi_len(items.len() as u32);
    lemma_subrange_split(s, i, lenbytes, items);
    lemma_parse_enc_vbi(s, i, items.len() as u32);
    let j = i + lenbytes.len();
    let end = j + items.len();
    match rs {
        Some(v) => {
            lemma_subrange_split(s, j, seq![PROP_REASON_STRING], enc_data(v));
            assert(s.subrange(j, j + 1)[0] == s[j]);
            assert(s[j] == PROP_REASON_STRING);
            lemma_parse_enc_str(s, j + 1, v);
            assert(parse_rs_prop_items(s, end, end, Some(v)) == (Parsed::Found {
                val: Some(v),
                next: end,
            }));
        },
        None => {},
    }
}

/// Reads a reason-string-only property region.
pub fn read_rs_props(s: &[u8], pos: usize) -> (r: Result<(Option<Vec<u8>>, usize), CodecError>)
    requires
        pos <= s@.len(),
    ensures
        (match parse_rs_props(s@, pos as int) {
            Parsed::Found { val, next } => r matches Ok(x) && view_opt_bytes(x.0) == val
                && x.1 == next && pos < next <= s@.len() && next <= usize::MAX,
            Parsed::Incomplete => r == Err::<(Option<Vec<u8>>, usize), CodecError>(
                CodecError::InsufficientBytes,
            ),
            Parsed::Malformed => r == Err::<(Option<Vec<u8>>, usize), CodecError>(
                CodecError::MalformedBytes,
            ),
        }),
{
    let (plen, p0) = read_vbi(s, pos)?;
    let ghost end = p0 as int + plen as int;
    let mut reason_string: Option<Vec<u8>> = None;
    let mut cur: usize = p0;
    while cur - p0 < plen as usize
        invariant
            pos < p0 <= cur <= s@.len(),
            end == p0 as int + plen as int,
            parse_rs_props(s@, pos as int) == parse_rs_prop_items(
                s@,
                cur as int,
                end,
                view_opt_bytes(reason_string),
            ),
        decreases rem(cur as int, end),
    {
        let (id, p1) = read_u8(s, cur)?;
        if id == PROP_REASON_STRING {
            let (v, p2) = read_str(s, p1)?;
            if reason_string.is_some() {
                return Err(CodecError::MalformedBytes);
            }
            reason_string = Some(v);
            cur = p2;
        } else {
            return Err(CodecError::MalformedBytes);
        }
    }
    Ok((reason_string, cur))
}

/// Number of bytes of the encoded reason-string-only property region.
pub fn rs_props_size(reason_string: &Option<Vec<u8>>) -> (n: usize)
    requires
        wf_opt_str(view_opt_bytes(*reason_string)),
    ensures
        n == enc_rs_props(view_opt_bytes(*reason_string)).len(),
{
    proof {
        lemma_enc_vbi_len(enc_rs_prop_items(view_opt_bytes(*reason_string)).len() as u32);
    }
    let items_len: usize = match reason_string {
        Some(v) => 3 + v.len(),
        None => 0,
    };
    crate::codec::vbi_size(items_len as u32) + items_len
}

/// Writes a reason-string-only property region.
pub fn write_rs_props(buf: &mut Vec<u8>, pos: usize, reason_string: &Option<Vec<u8>>) -> (n: usize)
    requires
        wf_opt_str(view_opt_bytes(*reason_string)),
        pos + enc_rs_props(view_opt_bytes(*reason_string)).len() <= old(buf)@.len(),
    ensures
        final(buf)@ == spliced(
            old(buf)@,
            pos as int,
            enc_rs_props(view_opt_bytes(*reason_string)),
        ),
        final(buf)@.len() == old(buf)@.len(),
        n == enc_rs_props(view_opt_bytes(*reason_string)).len(),
{
    // Binding the length teaches the prover that positions fit in usize.
    let buf_len: usize = buf.len();
    let ghost items = enc_rs_prop_items(view_opt_bytes(*reason_string));
    proof {
        lemma_enc_vbi_len(items.len() as u32);
    }
    let items_len: usize = match reason_string {
        Some(v) => 3 + v.len(),
        None => 0,
    };
    let vl = write_vbi(buf, pos, items_len as u32);
    match reason_string {
        Some(v) => {
            write_u8(buf, pos + vl, PROP_REASON_STRING);
            proof {
                lemma_spliced_concat(
                    old(buf)@,
                    pos as int,
                    enc_vbi(items_len as u32),
                    enc_u8(PROP_REASON_STRING),
                );
            }
            write_data(buf, pos + vl + 1, v.as_slice());
            proof {
                lemma_spliced_concat(
                    old(buf)@,
                    pos as int,
                    enc_vbi(items_len as u32) + enc_u8(PROP_REASON_STRING),
                    enc_data(v@),
                );
                assert(enc_vbi(items_len as u32) + enc_u8(PROP_REASON_STRING) + enc_data(v@)
                    =~= enc_rs_props(view_opt_bytes(*reason_string)));
            }
            vl + 1 + (2 + v.len())
        },
        None => {
            proof {
                assert(enc_vbi(items_len as u32) =~= enc_rs_props(view_opt_bytes(*reason_string)));
            }
            vl
        },
    }
}

} // verus!
