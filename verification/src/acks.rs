//! The acknowledgement packets PubAck, PubRec, PubRel and PubComp: a packet
//! identifier, a reason code, and a reason-string property.  A terse sender
//! may truncate the variable header: with two remaining bytes the reason
//! code defaults to the success value, with three there are no properties.

use crate::codec::{
    enc_u16, enc_u8, enc_vbi, lemma_enc_vbi_len, lemma_parse_enc_u16, lemma_parse_enc_vbi,
    lemma_spliced_concat, lemma_subrange_split, parse_u16, parse_u8, read_u16, read_u8, spliced,
    vbi_size, view_opt_bytes, wf_opt_str, write_u16, write_u8, write_vbi, CodecError, Parsed,
};
use crate::props::{
    enc_rs_props, lemma_parse_enc_rs_props, parse_rs_props, read_rs_props, rs_props_size,
    write_rs_props,
};
use crate::reason_codes::{PubAckReasonCode, PubCompReasonCode, PubRecReasonCode, PubRelReasonCode};
use vstd::prelude::*;

verus! {

/// Acknowledgement of a Publish delivered with QoS AtLeastOnce.
#[derive(Clone, Debug, PartialEq, Eq)]
pub struct PubAckPacket {
    pub packet_id: u16,
    pub reason_code: PubAckReasonCode,
    pub reason_string: Option<Vec<u8>>,
}

/// The mathematical value of a PubAck packet.
#[verifier::ext_equal]
pub ghost struct PubAckView {
    pub packet_id: u16,
    pub reason_code: PubAckReasonCode,
    pub reason_string: Option<Seq<u8>>,
}

impl View for PubAckPacket {
    type V = PubAckView;

    open spec fn view(&self) -> PubAckView {
        PubAckView {
            packet_id: self.packet_id,
            reason_code: self.reason_code,
            reason_string: view_opt_bytes(self.reason_string),
        }
    }
}

impl PubAckView {
    /// The reason string fits its length prefix and is valid UTF-8.
    pub open spec fn wf(self) -> bool {
        wf_opt_str(self.reason_string)
    }

    /// Everything after the fixed header.
    pub open spec fn body(self) -> Seq<u8> {
        enc_u16(self.packet_id) + self.tail()
    }

    /// The reason code and properties; a packet at its defaults (success and
    /// no properties) takes the minimal two-byte form, with both omitted.
    pub open spec fn tail(self) -> Seq<u8> {
        if self.reason_code == PubAckReasonCode::Success && self.reason_string is None {
            Seq::empty()
        } else {
            enc_u8(self.reason_code.as_byte()) + enc_rs_props(self.reason_string)
        }
    }

    /// The complete wire form.
    pub open spec fn bytes(self) -> Seq<u8> {
        seq![0x40u8] + enc_vbi(self.body().len() as u32) + self.body()
    }
}

/// The variable header of a PubAck packet, after the fixed header.  `rl` is
/// the declared remaining length, which gates the optional reason code and
/// properties.
pub open spec fn parse_puback(s: Seq<u8>, i: int, flags: u8, rl: u32) -> Parsed<PubAckView> {
    if flags != 0x00 {
        Parsed::Malformed
    } else {
        match parse_u16(s, i) {
            Parsed::Found { val: packet_id, next: j } => {
                if rl <= 2 {
                    Parsed::Found {
                        val: PubAckView {
                            packet_id,
                            reason_code: PubAckReasonCode::Success,
                            reason_string: None,
                        },
                        next: j,
                    }
                } else {
                    match parse_u8(s, j) {
                        Parsed::Found { val: b, next: k } => {
                            match PubAckReasonCode::spec_from(b) {
                                Some(reason_code) => {
                                    if rl <= 3 {
                                        Parsed::Found {
                                            val: PubAckView {
                                                packet_id,
                                                reason_code,
                                                reason_string: None,
                                            },
                                            next: k,
                                        }
                                    } else {
                                        match parse_rs_props(s, k) {
                                            Parsed::Found { val: reason_string, next: m } => {
                                                Parsed::Found {
                                                    val: PubAckView {
                                                        packet_id,
                                                        reason_code,
                                                        reason_string,
                                                    },
                                                    next: m,
                                                }
                                            },
                                            Parsed::Incomplete => Parsed::Incomplete,
                                            Parsed::Malformed => Parsed::Malformed,
                                        }
                                    }
                                },
                                None => Parsed::Malformed,
                            }
                        },
                        _ => Parsed::Incomplete,
                    }
                }
            },
            _ => Parsed::Incomplete,
        }
    }
}

impl PubAckPacket {
    pub fn new(
        packet_id: u16,
        reason_code: PubAckReasonCode,
        reason_string: Option<Vec<u8>>,
    ) -> (r: PubAckPacket)
        ensures
            r@ == (PubAckView {
                packet_id,
                reason_code,
                reason_string: view_opt_bytes(reason_string),
            }),
    {
        PubAckPacket { packet_id, reason_code, reason_string }
    }

    /// Reads the variable header, the cursor standing after the fixed
    /// header.
    pub fn read(s: &[u8], pos: usize, flags: u8, remaining_length: u32) -> (r: Result<
        (PubAckPacket, usize),
        CodecError,
    >)
        requires
            pos <= s@.len(),
        ensures
            (match parse_puback(s@, pos as int, flags, remaining_length) {
                Parsed::Found { val, next } => r matches Ok(x) && x.0@ == val && x.1 == next
                    && pos < next <= s@.len() && next <= usize::MAX,
                Parsed::Incomplete => r == Err::<(PubAckPacket, usize), CodecError>(
                    CodecError::InsufficientBytes,
                ),
                Parsed::Malformed => r == Err::<(PubAckPacket, usize), CodecError>(
                    CodecError::MalformedBytes,
                ),
            }),
    {
        if flags != 0x00 {
            return Err(CodecError::MalformedBytes);
        }
        let (packet_id, p1) = read_u16(s, pos)?;
        if remaining_length <= 2 {
            return Ok(
                (
                    PubAckPacket {
                        packet_id,
                        reason_code: PubAckReasonCode::Success,
                        reason_string: None,
                    },
                    p1,
                ),
            );
        }
        let (b, p2) = read_u8(s, p1)?;
        let reason_code = PubAckReasonCode::new(b)?;
        if remaining_length <= 3 {
            return Ok((PubAckPacket { packet_id, reason_code, reason_string: None }, p2));
        }
        let (reason_string, p3) = read_rs_props(s, p2)?;
        Ok((PubAckPacket { packet_id, reason_code, reason_string }, p3))
    }

    /// Serializes the packet into `buffer` at `index`; fails, touching
    /// nothing, exactly when the buffer is too short.
    pub fn write(&self, buffer: &mut Vec<u8>, index: usize) -> (r: Result<usize, CodecError>)
        requires
            self@.wf(),
            index <= old(buffer)@.len(),
        ensures
            (match r {
                Ok(n) => n == self@.bytes().len() && old(buffer)@.len() >= index
                    + self@.bytes().len() && final(buffer)@ == spliced(
                    old(buffer)@,
                    index as int,
                    self@.bytes(),
                ) && final(buffer)@.len() == old(buffer)@.len(),
                Err(e) => e == CodecError::InsufficientBytes && final(buffer)@ == old(buffer)@
                    && old(buffer)@.len() < index + self@.bytes().len(),
            }),
    {
        if matches!(self.reason_code, PubAckReasonCode::Success) && self.reason_string.is_none() {
            proof {
                assert(self@.body() =~= enc_u16(self@.packet_id));
            }
            if buffer.len() - index < 4 {
                return Err(CodecError::InsufficientBytes);
            }
            write_u8(buffer, index, 0x40);
            proof {
                lemma_spliced_concat(old(buffer)@, index as int, seq![0x40u8], enc_vbi(2));
            }
            write_vbi(buffer, index + 1, 2);
            proof {
                lemma_spliced_concat(
                    old(buffer)@,
                    index as int,
                    seq![0x40u8] + enc_vbi(2),
                    enc_u16(self.packet_id),
                );
            }
            write_u16(buffer, index + 2, self.packet_id);
            proof {
                assert(seq![0x40u8] + enc_vbi(2) + enc_u16(self.packet_id) =~= self@.bytes());
            }
            return Ok(4);
        }
        let props_nbytes = rs_props_size(&self.reason_string);
        proof {
            lemma_enc_vbi_len(crate::props::enc_rs_prop_items(self@.reason_string).len() as u32);
            assert(props_nbytes <= 4 + 3 + 0xFFFF);
        }
        let nbytes = 2 + 1 + props_nbytes;
        proof {
            assert(self@.tail() == enc_u8(self@.reason_code.as_byte()) + enc_rs_props(
                self@.reason_string,
            ));
            assert(nbytes == self@.body().len());
            lemma_enc_vbi_len(nbytes as u32);
        }
        let rl_size = vbi_size(nbytes as u32);
        let total = 1 + rl_size + nbytes;
        if buffer.len() - index < total {
            return Err(CodecError::InsufficientBytes);
        }
        write_u8(buffer, index, 0x40);
        proof {
            lemma_spliced_concat(old(buffer)@, index as int, seq![0x40u8], enc_vbi(nbytes as u32));
        }
        write_vbi(buffer, index + 1, nbytes as u32);
        proof {
            lemma_spliced_concat(
                old(buffer)@,
                index as int,
                seq![0x40u8] + enc_vbi(nbytes as u32),
                enc_u16(self.packet_id),
            );
        }
        write_u16(buffer, index + 1 + rl_size, self.packet_id);
        proof {
            lemma_spliced_concat(
                old(buffer)@,
                index as int,
                seq![0x40u8] + enc_vbi(nbytes as u32) + enc_u16(self.packet_id),
                enc_u8(self@.reason_code.as_byte()),
            );
        }
        let rc = self.reason_code.value();
        write_u8(buffer, index + 1 + rl_size + 2, rc);
        proof {
            lemma_spliced_concat(
                old(buffer)@,
                index as int,
                seq![0x40u8] + enc_vbi(nbytes as u32) + enc_u16(self.packet_id) + enc_u8(
                    self@.reason_code.as_byte(),
                ),
                enc_rs_props(self@.reason_string),
            );
        }
        write_rs_props(buffer, index + 1 + rl_size + 3, &self.reason_string);
        proof {
            assert(seq![0x40u8] + enc_vbi(nbytes as u32) + enc_u16(self.packet_id) + enc_u8(
                self@.reason_code.as_byte(),
            ) + enc_rs_props(self@.reason_string) =~= self@.bytes());
        }
        Ok(total)
    }
}

/// Progressive truncation: a PubAck whose remaining length admits no reason
/// code decodes to the success code with no properties, and one whose
/// remaining length admits no property region decodes without properties.
pub proof fn lemma_puback_truncation(s: Seq<u8>, i: int, flags: u8, rl: u32)
    ensures
        rl <= 2 ==> (parse_puback(s, i, flags, rl) matches Parsed::Found { val, next } ==> {
            &&& val.reason_code == PubAckReasonCode::Success
            &&& val.reason_string is None
        }),
        rl == 3 ==> (parse_puback(s, i, flags, rl) matches Parsed::Found { val, next }
            ==> val.reason_string is None),
{
}

/// Parsing an encoded PubAck body yields the packet back.
pub proof fn lemma_parse_enc_puback(s: Seq<u8>, i: int, v: PubAckView)
    requires
        v.wf(),
        0 <= i,
        i + v.body().len() <= s.len(),
        s.subrange(i, i + v.body().len()) == v.body(),
    ensures
        parse_puback(s, i, 0x00, v.body().len() as u32) == (Parsed::Found {
            val: v,
            next: i + v.body().len(),
        }),
{
    if v.reason_code == PubAckReasonCode::Success && v.reason_string is None {
        assert(v.body() =~= enc_u16(v.packet_id));
        lemma_parse_enc_u16(s, i, v.packet_id);
    } else {
        lemma_puback_full(s, i, v);
    }
}

/// The full-form case of the round trip, with the reason code and
/// properties on the wire.
proof fn lemma_puback_full(s: Seq<u8>, i: int, v: PubAckView)
    requires
        v.wf(),
        !(v.reason_code == PubAckReasonCode::Success && v.reason_string is None),
        0 <= i,
        i + v.body().len() <= s.len(),
        s.subrange(i, i + v.body().len()) == v.body(),
    ensures
        parse_puback(s, i, 0x00, v.body().len() as u32) == (Parsed::Found {
            val: v,
            next: i + v.body().len(),
        }),
{
    let a = enc_u16(v.packet_id);
    let b = enc_u8(v.reason_code.as_byte());
    let c = enc_rs_props(v.reason_string);
    lemma_enc_vbi_len(crate::props::enc_rs_prop_items(v.reason_string).len() as u32);
    assert(v.body() =~= a + (b + c));
    lemma_subrange_split(s, i, a, b + c);
    lemma_parse_enc_u16(s, i, v.packet_id);
    lemma_subrange_split(s, i + 2, b, c);
    assert(s.subrange(i + 2, i + 3)[0] == s[i + 2]);
    assert(s[i + 2] == v.reason_code.as_byte());
    v.reason_code.lemma_round();
    lemma_parse_enc_rs_props(s, i + 3, v.reason_string);
}

/// The full-form case of the round trip, with the reason code and
/// properties on the wire.
proof fn lemma_pubrec_full(s: Seq<u8>, i: int, v: PubRecView)
    requires
        v.wf(),
        !(v.reason_code == PubRecReasonCode::Success && v.reason_string is None),
        0 <= i,
        i + v.body().len() <= s.len(),
        s.subrange(i, i + v.body().len()) == v.body(),
    ensures
        parse_pubrec(s, i, 0x00, v.body().len() as u32) == (Parsed::Found {
            val: v,
            next: i + v.body().len(),
        }),
{
    let a = enc_u16(v.packet_id);
    let b = enc_u8(v.reason_code.as_byte());
    let c = enc_rs_props(v.reason_string);
    lemma_enc_vbi_len(crate::props::enc_rs_prop_items(v.reason_string).len() as u32);
    assert(v.body() =~= a + (b + c));
    lemma_subrange_split(s, i, a, b + c);
    lemma_parse_enc_u16(s, i, v.packet_id);
    lemma_subrange_split(s, i + 2, b, c);
    assert(s.subrange(i + 2, i + 3)[0] == s[i + 2]);
    assert(s[i + 2] == v.reason_code.as_byte());
    v.reason_code.lemma_round();
    lemma_parse_enc_rs_props(s, i + 3, v.reason_string);
}

/// The full-form case of the round trip, with the reason code and
/// properties on the wire.
proof fn lemma_pubrel_full(s: Seq<u8>, i: int, v: PubRelView)
    requires
        v.wf(),
        !(v.reason_code == PubRelReasonCode::Success && v.reason_string is None),
        0 <= i,
        i + v.body().len() <= s.len(),
        s.subrange(i, i + v.body().len()) == v.body(),
    ensures
        parse_pubrel(s, i, 0x02, v.body().len() as u32) == (Parsed::Found {
            val: v,
            next: i + v.body().len(),
        }),
{
    let a = enc_u16(v.packet_id);
    let b = enc_u8(v.reason_code.as_byte());
    let c = enc_rs_props(v.reason_string);
    lemma_enc_vbi_len(crate::props::enc_rs_prop_items(v.reason_string).len() as u32);
    assert(v.body() =~= a + (b + c));
    lemma_subrange_split(s, i, a, b + c);
    lemma_parse_enc_u16(s, i, v.packet_id);
    lemma_subrange_split(s, i + 2, b, c);
    assert(s.subrange(i + 2, i + 3)[0] == s[i + 2]);
    assert(s[i + 2] == v.reason_code.as_byte());
    v.reason_code.lemma_round();
    lemma_parse_enc_rs_props(s, i + 3, v.reason_string);
}

/// The full-form case of the round trip, with the reason code and
/// properties on the wire.
proof fn lemma_pubcomp_full(s: Seq<u8>, i: int, v: PubCompView)
    requires
        v.wf(),
        !(v.reason_code == PubCompReasonCode::Success && v.reason_string is None),
        0 <= i,
        i + v.body().len() <= s.len(),
        s.subrange(i, i + v.body().len()) == v.body(),
    ensures
        parse_pubcomp(s, i, 0x00, v.body().len() as u32) == (Parsed::Found {
            val: v,
            next: i + v.body().len(),
        }),
{
    let a = enc_u16(v.packet_id);
    let b = enc_u8(v.reason_code.as_byte());
    let c = enc_rs_props(v.reason_string);
    lemma_enc_vbi_len(crate::props::enc_rs_prop_items(v.reason_string).len() as u32);
    assert(v.body() =~= a + (b + c));
    lemma_subrange_split(s, i, a, b + c);
    lemma_parse_enc_u16(s, i, v.packet_id);
    lemma_subrange_split(s, i + 2, b, c);
    assert(s.subrange(i + 2, i + 3)[0] == s[i + 2]);
    assert(s[i + 2] == v.reason_code.as_byte());
    v.reason_code.lemma_round();
    lemma_parse_enc_rs_props(s, i + 3, v.reason_string);
}


/// First response to a Publish delivered with QoS ExactlyOnce.
#[derive(Clone, Debug, PartialEq, Eq)]
pub struct PubRecPacket {
    pub packet_id: u16,
    pub reason_code: PubRecReasonCode,
    pub reason_string: Option<Vec<u8>>,
}

/// The mathematical value of a PubRec packet.
#[verifier::ext_equal]
pub ghost struct PubRecView {
    pub packet_id: u16,
    pub reason_code: PubRecReasonCode,
    pub reason_string: Option<Seq<u8>>,
}

impl View for PubRecPacket {
    type V = PubRecView;

    open spec fn view(&self) -> PubRecView {
        PubRecView {
            packet_id: self.packet_id,
            reason_code: self.reason_code,
            reason_string: view_opt_bytes(self.reason_string),
        }
    }
}

impl PubRecView {
    /// The reason string fits its length prefix and is valid UTF-8.
    pub open spec fn wf(self) -> bool {
        wf_opt_str(self.reason_string)
    }

    /// Everything after the fixed header.
    pub open spec fn body(self) -> Seq<u8> {
        enc_u16(self.packet_id) + self.tail()
    }

    /// The reason code and properties; a packet at its defaults (success and
    /// no properties) takes the minimal two-byte form, with both omitted.
    pub open spec fn tail(self) -> Seq<u8> {
        if self.reason_code == PubRecReasonCode::Success && self.reason_string is None {
            Seq::empty()
        } else {
            enc_u8(self.reason_code.as_byte()) + enc_rs_props(self.reason_string)
        }
    }

    /// The complete wire form.
    pub open spec fn bytes(self) -> Seq<u8> {
        seq![0x50u8] + enc_vbi(self.body().len() as u32) + self.body()
    }
}

/// The variable header of a PubRec packet, after the fixed header.  `rl` is
/// the declared remaining length, which gates the optional reason code and
/// properties.
pub open spec fn parse_pubrec(s: Seq<u8>, i: int, flags: u8, rl: u32) -> Parsed<PubRecView> {
    if flags != 0x00 {
        Parsed::Malformed
    } else {
        match parse_u16(s, i) {
            Parsed::Found { val: packet_id, next: j } => {
                if rl <= 2 {
                    Parsed::Found {
                        val: PubRecView {
                            packet_id,
                            reason_code: PubRecReasonCode::Success,
                            reason_string: None,
                        },
                        next: j,
                    }
                } else {
                    match parse_u8(s, j) {
                        Parsed::Found { val: b, next: k } => {
                            match PubRecReasonCode::spec_from(b) {
                                Some(reason_code) => {
                                    if rl <= 3 {
                                        Parsed::Found {
                                            val: PubRecView {
                                                packet_id,
                                                reason_code,
                                                reason_string: None,
                                            },
                                            next: k,
                                        }
                                    } else {
                                        match parse_rs_props(s, k) {
                                            Parsed::Found { val: reason_string, next: m } => {
                                                Parsed::Found {
                                                    val: PubRecView {
                                                        packet_id,
                                                        reason_code,
                                                        reason_string,
                                                    },
                                                    next: m,
                                                }
                                            },
                                            Parsed::Incomplete => Parsed::Incomplete,
                                            Parsed::Malformed => Parsed::Malformed,
                                        }
                                    }
                                },
                                None => Parsed::Malformed,
                            }
                        },
                        _ => Parsed::Incomplete,
                    }
                }
            },
            _ => Parsed::Incomplete,
        }
    }
}

impl PubRecPacket {
    pub fn new(
        packet_id: u16,
        reason_code: PubRecReasonCode,
        reason_string: Option<Vec<u8>>,
    ) -> (r: PubRecPacket)
        ensures
            r@ == (PubRecView {
                packet_id,
                reason_code,
                reason_string: view_opt_bytes(reason_string),
            }),
    {
        PubRecPacket { packet_id, reason_code, reason_string }
    }

    /// Reads the variable header, the cursor standing after the fixed
    /// header.
    pub fn read(s: &[u8], pos: usize, flags: u8, remaining_length: u32) -> (r: Result<
        (PubRecPacket, usize),
        CodecError,
    >)
        requires
            pos <= s@.len(),
        ensures
            (match parse_pubrec(s@, pos as int, flags, remaining_length) {
                Parsed::Found { val, next } => r matches Ok(x) && x.0@ == val && x.1 == next
                    && pos < next <= s@.len() && next <= usize::MAX,
                Parsed::Incomplete => r == Err::<(PubRecPacket, usize), CodecError>(
                    CodecError::InsufficientBytes,
                ),
                Parsed::Malformed => r == Err::<(PubRecPacket, usize), CodecError>(
                    CodecError::MalformedBytes,
                ),
            }),
    {
        if flags != 0x00 {
            return Err(CodecError::MalformedBytes);
        }
        let (packet_id, p1) = read_u16(s, pos)?;
        if remaining_length <= 2 {
            return Ok(
                (
                    PubRecPacket {
                        packet_id,
                        reason_code: PubRecReasonCode::Success,
                        reason_string: None,
                    },
                    p1,
                ),
            );
        }
        let (b, p2) = read_u8(s, p1)?;
        let reason_code = PubRecReasonCode::new(b)?;
        if remaining_length <= 3 {
            return Ok((PubRecPacket { packet_id, reason_code, reason_string: None }, p2));
        }
        let (reason_string, p3) = read_rs_props(s, p2)?;
        Ok((PubRecPacket { packet_id, reason_code, reason_string }, p3))
    }

    /// Serializes the packet into `buffer` at `index`; fails, touching
    /// nothing, exactly when the buffer is too short.
    pub fn write(&self, buffer: &mut Vec<u8>, index: usize) -> (r: Result<usize, CodecError>)
        requires
            self@.wf(),
            index <= old(buffer)@.len(),
        ensures
            (match r {
                Ok(n) => n == self@.bytes().len() && old(buffer)@.len() >= index
                    + self@.bytes().len() && final(buffer)@ == spliced(
                    old(buffer)@,
                    index as int,
                    self@.bytes(),
                ) && final(buffer)@.len() == old(buffer)@.len(),
                Err(e) => e == CodecError::InsufficientBytes && final(buffer)@ == old(buffer)@
                    && old(buffer)@.len() < index + self@.bytes().len(),
            }),
    {
        if matches!(self.reason_code, PubRecReasonCode::Success) && self.reason_string.is_none() {
            proof {
                assert(self@.body() =~= enc_u16(self@.packet_id));
            }
            if buffer.len() - index < 4 {
                return Err(CodecError::InsufficientBytes);
            }
            write_u8(buffer, index, 0x50);
            proof {
                lemma_spliced_concat(old(buffer)@, index as int, seq![0x50u8], enc_vbi(2));
            }
            write_vbi(buffer, index + 1, 2);
            proof {
                lemma_spliced_concat(
                    old(buffer)@,
                    index as int,
                    seq![0x50u8] + enc_vbi(2),
                    enc_u16(self.packet_id),
                );
            }
            write_u16(buffer, index + 2, self.packet_id);
            proof {
                assert(seq![0x50u8] + enc_vbi(2) + enc_u16(self.packet_id) =~= self@.bytes());
            }
            return Ok(4);
        }
        let props_nbytes = rs_props_size(&self.reason_string);
        proof {
            lemma_enc_vbi_len(crate::props::enc_rs_prop_items(self@.reason_string).len() as u32);
            assert(props_nbytes <= 4 + 3 + 0xFFFF);
        }
        let nbytes = 2 + 1 + props_nbytes;
        proof {
            assert(self@.tail() == enc_u8(self@.reason_code.as_byte()) + enc_rs_props(
                self@.reason_string,
            ));
            assert(nbytes == self@.body().len());
            lemma_enc_vbi_len(nbytes as u32);
        }
        let rl_size = vbi_size(nbytes as u32);
        let total = 1 + rl_size + nbytes;
        if buffer.len() - index < total {
            return Err(CodecError::InsufficientBytes);
        }
        write_u8(buffer, index, 0x50);
        proof {
            lemma_spliced_concat(old(buffer)@, index as int, seq![0x50u8], enc_vbi(nbytes as u32));
        }
        write_vbi(buffer, index + 1, nbytes as u32);
        proof {
            lemma_spliced_concat(
                old(buffer)@,
                index as int,
                seq![0x50u8] + enc_vbi(nbytes as u32),
                enc_u16(self.packet_id),
            );
        }
        write_u16(buffer, index + 1 + rl_size, self.packet_id);
        proof {
            lemma_spliced_concat(
                old(buffer)@,
                index as int,
                seq![0x50u8] + enc_vbi(nbytes as u32) + enc_u16(self.packet_id),
                enc_u8(self@.reason_code.as_byte()),
            );
        }
        let rc = self.reason_code.value();
        write_u8(buffer, index + 1 + rl_size + 2, rc);
        proof {
            lemma_spliced_concat(
                old(buffer)@,
                index as int,
                seq![0x50u8] + enc_vbi(nbytes as u32) + enc_u16(self.packet_id) + enc_u8(
                    self@.reason_code.as_byte(),
                ),
                enc_rs_props(self@.reason_string),
            );
        }
        write_rs_props(buffer, index + 1 + rl_size + 3, &self.reason_string);
        proof {
            assert(seq![0x50u8] + enc_vbi(nbytes as u32) + enc_u16(self.packet_id) + enc_u8(
                self@.reason_code.as_byte(),
            ) + enc_rs_props(self@.reason_string) =~= self@.bytes());
        }
        Ok(total)
    }
}

/// Parsing an encoded PubRec body yields the packet back.
pub proof fn lemma_parse_enc_pubrec(s: Seq<u8>, i: int, v: PubRecView)
    requires
        v.wf(),
        0 <= i,
        i + v.body().len() <= s.len(),
        s.subrange(i, i + v.body().len()) == v.body(),
    ensures
        parse_pubrec(s, i, 0x00, v.body().len() as u32) == (Parsed::Found {
            val: v,
            next: i + v.body().len(),
        }),
{
    if v.reason_code == PubRecReasonCode::Success && v.reason_string is None {
        assert(v.body() =~= enc_u16(v.packet_id));
        lemma_parse_enc_u16(s, i, v.packet_id);
    } else {
        lemma_pubrec_full(s, i, v);
    }
}


/// Response to a PubRec in the QoS ExactlyOnce exchange.
#[derive(Clone, Debug, PartialEq, Eq)]
pub struct PubRelPacket {
    pub packet_id: u16,
    pub reason_code: PubRelReasonCode,
    pub reason_string: Option<Vec<u8>>,
}

/// The mathematical value of a PubRel packet.
#[verifier::ext_equal]
pub ghost struct PubRelView {
    pub packet_id: u16,
    pub reason_code: PubRelReasonCode,
    pub reason_string: Option<Seq<u8>>,
}

impl View for PubRelPacket {
    type V = PubRelView;

    open spec fn view(&self) -> PubRelView {
        PubRelView {
            packet_id: self.packet_id,
            reason_code: self.reason_code,
            reason_string: view_opt_bytes(self.reason_string),
        }
    }
}

impl PubRelView {
    /// The reason string fits its length prefix and is valid UTF-8.
    pub open spec fn wf(self) -> bool {
        wf_opt_str(self.reason_string)
    }

    /// Everything after the fixed header.
    pub open spec fn body(self) -> Seq<u8> {
        enc_u16(self.packet_id) + self.tail()
    }

    /// The reason code and properties; a packet at its defaults (success and
    /// no properties) takes the minimal two-byte form, with both omitted.
    pub open spec fn tail(self) -> Seq<u8> {
        if self.reason_code == PubRelReasonCode::Success && self.reason_string is None {
            Seq::empty()
        } else {
            enc_u8(self.reason_code.as_byte()) + enc_rs_props(self.reason_string)
        }
    }

    /// The complete wire form.
    pub open spec fn bytes(self) -> Seq<u8> {
        seq![0x62u8] + enc_vbi(self.body().len() as u32) + self.body()
    }
}

/// The variable header of a PubRel packet, after the fixed header.  `rl` is
/// the declared remaining length, which gates the optional reason code and
/// properties.
pub open spec fn parse_pubrel(s: Seq<u8>, i: int, flags: u8, rl: u32) -> Parsed<PubRelView> {
    if flags != 0x02 {
        Parsed::Malformed
    } else {
        match parse_u16(s, i) {
            Parsed::Found { val: packet_id, next: j } => {
                if rl <= 2 {
                    Parsed::Found {
                        val: PubRelView {
                            packet_id,
                            reason_code: PubRelReasonCode::Success,
                            reason_string: None,
                        },
                        next: j,
                    }
                } else {
                    match parse_u8(s, j) {
                        Parsed::Found { val: b, next: k } => {
                            match PubRelReasonCode::spec_from(b) {
                                Some(reason_code) => {
                                    if rl <= 3 {
                                        Parsed::Found {
                                            val: PubRelView {
                                                packet_id,
                                                reason_code,
                                                reason_string: None,
                                            },
                                            next: k,
                                        }
                                    } else {
                                        match parse_rs_props(s, k) {
                                            Parsed::Found { val: reason_string, next: m } => {
                                                Parsed::Found {
                                                    val: PubRelView {
                                                        packet_id,
                                                        reason_code,
                                                        reason_string,
                                                    },
                                                    next: m,
                                                }
                                            },
                                            Parsed::Incomplete => Parsed::Incomplete,
                                            Parsed::Malformed => Parsed::Malformed,
                                        }
                                    }
                                },
                                None => Parsed::Malformed,
                            }
                        },
                        _ => Parsed::Incomplete,
                    }
                }
            },
            _ => Parsed::Incomplete,
        }
    }
}

impl PubRelPacket {
    pub fn new(
        packet_id: u16,
        reason_code: PubRelReasonCode,
        reason_string: Option<Vec<u8>>,
    ) -> (r: PubRelPacket)
        ensures
            r@ == (PubRelView {
                packet_id,
                reason_code,
                reason_string: view_opt_bytes(reason_string),
            }),
    {
        PubRelPacket { packet_id, reason_code, reason_string }
    }

    /// Reads the variable header, the cursor standing after the fixed
    /// header.
    pub fn read(s: &[u8], pos: usize, flags: u8, remaining_length: u32) -> (r: Result<
        (PubRelPacket, usize),
        CodecError,
    >)
        requires
            pos <= s@.len(),
        ensures
            (match parse_pubrel(s@, pos as int, flags, remaining_length) {
                Parsed::Found { val, next } => r matches Ok(x) && x.0@ == val && x.1 == next
                    && pos < next <= s@.len() && next <= usize::MAX,
                Parsed::Incomplete => r == Err::<(PubRelPacket, usize), CodecError>(
                    CodecError::InsufficientBytes,
                ),
                Parsed::Malformed => r == Err::<(PubRelPacket, usize), CodecError>(
                    CodecError::MalformedBytes,
                ),
            }),
    {
        if flags != 0x02 {
            return Err(CodecError::MalformedBytes);
        }
        let (packet_id, p1) = read_u16(s, pos)?;
        if remaining_length <= 2 {
            return Ok(
                (
                    PubRelPacket {
                        packet_id,
                        reason_code: PubRelReasonCode::Success,
                        reason_string: None,
                    },
                    p1,
                ),
            );
        }
        let (b, p2) = read_u8(s, p1)?;
        let reason_code = PubRelReasonCode::new(b)?;
        if remaining_length <= 3 {
            return Ok((PubRelPacket { packet_id, reason_code, reason_string: None }, p2));
        }
        let (reason_string, p3) = read_rs_props(s, p2)?;
        Ok((PubRelPacket { packet_id, reason_code, reason_string }, p3))
    }

    /// Serializes the packet into `buffer` at `index`; fails, touching
    /// nothing, exactly when the buffer is too short.
    pub fn write(&self, buffer: &mut Vec<u8>, index: usize) -> (r: Result<usize, CodecError>)
        requires
            self@.wf(),
            index <= old(buffer)@.len(),
        ensures
            (match r {
                Ok(n) => n == self@.bytes().len() && old(buffer)@.len() >= index
                    + self@.bytes().len() && final(buffer)@ == spliced(
                    old(buffer)@,
                    index as int,
                    self@.bytes(),
                ) && final(buffer)@.len() == old(buffer)@.len(),
                Err(e) => e == CodecError::InsufficientBytes && final(buffer)@ == old(buffer)@
                    && old(buffer)@.len() < index + self@.bytes().len(),
            }),
    {
        if matches!(self.reason_code, PubRelReasonCode::Success) && self.reason_string.is_none() {
            proof {
                assert(self@.body() =~= enc_u16(self@.packet_id));
            }
            if buffer.len() - index < 4 {
                return Err(CodecError::InsufficientBytes);
            }
            write_u8(buffer, index, 0x62);
            proof {
                lemma_spliced_concat(old(buffer)@, index as int, seq![0x62u8], enc_vbi(2));
            }
            write_vbi(buffer, index + 1, 2);
            proof {
                lemma_spliced_concat(
                    old(buffer)@,
                    index as int,
                    seq![0x62u8] + enc_vbi(2),
                    enc_u16(self.packet_id),
                );
            }
            write_u16(buffer, index + 2, self.packet_id);
            proof {
                assert(seq![0x62u8] + enc_vbi(2) + enc_u16(self.packet_id) =~= self@.bytes());
            }
            return Ok(4);
        }
        let props_nbytes = rs_props_size(&self.reason_string);
        proof {
            lemma_enc_vbi_len(crate::props::enc_rs_prop_items(self@.reason_string).len() as u32);
            assert(props_nbytes <= 4 + 3 + 0xFFFF);
        }
        let nbytes = 2 + 1 + props_nbytes;
        proof {
            assert(self@.tail() == enc_u8(self@.reason_code.as_byte()) + enc_rs_props(
                self@.reason_string,
            ));
            assert(nbytes == self@.body().len());
            lemma_enc_vbi_len(nbytes as u32);
        }
        let rl_size = vbi_size(nbytes as u32);
        let total = 1 + rl_size + nbytes;
        if buffer.len() - index < total {
            return Err(CodecError::InsufficientBytes);
        }
        write_u8(buffer, index, 0x62);
        proof {
            lemma_spliced_concat(old(buffer)@, index as int, seq![0x62u8], enc_vbi(nbytes as u32));
        }
        write_vbi(buffer, index + 1, nbytes as u32);
        proof {
            lemma_spliced_concat(
                old(buffer)@,
                index as int,
                seq![0x62u8] + enc_vbi(nbytes as u32),
                enc_u16(self.packet_id),
            );
        }
        write_u16(buffer, index + 1 + rl_size, self.packet_id);
        proof {
            lemma_spliced_concat(
                old(buffer)@,
                index as int,
                seq![0x62u8] + enc_vbi(nbytes as u32) + enc_u16(self.packet_id),
                enc_u8(self@.reason_code.as_byte()),
            );
        }
        let rc = self.reason_code.value();
        write_u8(buffer, index + 1 + rl_size + 2, rc);
        proof {
            lemma_spliced_concat(
                old(buffer)@,
                index as int,
                seq![0x62u8] + enc_vbi(nbytes as u32) + enc_u16(self.packet_id) + enc_u8(
                    self@.reason_code.as_byte(),
                ),
                enc_rs_props(self@.reason_string),
            );
        }
        write_rs_props(buffer, index + 1 + rl_size + 3, &self.reason_string);
        proof {
            assert(seq![0x62u8] + enc_vbi(nbytes as u32) + enc_u16(self.packet_id) + enc_u8(
                self@.reason_code.as_byte(),
            ) + enc_rs_props(self@.reason_string) =~= self@.bytes());
        }
        Ok(total)
    }
}

/// Parsing an encoded PubRel body yields the packet back.
pub proof fn lemma_parse_enc_pubrel(s: Seq<u8>, i: int, v: PubRelView)
    requires
        v.wf(),
        0 <= i,
        i + v.body().len() <= s.len(),
        s.subrange(i, i + v.body().len()) == v.body(),
    ensures
        parse_pubrel(s, i, 0x02, v.body().len() as u32) == (Parsed::Found {
            val: v,
            next: i + v.body().len(),
        }),
{
    if v.reason_code == PubRelReasonCode::Success && v.reason_string is None {
        assert(v.body() =~= enc_u16(v.packet_id));
        lemma_parse_enc_u16(s, i, v.packet_id);
    } else {
        lemma_pubrel_full(s, i, v);
    }
}


/// Final response in the QoS ExactlyOnce exchange.
#[derive(Clone, Debug, PartialEq, Eq)]
pub struct PubCompPacket {
    pub packet_id: u16,
    pub reason_code: PubCompReasonCode,
    pub reason_string: Option<Vec<u8>>,
}

/// The mathematical value of a PubComp packet.
#[verifier::ext_equal]
pub ghost struct PubCompView {
    pub packet_id: u16,
    pub reason_code: PubCompReasonCode,
    pub reason_string: Option<Seq<u8>>,
}

impl View for PubCompPacket {
    type V = PubCompView;

    open spec fn view(&self) -> PubCompView {
        PubCompView {
            packet_id: self.packet_id,
            reason_code: self.reason_code,
            reason_string: view_opt_bytes(self.reason_string),
        }
    }
}

impl PubCompView {
    /// The reason string fits its length prefix and is valid UTF-8.
    pub open spec fn wf(self) -> bool {
        wf_opt_str(self.reason_string)
    }

    /// Everything after the fixed header.
    pub open spec fn body(self) -> Seq<u8> {
        enc_u16(self.packet_id) + self.tail()
    }

    /// The reason code and properties; a packet at its defaults (success and
    /// no properties) takes the minimal two-byte form, with both omitted.
    pub open spec fn tail(self) -> Seq<u8> {
        if self.reason_code == PubCompReasonCode::Success && self.reason_string is None {
            Seq::empty()
        } else {
            enc_u8(self.reason_code.as_byte()) + enc_rs_props(self.reason_string)
        }
    }

    /// The complete wire form.
    pub open spec fn bytes(self) -> Seq<u8> {
        seq![0x70u8] + enc_vbi(self.body().len() as u32) + self.body()
    }
}

/// The variable header of a PubComp packet, after the fixed header.  `rl` is
/// the declared remaining length, which gates the optional reason code and
/// properties.
pub open spec fn parse_pubcomp(s: Seq<u8>, i: int, flags: u8, rl: u32) -> Parsed<PubCompView> {
    if flags != 0x00 {
        Parsed::Malformed
    } else {
        match parse_u16(s, i) {
            Parsed::Found { val: packet_id, next: j } => {
                if rl <= 2 {
                    Parsed::Found {
                        val: PubCompView {
                            packet_id,
                            reason_code: PubCompReasonCode::Success,
                            reason_string: None,
                        },
                        next: j,
                    }
                } else {
                    match parse_u8(s, j) {
                        Parsed::Found { val: b, next: k } => {
                            match PubCompReasonCode::spec_from(b) {
                                Some(reason_code) => {
                                    if rl <= 3 {
                                        Parsed::Found {
                                            val: PubCompView {
                                                packet_id,
                                                reason_code,
                                                reason_string: None,
                                            },
                                            next: k,
                                        }
                                    } else {
                                        match parse_rs_props(s, k) {
                                            Parsed::Found { val: reason_string, next: m } => {
                                                Parsed::Found {
                                                    val: PubCompView {
                                                        packet_id,
                                                        reason_code,
                                                        reason_string,
                                                    },
                                                    next: m,
                                                }
                                            },
                                            Parsed::Incomplete => Parsed::Incomplete,
                                            Parsed::Malformed => Parsed::Malformed,
                                        }
                                    }
                                },
                                None => Parsed::Malformed,
                            }
                        },
                        _ => Parsed::Incomplete,
                    }
                }
            },
            _ => Parsed::Incomplete,
        }
    }
}

impl PubCompPacket {
    pub fn new(
        packet_id: u16,
        reason_code: PubCompReasonCode,
        reason_string: Option<Vec<u8>>,
    ) -> (r: PubCompPacket)
        ensures
            r@ == (PubCompView {
                packet_id,
                reason_code,
                reason_string: view_opt_bytes(reason_string),
            }),
    {
        PubCompPacket { packet_id, reason_code, reason_string }
    }

    /// Reads the variable header, the cursor standing after the fixed
    /// header.
    pub fn read(s: &[u8], pos: usize, flags: u8, remaining_length: u32) -> (r: Result<
        (PubCompPacket, usize),
        CodecError,
    >)
        requires
            pos <= s@.len(),
        ensures
            (match parse_pubcomp(s@, pos as int, flags, remaining_length) {
                Parsed::Found { val, next } => r matches Ok(x) && x.0@ == val && x.1 == next
                    && pos < next <= s@.len() && next <= usize::MAX,
                Parsed::Incomplete => r == Err::<(PubCompPacket, usize), CodecError>(
                    CodecError::InsufficientBytes,
                ),
                Parsed::Malformed => r == Err::<(PubCompPacket, usize), CodecError>(
                    CodecError::MalformedBytes,
                ),
            }),
    {
        if flags != 0x00 {
            return Err(CodecError::MalformedBytes);
        }
        let (packet_id, p1) = read_u16(s, pos)?;
        if remaining_length <= 2 {
            return Ok(
                (
                    PubCompPacket {
                        packet_id,
                        reason_code: PubCompReasonCode::Success,
                        reason_string: None,
                    },
                    p1,
                ),
            );
        }
        let (b, p2) = read_u8(s, p1)?;
        let reason_code = PubCompReasonCode::new(b)?;
        if remaining_length <= 3 {
            return Ok((PubCompPacket { packet_id, reason_code, reason_string: None }, p2));
        }
        let (reason_string, p3) = read_rs_props(s, p2)?;
        Ok((PubCompPacket { packet_id, reason_code, reason_string }, p3))
    }

    /// Serializes the packet into `buffer` at `index`; fails, touching
    /// nothing, exactly when the buffer is too short.
    pub fn write(&self, buffer: &mut Vec<u8>, index: usize) -> (r: Result<usize, CodecError>)
        requires
            self@.wf(),
            index <= old(buffer)@.len(),
        ensures
            (match r {
                Ok(n) => n == self@.bytes().len() && old(buffer)@.len() >= index
                    + self@.bytes().len() && final(buffer)@ == spliced(
                    old(buffer)@,
                    index as int,
                    self@.bytes(),
                ) && final(buffer)@.len() == old(buffer)@.len(),
                Err(e) => e == CodecError::InsufficientBytes && final(buffer)@ == old(buffer)@
                    && old(buffer)@.len() < index + self@.bytes().len(),
            }),
    {
        if matches!(self.reason_code, PubCompReasonCode::Success) && self.reason_string.is_none() {
            proof {
                assert(self@.body() =~= enc_u16(self@.packet_id));
            }
            if buffer.len() - index < 4 {
                return Err(CodecError::InsufficientBytes);
            }
            write_u8(buffer, index, 0x70);
            proof {
                lemma_spliced_concat(old(buffer)@, index as int, seq![0x70u8], enc_vbi(2));
            }
            write_vbi(buffer, index + 1, 2);
            proof {
                lemma_spliced_concat(
                    old(buffer)@,
                    index as int,
                    seq![0x70u8] + enc_vbi(2),
                    enc_u16(self.packet_id),
                );
            }
            write_u16(buffer, index + 2, self.packet_id);
            proof {
                assert(seq![0x70u8] + enc_vbi(2) + enc_u16(self.packet_id) =~= self@.bytes());
            }
            return Ok(4);
        }
        let props_nbytes = rs_props_size(&self.reason_string);
        proof {
            lemma_enc_vbi_len(crate::props::enc_rs_prop_items(self@.reason_string).len() as u32);
            assert(props_nbytes <= 4 + 3 + 0xFFFF);
        }
        let nbytes = 2 + 1 + props_nbytes;
        proof {
            assert(self@.tail() == enc_u8(self@.reason_code.as_byte()) + enc_rs_props(
                self@.reason_string,
            ));
            assert(nbytes == self@.body().len());
            lemma_enc_vbi_len(nbytes as u32);
        }
        let rl_size = vbi_size(nbytes as u32);
        let total = 1 + rl_size + nbytes;
        if buffer.len() - index < total {
            return Err(CodecError::InsufficientBytes);
        }
        write_u8(buffer, index, 0x70);
        proof {
            lemma_spliced_concat(old(buffer)@, index as int, seq![0x70u8], enc_vbi(nbytes as u32));
        }
        write_vbi(buffer, index + 1, nbytes as u32);
        proof {
            lemma_spliced_concat(
                old(buffer)@,
                index as int,
                seq![0x70u8] + enc_vbi(nbytes as u32),
                enc_u16(self.packet_id),
            );
        }
        write_u16(buffer, index + 1 + rl_size, self.packet_id);
        proof {
            lemma_spliced_concat(
                old(buffer)@,
                index as int,
                seq![0x70u8] + enc_vbi(nbytes as u32) + enc_u16(self.packet_id),
                enc_u8(self@.reason_code.as_byte()),
            );
        }
        let rc = self.reason_code.value();
        write_u8(buffer, index + 1 + rl_size + 2, rc);
        proof {
            lemma_spliced_concat(
                old(buffer)@,
                index as int,
                seq![0x70u8] + enc_vbi(nbytes as u32) + enc_u16(self.packet_id) + enc_u8(
                    self@.reason_code.as_byte(),
                ),
                enc_rs_props(self@.reason_string),
            );
        }
        write_rs_props(buffer, index + 1 + rl_size + 3, &self.reason_string);
        proof {
            assert(seq![0x70u8] + enc_vbi(nbytes as u32) + enc_u16(self.packet_id) + enc_u8(
                self@.reason_code.as_byte(),
            ) + enc_rs_props(self@.reason_string) =~= self@.bytes());
        }
        Ok(total)
    }
}

/// Parsing an encoded PubComp body yields the packet back.
pub proof fn lemma_parse_enc_pubcomp(s: Seq<u8>, i: int, v: PubCompView)
    requires
        v.wf(),
        0 <= i,
        i + v.body().len() <= s.len(),
        s.subrange(i, i + v.body().len()) == v.body(),
    ensures
        parse_pubcomp(s, i, 0x00, v.body().len() as u32) == (Parsed::Found {
            val: v,
            next: i + v.body().len(),
        }),
{
    if v.reason_code == PubCompReasonCode::Success && v.reason_string is None {
        assert(v.body() =~= enc_u16(v.packet_id));
        lemma_parse_enc_u16(s, i, v.packet_id);
    } else {
        lemma_pubcomp_full(s, i, v);
    }
}

} // verus!
