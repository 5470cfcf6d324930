//! The UnsubAck packet: a packet identifier, a reason-string property, and
//! a payload of one reason code per requested topic filter, read until the
//! declared remaining length is exhausted.

use crate::codec::{
    enc_u16, enc_vbi, lemma_enc_vbi_len, lemma_parse_enc_u16, lemma_spliced_concat,
    lemma_subrange_split, parse_u16, parse_u8, read_u16, read_u8, rem, spliced, vbi_size,
    view_opt_bytes, wf_opt_str, write_u16, write_u8, write_vbi, CodecError, Parsed,
};
use crate::props::{
    enc_rs_props, lemma_parse_enc_rs_props, parse_rs_props, read_rs_props, rs_props_size,
    write_rs_props,
};
use crate::reason_codes::UnsubAckReasonCode;
use vstd::prelude::*;

verus! {

/// The server's answer to an Unsubscribe request.
#[derive(Clone, Debug, PartialEq, Eq)]
pub struct UnsubAckPacket {
    pub packet_id: u16,
    pub reason_codes: Vec<UnsubAckReasonCode>,
    pub reason_string: Option<Vec<u8>>,
}

/// The mathematical value of an UnsubAck packet.
#[verifier::ext_equal]
pub ghost struct UnsubAckView {
    pub packet_id: u16,
    pub reason_codes: Seq<UnsubAckReasonCode>,
    pub reason_string: Option<Seq<u8>>,
}

impl View for UnsubAckPacket {
    type V = UnsubAckView;

    open spec fn view(&self) -> UnsubAckView {
        UnsubAckView {
            packet_id: self.packet_id,
            reason_codes: self.reason_codes@,
            reason_string: view_opt_bytes(self.reason_string),
        }
    }
}

/// The payload bytes: one byte per reason code, in order.
pub open spec fn enc_unsuback_codes(cs: Seq<UnsubAckReasonCode>) -> Seq<u8>
    decreases cs.len(),
{
    if cs.len() == 0 {
        Seq::empty()
    } else {
        seq![cs[0].as_byte()] + enc_unsuback_codes(cs.drop_first())
    }
}

pub proof fn lemma_enc_unsuback_codes_len(cs: Seq<UnsubAckReasonCode>)
    ensures
        enc_unsuback_codes(cs).len() == cs.len(),
    decreases cs.len(),
{
    if cs.len() > 0 {
        lemma_enc_unsuback_codes_len(cs.drop_first());
    }
}

pub proof fn lemma_enc_unsuback_codes_snoc(cs: Seq<UnsubAckReasonCode>, c: UnsubAckReasonCode)
    ensures
        enc_unsuback_codes(cs.push(c)) == enc_unsuback_codes(cs) + seq![c.as_byte()],
    decreases cs.len(),
{
    if cs.len() == 0 {
        assert(cs.push(c).drop_first() =~= cs);
        assert(enc_unsuback_codes(cs.push(c)) =~= enc_unsuback_codes(cs) + seq![c.as_byte()]);
    } else {
        assert(cs.push(c).drop_first() =~= cs.drop_first().push(c));
        lemma_enc_unsuback_codes_snoc(cs.drop_first(), c);
        assert(enc_unsuback_codes(cs.push(c)) =~= enc_unsuback_codes(cs) + seq![c.as_byte()]);
    }
}

/// The payload loop: reason codes until the declared end of the packet.
pub open spec fn parse_unsuback_codes(
    s: Seq<u8>,
    i: int,
    end: int,
    acc: Seq<UnsubAckReasonCode>,
) -> Parsed<Seq<UnsubAckReasonCode>>
    decreases rem(i, end),
{
    if i >= end {
        Parsed::Found { val: acc, next: i }
    } else {
        match parse_u8(s, i) {
            Parsed::Found { val: b, next: j } => {
                match UnsubAckReasonCode::spec_from(b) {
                    Some(c) => parse_unsuback_codes(s, j, end, acc.push(c)),
                    None => Parsed::Malformed,
                }
            },
            _ => Parsed::Incomplete,
        }
    }
}

/// Parsing an encoded payload yields the reason codes back.
pub proof fn lemma_parse_enc_unsuback_codes(
    s: Seq<u8>,
    i: int,
    cs: Seq<UnsubAckReasonCode>,
    acc: Seq<UnsubAckReasonCode>,
)
    requires
        0 <= i,
        i + cs.len() <= s.len(),
        s.subrange(i, i + cs.len()) == enc_unsuback_codes(cs),
    ensures
        parse_unsuback_codes(s, i, i + cs.len(), acc) == (Parsed::Found {
            val: acc + cs,
            next: i + cs.len(),
        }),
    decreases cs.len(),
{
    lemma_enc_unsuback_codes_len(cs);
    if cs.len() == 0 {
        assert(acc + cs =~= acc);
    } else {
        let c = cs[0];
        let rest = cs.drop_first();
        lemma_enc_unsuback_codes_len(rest);
        lemma_subrange_split(s, i, seq![c.as_byte()], enc_unsuback_codes(rest));
        assert(s.subrange(i, i + 1)[0] == s[i]);
        c.lemma_round();
        lemma_parse_enc_unsuback_codes(s, i + 1, rest, acc.push(c));
        assert(acc.push(c) + rest =~= acc + cs);
    }
}

/// The variable header and payload of an UnsubAck packet.
pub open spec fn parse_unsuback(s: Seq<u8>, i: int, flags: u8, rl: u32) -> Parsed<UnsubAckView> {
    if flags != 0x00 {
        Parsed::Malformed
    } else {
        match parse_u16(s, i) {
            Parsed::Found { val: packet_id, next: j } => {
                match parse_rs_props(s, j) {
                    Parsed::Found { val: reason_string, next: k } => {
                        match parse_unsuback_codes(s, k, i + rl, Seq::empty()) {
                            Parsed::Found { val: reason_codes, next: m } => Parsed::Found {
                                val: UnsubAckView { packet_id, reason_codes, reason_string },
                                next: m,
                            },
                            Parsed::Incomplete => Parsed::Incomplete,
                            Parsed::Malformed => Parsed::Malformed,
                        }
                    },
                    Parsed::Incomplete => Parsed::Incomplete,
                    Parsed::Malformed => Parsed::Malformed,
                }
            },
            _ => Parsed::Incomplete,
        }
    }
}

impl UnsubAckView {
    pub open spec fn wf(self) -> bool {
        wf_opt_str(self.reason_string) && self.body().len() <= crate::codec::VBI_MAX
    }

    /// Everything after the fixed header.
    pub open spec fn body(self) -> Seq<u8> {
        enc_u16(self.packet_id) + enc_rs_props(self.reason_string) + enc_unsuback_codes(
            self.reason_codes,
        )
    }

    /// The complete wire form.
    pub open spec fn bytes(self) -> Seq<u8> {
        seq![0xB0u8] + enc_vbi(self.body().len() as u32) + self.body()
    }
}

impl UnsubAckPacket {
    pub fn new(
        packet_id: u16,
        reason_codes: Vec<UnsubAckReasonCode>,
        reason_string: Option<Vec<u8>>,
    ) -> (r: UnsubAckPacket)
        ensures
            r@ == (UnsubAckView {
                packet_id,
                reason_codes: reason_codes@,
                reason_string: view_opt_bytes(reason_string),
            }),
    {
        UnsubAckPacket { packet_id, reason_codes, reason_string }
    }

    /// Reads the variable header and payload, the cursor standing after the
    /// fixed header.
    pub fn read(s: &[u8], pos: usize, flags: u8, remaining_length: u32) -> (r: Result<
        (UnsubAckPacket, usize),
        CodecError,
    >)
        requires
            pos <= s@.len(),
        ensures
            (match parse_unsuback(s@, pos as int, flags, remaining_length) {
                Parsed::Found { val, next } => r matches Ok(x) && x.0@ == val && x.1 == next
                    && pos < next <= s@.len() && next <= usize::MAX,
                Parsed::Incomplete => r == Err::<(UnsubAckPacket, usize), CodecError>(
                    CodecError::InsufficientBytes,
                ),
                Parsed::Malformed => r == Err::<(UnsubAckPacket, usize), CodecError>(
                    CodecError::MalformedBytes,
                ),
            }),
    {
        if flags != 0x00 {
            return Err(CodecError::MalformedBytes);
        }
        let (packet_id, p1) = read_u16(s, pos)?;
        let (reason_string, p2) = read_rs_props(s, p1)?;
        let ghost end = pos as int + remaining_length as int;
        let mut reason_codes: Vec<UnsubAckReasonCode> = Vec::new();
        let mut cur: usize = p2;
        while cur - pos < remaining_length as usize
            invariant
                pos < cur <= s@.len(),
                end == pos as int + remaining_length as int,
                (match parse_unsuback_codes(s@, cur as int, end, reason_codes@) {
                    Parsed::Found { val, next } => parse_unsuback(
                        s@,
                        pos as int,
                        flags,
                        remaining_length,
                    ) == (Parsed::Found {
                        val: UnsubAckView {
                            packet_id,
                            reason_codes: val,
                            reason_string: view_opt_bytes(reason_string),
                        },
                        next,
                    }),
                    Parsed::Incomplete => parse_unsuback(s@, pos as int, flags, remaining_length)
                        == Parsed::<UnsubAckView>::Incomplete,
                    Parsed::Malformed => parse_unsuback(s@, pos as int, flags, remaining_length)
                        == Parsed::<UnsubAckView>::Malformed,
                }),
            decreases rem(cur as int, end),
        {
            let (b, p3) = read_u8(s, cur)?;
            let c = UnsubAckReasonCode::new(b)?;
            reason_codes.push(c);
            cur = p3;
        }
        Ok((UnsubAckPacket { packet_id, reason_codes, reason_string }, cur))
    }

    /// Serializes the packet into `buffer` at `index`; fails, touching
    /// nothing, exactly when the buffer is too short.
    #[verifier::spinoff_prover]
    #[verifier::rlimit(50)]
    pub fn write(&self, buffer: &mut Vec<u8>, index: usize) -> (r: Result<usize, CodecError>)
        requires
            self@.wf(),
            index <= old(buffer)@.len(),
        ensures
            (match r {
                Ok(n) => n == self@.bytes().len() && old(buffer)@.len() >= index
                    + self@.bytes().len() && final(buffer)@ == spliced(
                    old(buffer)@,
                    index as int,
                    self@.bytes(),
                ) && final(buffer)@.len() == old(buffer)@.len(),
                Err(e) => e == CodecError::InsufficientBytes && final(buffer)@ == old(buffer)@
                    && old(buffer)@.len() < index + self@.bytes().len(),
            }),
    {
        proof {
            lemma_enc_unsuback_codes_len(self@.reason_codes);
            lemma_enc_vbi_len(crate::props::enc_rs_prop_items(self@.reason_string).len() as u32);
        }
        let props_nbytes = rs_props_size(&self.reason_string);
        let nbytes = 2 + props_nbytes + self.reason_codes.len();
        proof {
            assert(nbytes == self@.body().len());
            lemma_enc_vbi_len(nbytes as u32);
        }
        let rl_size = vbi_size(nbytes as u32);
        let total = 1 + rl_size + nbytes;
        if buffer.len() - index < total {
            return Err(CodecError::InsufficientBytes);
        }
        write_u8(buffer, index, 0xB0);
        proof {
            lemma_spliced_concat(old(buffer)@, index as int, seq![0xB0u8], enc_vbi(nbytes as u32));
        }
        write_vbi(buffer, index + 1, nbytes as u32);
        proof {
            lemma_spliced_concat(
                old(buffer)@,
                index as int,
                seq![0xB0u8] + enc_vbi(nbytes as u32),
                enc_u16(self.packet_id),
            );
        }
        write_u16(buffer, index + 1 + rl_size, self.packet_id);
        proof {
            lemma_spliced_concat(
                old(buffer)@,
                index as int,
                seq![0xB0u8] + enc_vbi(nbytes as u32) + enc_u16(self.packet_id),
                enc_rs_props(self@.reason_string),
            );
        }
        write_rs_props(buffer, index + 1 + rl_size + 2, &self.reason_string);
        let ghost head = seq![0xB0u8] + enc_vbi(nbytes as u32) + enc_u16(self.packet_id)
            + enc_rs_props(self@.reason_string);
        let base = index + 1 + rl_size + 2 + props_nbytes;
        let mut k: usize = 0;
        while k < self.reason_codes.len()
            invariant
                k <= self.reason_codes@.len(),
                self@.wf(),
                head.len() == 1 + rl_size + 2 + props_nbytes,
                base == index + head.len(),
                base + self.reason_codes@.len() <= buffer@.len(),
                buffer@.len() <= usize::MAX,
                buffer@.len() == old(buffer)@.len(),
                buffer@ == spliced(
                    old(buffer)@,
                    index as int,
                    head + enc_unsuback_codes(self.reason_codes@.subrange(0, k as int)),
                ),
            decreases self.reason_codes@.len() - k,
        {
            let ghost part = self.reason_codes@.subrange(0, k as int);
            proof {
                lemma_enc_unsuback_codes_len(part);
                lemma_spliced_concat(
                    old(buffer)@,
                    index as int,
                    head + enc_unsuback_codes(part),
                    seq![self.reason_codes@[k as int].as_byte()],
                );
            }
            let c = self.reason_codes[k];
            let b = c.value();
            write_u8(buffer, base + k, b);
            proof {
                lemma_enc_unsuback_codes_snoc(part, self.reason_codes@[k as int]);
                assert(self.reason_codes@.subrange(0, k + 1 as int) =~= part.push(
                    self.reason_codes@[k as int],
                ));
                assert(head + enc_unsuback_codes(part) + seq![self.reason_codes@[k as int].as_byte()]
                    =~= head + enc_unsuback_codes(self.reason_codes@.subrange(0, k + 1 as int)));
            }
            k = k + 1;
        }
        proof {
            assert(self.reason_codes@.subrange(0, self.reason_codes@.len() as int)
                =~= self.reason_codes@);
            assert(head + enc_unsuback_codes(self.reason_codes@) =~= self@.bytes());
        }
        Ok(total)
    }
}

/// Parsing an encoded UnsubAck body yields the packet back.
pub proof fn lemma_parse_enc_unsuback(s: Seq<u8>, i: int, v: UnsubAckView)
    requires
        v.wf(),
        0 <= i,
        i + v.body().len() <= s.len(),
        s.subrange(i, i + v.body().len()) == v.body(),
    ensures
        parse_unsuback(s, i, 0x00, v.body().len() as u32) == (Parsed::Found {
            val: v,
            next: i + v.body().len(),
        }),
{
    let a = enc_u16(v.packet_id);
    let b = enc_rs_props(v.reason_string);
    let c = enc_unsuback_codes(v.reason_codes);
    lemma_enc_vbi_len(crate::props::enc_rs_prop_items(v.reason_string).len() as u32);
    lemma_enc_unsuback_codes_len(v.reason_codes);
    assert(v.body() =~= a + (b + c));
    lemma_subrange_split(s, i, a, b + c);
    lemma_parse_enc_u16(s, i, v.packet_id);
    lemma_subrange_split(s, i + 2, b, c);
    lemma_parse_enc_rs_props(s, i + 2, v.reason_string);
    let k = i + 2 + b.len();
    lemma_parse_enc_unsuback_codes(s, k, v.reason_codes, Seq::empty());
    assert(Seq::empty() + v.reason_codes =~= v.reason_codes);
    assert(k + v.reason_codes.len() == i + v.body().len());
}

} // verus!
