//! A verified codec for MQTT version 5 control packets.
//!
//! The library decodes a raw byte buffer into one of fifteen strongly typed
//! packet structures and encodes a packet structure back into bytes.  Every
//! decoding function is specified against a `parse_*` spec function over the
//! byte sequence, every encoding function against a `*_bytes` spec function
//! giving the exact bytes produced, and round-trip lemmas state that
//! decoding an encoded packet yields the packet back.

pub mod acks;
pub mod auth;
pub mod codec;
pub mod connack;
pub mod connect;
pub mod disconnect;
pub mod ping;
pub mod props;
pub mod publish;
pub mod reason_codes;
pub mod suback;
pub mod subscribe;
pub mod types;
pub mod unsuback;
pub mod utf8check;
pub mod unsubscribe;

use crate::acks::{
    parse_puback, parse_pubcomp, parse_pubrec, parse_pubrel, PubAckPacket, PubAckView,
    PubCompPacket, PubCompView, PubRecPacket, PubRecView, PubRelPacket, PubRelView,
};
use crate::auth::{parse_auth, AuthPacket, AuthView};
use crate::codec::{
    enc_vbi, lemma_enc_vbi_len, lemma_parse_enc_vbi, lemma_subrange_split, parse_u8, parse_vbi,
    read_u8, read_vbi, spliced, CodecError, Parsed, VBI_MAX,
};
use crate::connack::{parse_connack, ConnAckPacket, ConnAckView};
use crate::connect::{parse_connect, ConnectPacket, ConnectView};
use crate::disconnect::{parse_disconnect, DisconnectPacket, DisconnectView};
use crate::ping::{parse_pingreq, parse_pingresp, PingReqPacket, PingRespPacket};
use crate::publish::{parse_publish, PublishPacket, PublishView};
use crate::suback::{parse_suback, SubAckPacket, SubAckView};
use crate::subscribe::{parse_subscribe, SubscribePacket, SubscribeView};
use crate::types::PacketType;
use crate::unsuback::{parse_unsuback, UnsubAckPacket, UnsubAckView};
use crate::unsubscribe::{parse_unsubscribe, UnsubscribePacket, UnsubscribeView};
use vstd::prelude::*;

verus! {

/// One of the fifteen control packets.
#[derive(Clone, Debug, PartialEq, Eq)]
pub enum Packet {
    Connect(ConnectPacket),
    ConnAck(ConnAckPacket),
    Publish(PublishPacket),
    PubAck(PubAckPacket),
    PubRec(PubRecPacket),
    PubRel(PubRelPacket),
    PubComp(PubCompPacket),
    Subscribe(SubscribePacket),
    SubAck(SubAckPacket),
    Unsubscribe(UnsubscribePacket),
    UnsubAck(UnsubAckPacket),
    PingReq(PingReqPacket),
    PingResp(PingRespPacket),
    Disconnect(DisconnectPacket),
    Auth(AuthPacket),
}

/// The mathematical value of a control packet.
#[verifier::ext_equal]
pub ghost enum PacketView {
    Connect(ConnectView),
    ConnAck(ConnAckView),
    Publish(PublishView),
    PubAck(PubAckView),
    PubRec(PubRecView),
    PubRel(PubRelView),
    PubComp(PubCompView),
    Subscribe(SubscribeView),
    SubAck(SubAckView),
    Unsubscribe(UnsubscribeView),
    UnsubAck(UnsubAckView),
    PingReq(PingReqPacket),
    PingResp(PingRespPacket),
    Disconnect(DisconnectView),
    Auth(AuthView),
}

impl View for Packet {
    type V = PacketView;

    open spec fn view(&self) -> PacketView {
        match self {
            Packet::Connect(p) => PacketView::Connect(p@),
            Packet::ConnAck(p) => PacketView::ConnAck(p@),
            Packet::Publish(p) => PacketView::Publish(p@),
            Packet::PubAck(p) => PacketView::PubAck(p@),
            Packet::PubRec(p) => PacketView::PubRec(p@),
            Packet::PubRel(p) => PacketView::PubRel(p@),
            Packet::PubComp(p) => PacketView::PubComp(p@),
            Packet::Subscribe(p) => PacketView::Subscribe(p@),
            Packet::SubAck(p) => PacketView::SubAck(p@),
            Packet::Unsubscribe(p) => PacketView::Unsubscribe(p@),
            Packet::UnsubAck(p) => PacketView::UnsubAck(p@),
            Packet::PingReq(p) => PacketView::PingReq(*p),
            Packet::PingResp(p) => PacketView::PingResp(*p),
            Packet::Disconnect(p) => PacketView::Disconnect(p@),
            Packet::Auth(p) => PacketView::Auth(p@),
        }
    }
}

impl PacketView {
    /// All strings and sizes of the packet fit the wire format.
    pub open spec fn wf(self) -> bool {
        match self {
            PacketView::Connect(v) => v.wf(),
            PacketView::ConnAck(v) => v.wf(),
            PacketView::Publish(v) => v.wf(),
            PacketView::PubAck(v) => v.wf(),
            PacketView::PubRec(v) => v.wf(),
            PacketView::PubRel(v) => v.wf(),
            PacketView::PubComp(v) => v.wf(),
            PacketView::Subscribe(v) => v.wf(),
            PacketView::SubAck(v) => v.wf(),
            PacketView::Unsubscribe(v) => v.wf(),
            PacketView::UnsubAck(v) => v.wf(),
            PacketView::PingReq(v) => true,
            PacketView::PingResp(v) => true,
            PacketView::Disconnect(v) => v.wf(),
            PacketView::Auth(v) => v.wf(),
        }
    }

    /// The complete wire form of the packet.
    pub open spec fn bytes(self) -> Seq<u8> {
        match self {
            PacketView::Connect(v) => v.bytes(),
            PacketView::ConnAck(v) => v.bytes(),
            PacketView::Publish(v) => v.bytes(),
            PacketView::PubAck(v) => v.bytes(),
            PacketView::PubRec(v) => v.bytes(),
            PacketView::PubRel(v) => v.bytes(),
            PacketView::PubComp(v) => v.bytes(),
            PacketView::Subscribe(v) => v.bytes(),
            PacketView::SubAck(v) => v.bytes(),
            PacketView::Unsubscribe(v) => v.bytes(),
            PacketView::UnsubAck(v) => v.bytes(),
            PacketView::PingReq(v) => crate::ping::pingreq_bytes(),
            PacketView::PingResp(v) => crate::ping::pingresp_bytes(),
            PacketView::Disconnect(v) => v.bytes(),
            PacketView::Auth(v) => v.bytes(),
        }
    }
}

/// Lifts a per-type parse outcome into a packet parse outcome.
pub open spec fn lift<T>(p: Parsed<T>, f: spec_fn(T) -> PacketView) -> Parsed<PacketView> {
    match p {
        Parsed::Found { val, next } => Parsed::Found { val: f(val), next },
        Parsed::Incomplete => Parsed::Incomplete,
        Parsed::Malformed => Parsed::Malformed,
    }
}

/// One complete packet at position `i`: the fixed header (type and flags
/// byte, then the remaining length), then the matching packet type's
/// variable header and payload.
pub open spec fn parse_packet(s: Seq<u8>, i: int) -> Parsed<PacketView> {
    match parse_u8(s, i) {
        Parsed::Found { val: b0, next: j } => {
            match parse_vbi(s, j) {
                Parsed::Found { val: rl, next: k } => {
                    let flags = (b0 as int % 16) as u8;
                    let nib = b0 as int / 16;
                    if nib == 1 {
                        lift(parse_connect(s, k, flags, rl), |v| PacketView::Connect(v))
                    } else if nib == 2 {
                        lift(parse_connack(s, k, flags, rl), |v| PacketView::ConnAck(v))
                    } else if nib == 3 {
                        lift(parse_publish(s, k, flags, rl), |v| PacketView::Publish(v))
                    } else if nib == 4 {
                        lift(parse_puback(s, k, flags, rl), |v| PacketView::PubAck(v))
                    } else if nib == 5 {
                        lift(parse_pubrec(s, k, flags, rl), |v| PacketView::PubRec(v))
                    } else if nib == 6 {
                        lift(parse_pubrel(s, k, flags, rl), |v| PacketView::PubRel(v))
                    } else if nib == 7 {
                        lift(parse_pubcomp(s, k, flags, rl), |v| PacketView::PubComp(v))
                    } else if nib == 8 {
                        lift(parse_subscribe(s, k, flags, rl), |v| PacketView::Subscribe(v))
                    } else if nib == 9 {
                        lift(parse_suback(s, k, flags, rl), |v| PacketView::SubAck(v))
                    } else if nib == 10 {
                        lift(parse_unsubscribe(s, k, flags, rl), |v| PacketView::Unsubscribe(v))
                    } else if nib == 11 {
                        lift(parse_unsuback(s, k, flags, rl), |v| PacketView::UnsubAck(v))
                    } else if nib == 12 {
                        lift(parse_pingreq(s, k, flags, rl), |v| PacketView::PingReq(v))
                    } else if nib == 13 {
                        lift(parse_pingresp(s, k, flags, rl), |v| PacketView::PingResp(v))
                    } else if nib == 14 {
                        lift(parse_disconnect(s, k, flags, rl), |v| PacketView::Disconnect(v))
                    } else if nib == 15 {
                        lift(parse_auth(s, k, flags, rl), |v| PacketView::Auth(v))
                    } else {
                        Parsed::Malformed
                    }
                },
                Parsed::Incomplete => Parsed::Incomplete,
                Parsed::Malformed => Parsed::Malformed,
            }
        },
        _ => Parsed::Incomplete,
    }
}

/// Parses one complete packet starting at `index` and returns it with the
/// number of bytes consumed, so a caller can advance past it in a stream.
/// A buffer that ends too early is insufficient-bytes; bytes that violate
/// the protocol are malformed-content.
#[verifier::spinoff_prover]
#[verifier::rlimit(100)]
pub fn read(buffer: &[u8], index: usize) -> (r: Result<(Packet, usize), CodecError>)
    requires
        index <= buffer@.len(),
    ensures
        (match parse_packet(buffer@, index as int) {
            Parsed::Found { val, next } => r matches Ok(x) && x.0@ == val && index + x.1 == next
                && next <= buffer@.len(),
            Parsed::Incomplete => r matches Err(e) && e == CodecError::InsufficientBytes,
            Parsed::Malformed => r matches Err(e) && e == CodecError::MalformedBytes,
        }),
{
    let (b0, j) = read_u8(buffer, index)?;
    let (rl, k) = read_vbi(buffer, j)?;
    let flags = b0 % 16;
    let ptype = PacketType::new(b0 / 16)?;
    match ptype {
        PacketType::Connect => {
            let (p, n) = ConnectPacket::read(buffer, k, flags, rl)?;
            Ok((Packet::Connect(p), n - index))
        },
        PacketType::ConnAck => {
            let (p, n) = ConnAckPacket::read(buffer, k, flags, rl)?;
            Ok((Packet::ConnAck(p), n - index))
        },
        PacketType::Publish => {
            let (p, n) = PublishPacket::read(buffer, k, flags, rl)?;
            Ok((Packet::Publish(p), n - index))
        },
        PacketType::PubAck => {
            let (p, n) = PubAckPacket::read(buffer, k, flags, rl)?;
            Ok((Packet::PubAck(p), n - index))
        },
        PacketType::PubRec => {
            let (p, n) = PubRecPacket::read(buffer, k, flags, rl)?;
            Ok((Packet::PubRec(p), n - index))
        },
        PacketType::PubRel => {
            let (p, n) = PubRelPacket::read(buffer, k, flags, rl)?;
            Ok((Packet::PubRel(p), n - index))
        },
        PacketType::PubComp => {
            let (p, n) = PubCompPacket::read(buffer, k, flags, rl)?;
            Ok((Packet::PubComp(p), n - index))
        },
        PacketType::Subscribe => {
            let (p, n) = SubscribePacket::read(buffer, k, flags, rl)?;
            Ok((Packet::Subscribe(p), n - index))
        },
        PacketType::SubAck => {
            let (p, n) = SubAckPacket::read(buffer, k, flags, rl)?;
            Ok((Packet::SubAck(p), n - index))
        },
        PacketType::Unsubscribe => {
            let (p, n) = UnsubscribePacket::read(buffer, k, flags, rl)?;
            Ok((Packet::Unsubscribe(p), n - index))
        },
        PacketType::UnsubAck => {
            let (p, n) = UnsubAckPacket::read(buffer, k, flags, rl)?;
            Ok((Packet::UnsubAck(p), n - index))
        },
        PacketType::PingReq => {
            let (p, n) = PingReqPacket::read(buffer, k, flags, rl)?;
            Ok((Packet::PingReq(p), n - index))
        },
        PacketType::PingResp => {
            let (p, n) = PingRespPacket::read(buffer, k, flags, rl)?;
            Ok((Packet::PingResp(p), n - index))
        },
        PacketType::Disconnect => {
            let (p, n) = DisconnectPacket::read(buffer, k, flags, rl)?;
            Ok((Packet::Disconnect(p), n - index))
        },
        PacketType::Auth => {
            let (p, n) = AuthPacket::read(buffer, k, flags, rl)?;
            Ok((Packet::Auth(p), n - index))
        },
    }
}

impl Packet {
    /// Serializes the packet into `buffer` at `index`; fails, touching
    /// nothing, exactly when the buffer is too short.
    pub fn write(&self, buffer: &mut Vec<u8>, index: usize) -> (r: Result<usize, CodecError>)
        requires
            self@.wf(),
            index <= old(buffer)@.len(),
        ensures
            (match r {
                Ok(n) => n == self@.bytes().len() && old(buffer)@.len() >= index
                    + self@.bytes().len() && final(buffer)@ == spliced(
                    old(buffer)@,
                    index as int,
                    self@.bytes(),
                ) && final(buffer)@.len() == old(buffer)@.len(),
                Err(e) => e == CodecError::InsufficientBytes && final(buffer)@ == old(buffer)@
                    && old(buffer)@.len() < index + self@.bytes().len(),
            }),
    {
        match self {
            Packet::Connect(p) => p.write(buffer, index),
            Packet::ConnAck(p) => p.write(buffer, index),
            Packet::Publish(p) => p.write(buffer, index),
            Packet::PubAck(p) => p.write(buffer, index),
            Packet::PubRec(p) => p.write(buffer, index),
            Packet::PubRel(p) => p.write(buffer, index),
            Packet::PubComp(p) => p.write(buffer, index),
            Packet::Subscribe(p) => p.write(buffer, index),
            Packet::SubAck(p) => p.write(buffer, index),
            Packet::Unsubscribe(p) => p.write(buffer, index),
            Packet::UnsubAck(p) => p.write(buffer, index),
            Packet::PingReq(p) => p.write(buffer, index),
            Packet::PingResp(p) => p.write(buffer, index),
            Packet::Disconnect(p) => p.write(buffer, index),
            Packet::Auth(p) => p.write(buffer, index),
        }
    }
}

/// The payload-bearing packets encode an absent payload as an empty one, so
/// only a packet whose payload fields are present decodes back to itself
/// field for field.
pub open spec fn payloads_present(v: PacketView) -> bool {
    &&& (v matches PacketView::Publish(p) ==> p.payload is Some)
    &&& (v matches PacketView::Connect(c) ==> (c.will matches Some(w) ==> w.payload is Some))
}

/// The fixed header of an encoded packet embedded at position `i` parses to
/// its first byte and its remaining length, and the following bytes are
/// exactly the body.
proof fn lemma_packet_header(s: Seq<u8>, i: int, first: u8, body: Seq<u8>)
    requires
        body.len() <= VBI_MAX,
        0 <= i,
        i + (seq![first] + enc_vbi(body.len() as u32) + body).len() <= s.len(),
        s.subrange(i, i + (seq![first] + enc_vbi(body.len() as u32) + body).len()) == seq![first]
            + enc_vbi(body.len() as u32) + body,
    ensures
        parse_u8(s, i) == (Parsed::Found { val: first, next: i + 1 }),
        parse_vbi(s, i + 1) == (Parsed::Found {
            val: body.len() as u32,
            next: i + 1 + crate::codec::vbi_len(body.len() as u32),
        }),
        enc_vbi(body.len() as u32).len() == crate::codec::vbi_len(body.len() as u32),
        s.subrange(
            i + 1 + crate::codec::vbi_len(body.len() as u32),
            i + 1 + crate::codec::vbi_len(body.len() as u32) + body.len(),
        ) == body,
{
    let rl = body.len() as u32;
    lemma_enc_vbi_len(rl);
    assert(seq![first] + enc_vbi(rl) + body =~= seq![first] + (enc_vbi(rl) + body));
    lemma_subrange_split(s, i, seq![first], enc_vbi(rl) + body);
    assert(s.subrange(i, i + 1)[0] == s[i]);
    lemma_subrange_split(s, i + 1, enc_vbi(rl), body);
    lemma_parse_enc_vbi(s, i + 1, rl);
}

/// Decoding an encoded Connect packet yields the packet back.
#[verifier::spinoff_prover]
#[verifier::rlimit(100)]
proof fn lemma_roundtrip_connect(s: Seq<u8>, i: int, v: ConnectView)
    requires
        v.wf(),
        v.will matches Some(w) ==> w.payload is Some,
        0 <= i,
        i + PacketView::Connect(v).bytes().len() <= s.len(),
        s.subrange(i, i + PacketView::Connect(v).bytes().len()) == PacketView::Connect(v).bytes(),
    ensures
        parse_packet(s, i) == (Parsed::Found {
            val: PacketView::Connect(v),
            next: i + PacketView::Connect(v).bytes().len(),
        }),
{
    crate::connect::lemma_connect_body_bound(v);
    lemma_packet_header(s, i, 0x10u8, v.body());
    let k = i + 1 + crate::codec::vbi_len(v.body().len() as u32);
    assert(((0x10u8) as int) / 16 == 1);
    assert((((0x10u8) as int) % 16) as u8 == 0x00);
    crate::connect::lemma_parse_enc_connect(s, k, v);
}

/// Decoding an encoded ConnAck packet yields the packet back.
#[verifier::spinoff_prover]
#[verifier::rlimit(100)]
proof fn lemma_roundtrip_connack(s: Seq<u8>, i: int, v: ConnAckView)
    requires
        v.wf(),
        0 <= i,
        i + PacketView::ConnAck(v).bytes().len() <= s.len(),
        s.subrange(i, i + PacketView::ConnAck(v).bytes().len()) == PacketView::ConnAck(v).bytes(),
    ensures
        parse_packet(s, i) == (Parsed::Found {
            val: PacketView::ConnAck(v),
            next: i + PacketView::ConnAck(v).bytes().len(),
        }),
{
    crate::connack::lemma_connack_items_bound(crate::connack::connack_props_of(v));
    lemma_enc_vbi_len(crate::connack::enc_connack_prop_items(crate::connack::connack_props_of(v)).len() as u32);
    assert(v.body().len() <= VBI_MAX);
    lemma_packet_header(s, i, 0x20u8, v.body());
    let k = i + 1 + crate::codec::vbi_len(v.body().len() as u32);
    assert(((0x20u8) as int) / 16 == 2);
    assert((((0x20u8) as int) % 16) as u8 == 0x00);
    crate::connack::lemma_parse_enc_connack(s, k, v);
}

/// Decoding an encoded Publish packet yields the packet back.
#[verifier::spinoff_prover]
#[verifier::rlimit(100)]
proof fn lemma_roundtrip_publish(s: Seq<u8>, i: int, v: PublishView)
    requires
        v.wf(),
        v.payload is Some,
        0 <= i,
        i + PacketView::Publish(v).bytes().len() <= s.len(),
        s.subrange(i, i + PacketView::Publish(v).bytes().len()) == PacketView::Publish(v).bytes(),
    ensures
        parse_packet(s, i) == (Parsed::Found {
            val: PacketView::Publish(v),
            next: i + PacketView::Publish(v).bytes().len(),
        }),
{
    assert(v.qos.as_byte() <= 2);
    assert(crate::publish::publish_flags(v) <= 13);
    assert(v.body().len() <= VBI_MAX);
    lemma_packet_header(s, i, (0x30u8 + crate::publish::publish_flags(v)) as u8, v.body());
    let k = i + 1 + crate::codec::vbi_len(v.body().len() as u32);
    assert((((0x30u8 + crate::publish::publish_flags(v)) as u8) as int) / 16 == 3);
    assert(((((0x30u8 + crate::publish::publish_flags(v)) as u8) as int) % 16) as u8 == crate::publish::publish_flags(v));
    crate::publish::lemma_parse_enc_publish(s, k, v);
}

/// Decoding an encoded PubAck packet yields the packet back.
#[verifier::spinoff_prover]
#[verifier::rlimit(100)]
proof fn lemma_roundtrip_puback(s: Seq<u8>, i: int, v: PubAckView)
    requires
        v.wf(),
        0 <= i,
        i + PacketView::PubAck(v).bytes().len() <= s.len(),
        s.subrange(i, i + PacketView::PubAck(v).bytes().len()) == PacketView::PubAck(v).bytes(),
    ensures
        parse_packet(s, i) == (Parsed::Found {
            val: PacketView::PubAck(v),
            next: i + PacketView::PubAck(v).bytes().len(),
        }),
{
    lemma_enc_vbi_len(crate::props::enc_rs_prop_items(v.reason_string).len() as u32);
    assert(v.body().len() <= VBI_MAX);
    lemma_packet_header(s, i, 0x40u8, v.body());
    let k = i + 1 + crate::codec::vbi_len(v.body().len() as u32);
    assert(((0x40u8) as int) / 16 == 4);
    assert((((0x40u8) as int) % 16) as u8 == 0x00);
    crate::acks::lemma_parse_enc_puback(s, k, v);
}

/// Decoding an encoded PubRec packet yields the packet back.
#[verifier::spinoff_prover]
#[verifier::rlimit(100)]
proof fn lemma_roundtrip_pubrec(s: Seq<u8>, i: int, v: PubRecView)
    requires
        v.wf(),
        0 <= i,
        i + PacketView::PubRec(v).bytes().len() <= s.len(),
        s.subrange(i, i + PacketView::PubRec(v).bytes().len()) == PacketView::PubRec(v).bytes(),
    ensures
        parse_packet(s, i) == (Parsed::Found {
            val: PacketView::PubRec(v),
            next: i + PacketView::PubRec(v).bytes().len(),
        }),
{
    lemma_enc_vbi_len(crate::props::enc_rs_prop_items(v.reason_string).len() as u32);
    assert(v.body().len() <= VBI_MAX);
    lemma_packet_header(s, i, 0x50u8, v.body());
    let k = i + 1 + crate::codec::vbi_len(v.body().len() as u32);
    assert(((0x50u8) as int) / 16 == 5);
    assert((((0x50u8) as int) % 16) as u8 == 0x00);
    crate::acks::lemma_parse_enc_pubrec(s, k, v);
}

/// Decoding an encoded PubRel packet yields the packet back.
#[verifier::spinoff_prover]
#[verifier::rlimit(100)]
proof fn lemma_roundtrip_pubrel(s: Seq<u8>, i: int, v: PubRelView)
    requires
        v.wf(),
        0 <= i,
        i + PacketView::PubRel(v).bytes().len() <= s.len(),
        s.subrange(i, i + PacketView::PubRel(v).bytes().len()) == PacketView::PubRel(v).bytes(),
    ensures
        parse_packet(s, i) == (Parsed::Found {
            val: PacketView::PubRel(v),
            next: i + PacketView::PubRel(v).bytes().len(),
        }),
{
    lemma_enc_vbi_len(crate::props::enc_rs_prop_items(v.reason_string).len() as u32);
    assert(v.body().len() <= VBI_MAX);
    lemma_packet_header(s, i, 0x62u8, v.body());
    let k = i + 1 + crate::codec::vbi_len(v.body().len() as u32);
    assert(((0x62u8) as int) / 16 == 6);
    assert((((0x62u8) as int) % 16) as u8 == 0x02);
    crate::acks::lemma_parse_enc_pubrel(s, k, v);
}

/// Decoding an encoded PubComp packet yields the packet back.
#[verifier::spinoff_prover]
#[verifier::rlimit(100)]
proof fn lemma_roundtrip_pubcomp(s: Seq<u8>, i: int, v: PubCompView)
    requires
        v.wf(),
        0 <= i,
        i + PacketView::PubComp(v).bytes().len() <= s.len(),
        s.subrange(i, i + PacketView::PubComp(v).bytes().len()) == PacketView::PubComp(v).bytes(),
    ensures
        parse_packet(s, i) == (Parsed::Found {
            val: PacketView::PubComp(v),
            next: i + PacketView::PubComp(v).bytes().len(),
        }),
{
    lemma_enc_vbi_len(crate::props::enc_rs_prop_items(v.reason_string).len() as u32);
    assert(v.body().len() <= VBI_MAX);
    lemma_packet_header(s, i, 0x70u8, v.body());
    let k = i + 1 + crate::codec::vbi_len(v.body().len() as u32);
    assert(((0x70u8) as int) / 16 == 7);
    assert((((0x70u8) as int) % 16) as u8 == 0x00);
    crate::acks::lemma_parse_enc_pubcomp(s, k, v);
}

/// Decoding an encoded Subscribe packet yields the packet back.
#[verifier::spinoff_prover]
#[verifier::rlimit(100)]
proof fn lemma_roundtrip_subscribe(s: Seq<u8>, i: int, v: SubscribeView)
    requires
        v.wf(),
        0 <= i,
        i + PacketView::Subscribe(v).bytes().len() <= s.len(),
        s.subrange(i, i + PacketView::Subscribe(v).bytes().len()) == PacketView::Subscribe(v).bytes(),
    ensures
        parse_packet(s, i) == (Parsed::Found {
            val: PacketView::Subscribe(v),
            next: i + PacketView::Subscribe(v).bytes().len(),
        }),
{
    assert(v.body().len() <= VBI_MAX);
    lemma_packet_header(s, i, 0x82u8, v.body());
    let k = i + 1 + crate::codec::vbi_len(v.body().len() as u32);
    assert(((0x82u8) as int) / 16 == 8);
    assert((((0x82u8) as int) % 16) as u8 == 0x02);
    crate::subscribe::lemma_parse_enc_subscribe(s, k, v);
}

/// Decoding an encoded SubAck packet yields the packet back.
#[verifier::spinoff_prover]
#[verifier::rlimit(100)]
proof fn lemma_roundtrip_suback(s: Seq<u8>, i: int, v: SubAckView)
    requires
        v.wf(),
        0 <= i,
        i + PacketView::SubAck(v).bytes().len() <= s.len(),
        s.subrange(i, i + PacketView::SubAck(v).bytes().len()) == PacketView::SubAck(v).bytes(),
    ensures
        parse_packet(s, i) == (Parsed::Found {
            val: PacketView::SubAck(v),
            next: i + PacketView::SubAck(v).bytes().len(),
        }),
{
    assert(v.body().len() <= VBI_MAX);
    lemma_packet_header(s, i, 0x90u8, v.body());
    let k = i + 1 + crate::codec::vbi_len(v.body().len() as u32);
    assert(((0x90u8) as int) / 16 == 9);
    assert((((0x90u8) as int) % 16) as u8 == 0x00);
    crate::suback::lemma_parse_enc_suback(s, k, v);
}

/// Decoding an encoded Unsubscribe packet yields the packet back.
#[verifier::spinoff_prover]
#[verifier::rlimit(100)]
proof fn lemma_roundtrip_unsubscribe(s: Seq<u8>, i: int, v: UnsubscribeView)
    requires
        v.wf(),
        0 <= i,
        i + PacketView::Unsubscribe(v).bytes().len() <= s.len(),
        s.subrange(i, i + PacketView::Unsubscribe(v).bytes().len()) == PacketView::Unsubscribe(v).bytes(),
    ensures
        parse_packet(s, i) == (Parsed::Found {
            val: PacketView::Unsubscribe(v),
            next: i + PacketView::Unsubscribe(v).bytes().len(),
        }),
{
    assert(v.body().len() <= VBI_MAX);
    lemma_packet_header(s, i, 0xA2u8, v.body());
    let k = i + 1 + crate::codec::vbi_len(v.body().len() as u32);
    assert(((0xA2u8) as int) / 16 == 10);
    assert((((0xA2u8) as int) % 16) as u8 == 0x02);
    crate::unsubscribe::lemma_parse_enc_unsubscribe(s, k, v);
}

/// Decoding an encoded UnsubAck packet yields the packet back.
#[verifier::spinoff_prover]
#[verifier::rlimit(100)]
proof fn lemma_roundtrip_unsuback(s: Seq<u8>, i: int, v: UnsubAckView)
    requires
        v.wf(),
        0 <= i,
        i + PacketView::UnsubAck(v).bytes().len() <= s.len(),
        s.subrange(i, i + PacketView::UnsubAck(v).bytes().len()) == PacketView::UnsubAck(v).bytes(),
    ensures
        parse_packet(s, i) == (Parsed::Found {
            val: PacketView::UnsubAck(v),
            next: i + PacketView::UnsubAck(v).bytes().len(),
        }),
{
    assert(v.body().len() <= VBI_MAX);
    lemma_packet_header(s, i, 0xB0u8, v.body());
    let k = i + 1 + crate::codec::vbi_len(v.body().len() as u32);
    assert(((0xB0u8) as int) / 16 == 11);
    assert((((0xB0u8) as int) % 16) as u8 == 0x00);
    crate::unsuback::lemma_parse_enc_unsuback(s, k, v);
}

/// Decoding an encoded Disconnect packet yields the packet back.
#[verifier::spinoff_prover]
#[verifier::rlimit(100)]
proof fn lemma_roundtrip_disconnect(s: Seq<u8>, i: int, v: DisconnectView)
    requires
        v.wf(),
        0 <= i,
        i + PacketView::Disconnect(v).bytes().len() <= s.len(),
        s.subrange(i, i + PacketView::Disconnect(v).bytes().len()) == PacketView::Disconnect(v).bytes(),
    ensures
        parse_packet(s, i) == (Parsed::Found {
            val: PacketView::Disconnect(v),
            next: i + PacketView::Disconnect(v).bytes().len(),
        }),
{
    crate::disconnect::lemma_disconnect_items_bound(v.props());
    lemma_enc_vbi_len(crate::disconnect::enc_disconnect_prop_items(v.props()).len() as u32);
    assert(v.body().len() <= VBI_MAX);
    lemma_packet_header(s, i, 0xE0u8, v.body());
    let k = i + 1 + crate::codec::vbi_len(v.body().len() as u32);
    assert(((0xE0u8) as int) / 16 == 14);
    assert((((0xE0u8) as int) % 16) as u8 == 0x00);
    crate::disconnect::lemma_parse_enc_disconnect(s, k, v);
}

/// Decoding an encoded Auth packet yields the packet back.
#[verifier::spinoff_prover]
#[verifier::rlimit(100)]
proof fn lemma_roundtrip_auth(s: Seq<u8>, i: int, v: AuthView)
    requires
        v.wf(),
        0 <= i,
        i + PacketView::Auth(v).bytes().len() <= s.len(),
        s.subrange(i, i + PacketView::Auth(v).bytes().len()) == PacketView::Auth(v).bytes(),
    ensures
        parse_packet(s, i) == (Parsed::Found {
            val: PacketView::Auth(v),
            next: i + PacketView::Auth(v).bytes().len(),
        }),
{
    assert(crate::props::enc_opt_data(crate::props::PROP_AUTHENTICATION_METHOD, v.authentication_method).len() <= 3 + 0xFFFF);
    assert(crate::props::enc_opt_data(crate::props::PROP_AUTHENTICATION_DATA, v.authentication_data).len() <= 3 + 0xFFFF);
    assert(crate::props::enc_opt_data(crate::props::PROP_REASON_STRING, v.reason_string).len() <= 3 + 0xFFFF);
    lemma_enc_vbi_len(crate::auth::enc_auth_prop_items(v.props()).len() as u32);
    assert(v.body().len() <= VBI_MAX);
    lemma_packet_header(s, i, 0xF0u8, v.body());
    let k = i + 1 + crate::codec::vbi_len(v.body().len() as u32);
    assert(((0xF0u8) as int) / 16 == 15);
    assert((((0xF0u8) as int) % 16) as u8 == 0x00);
    crate::auth::lemma_parse_enc_auth(s, k, v);
}

/// Decoding an encoded PingReq packet yields the packet back.
proof fn lemma_roundtrip_pingreq(s: Seq<u8>, i: int, v: PingReqPacket)
    requires
        0 <= i,
        i + 2 <= s.len(),
        s.subrange(i, i + 2) == crate::ping::pingreq_bytes(),
    ensures
        parse_packet(s, i) == (Parsed::Found { val: PacketView::PingReq(v), next: i + 2 }),
{
    assert(crate::ping::pingreq_bytes() =~= seq![0xC0u8] + enc_vbi(0) + Seq::<u8>::empty());
    lemma_packet_header(s, i, 0xC0u8, Seq::<u8>::empty());
}

/// Decoding an encoded PingResp packet yields the packet back.
proof fn lemma_roundtrip_pingresp(s: Seq<u8>, i: int, v: PingRespPacket)
    requires
        0 <= i,
        i + 2 <= s.len(),
        s.subrange(i, i + 2) == crate::ping::pingresp_bytes(),
    ensures
        parse_packet(s, i) == (Parsed::Found { val: PacketView::PingResp(v), next: i + 2 }),
{
    assert(crate::ping::pingresp_bytes() =~= seq![0xD0u8] + enc_vbi(0) + Seq::<u8>::empty());
    lemma_packet_header(s, i, 0xD0u8, Seq::<u8>::empty());
}

/// Decoding an encoded packet yields the packet back: for every packet type
/// and every combination of present and absent optional fields, the bytes a
/// well-formed packet encodes to parse back to that very packet, consuming
/// all of them.  The encoding may stand at any position of a larger buffer,
/// with arbitrary bytes before and after it, as in a stream of packets.
/// Packets whose optional payload fields are absent are the one exception:
/// an absent payload encodes as an empty one, so those are left out by
/// `payloads_present`.
pub proof fn lemma_decode_encode(s: Seq<u8>, i: int, v: PacketView)
    requires
        v.wf(),
        payloads_present(v),
        0 <= i,
        i + v.bytes().len() <= s.len(),
        s.subrange(i, i + v.bytes().len()) == v.bytes(),
    ensures
        parse_packet(s, i) == (Parsed::Found { val: v, next: i + v.bytes().len() }),
{
    match v {
        PacketView::Connect(p) => lemma_roundtrip_connect(s, i, p),
        PacketView::ConnAck(p) => lemma_roundtrip_connack(s, i, p),
        PacketView::Publish(p) => lemma_roundtrip_publish(s, i, p),
        PacketView::PubAck(p) => lemma_roundtrip_puback(s, i, p),
        PacketView::PubRec(p) => lemma_roundtrip_pubrec(s, i, p),
        PacketView::PubRel(p) => lemma_roundtrip_pubrel(s, i, p),
        PacketView::PubComp(p) => lemma_roundtrip_pubcomp(s, i, p),
        PacketView::Subscribe(p) => lemma_roundtrip_subscribe(s, i, p),
        PacketView::SubAck(p) => lemma_roundtrip_suback(s, i, p),
        PacketView::Unsubscribe(p) => lemma_roundtrip_unsubscribe(s, i, p),
        PacketView::UnsubAck(p) => lemma_roundtrip_unsuback(s, i, p),
        PacketView::PingReq(p) => lemma_roundtrip_pingreq(s, i, p),
        PacketView::PingResp(p) => lemma_roundtrip_pingresp(s, i, p),
        PacketView::Disconnect(p) => lemma_roundtrip_disconnect(s, i, p),
        PacketView::Auth(p) => lemma_roundtrip_auth(s, i, p),
    }
}

/// Re-encoding a decoded packet reproduces the bytes, for bytes that a
/// well-formed packet produced: the canonical encoding parses to exactly
/// that packet, whose wire form is the input itself.
pub proof fn lemma_encode_decode(s: Seq<u8>, v: PacketView)
    requires
        v.wf(),
        payloads_present(v),
        s == v.bytes(),
    ensures
        parse_packet(s, 0) == (Parsed::Found { val: v, next: s.len() as int }),
        (match parse_packet(s, 0) {
            Parsed::Found { val, next } => val.bytes() == s,
            _ => false,
        }),
{
    assert(s.subrange(0, s.len() as int) =~= s);
    lemma_decode_encode(s, 0, v);
}


} // verus!
