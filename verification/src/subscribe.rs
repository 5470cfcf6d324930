//! The Subscribe packet: a packet identifier, an optional subscription
//! identifier property, and a payload of (topic pattern, options byte)
//! pairs read until the declared remaining length is exhausted.  The options
//! byte packs the maximum QoS, the no-local flag, the retain-as-published
//! flag and the retain-handling mode.

use crate::codec::{
    enc_data, enc_u16, enc_vbi, lemma_enc_vbi_len, lemma_parse_enc_str, lemma_parse_enc_u16,
    lemma_parse_enc_vbi, lemma_spliced_concat, lemma_subrange_split, parse_str, parse_u16,
    parse_u8, parse_vbi, read_str, read_u16, read_u8, read_vbi, rem, spliced, vbi_size,
    view_opt_bytes, wf_str, write_u16, write_u8, write_vbi, CodecError, Parsed,
    VariableByteInteger, VBI_MAX,
};
use crate::props::{write_prop_data, write_prop_vbi, PROP_SUBSCRIPTION_ID};
use crate::types::{QoS, RetainHandling};
use vstd::prelude::*;

verus! {

/// One subscription request: a topic pattern and its delivery options.
#[derive(Clone, Debug, PartialEq, Eq)]
pub struct Subscription {
    pub pattern: Vec<u8>,
    pub maximum_qos: QoS,
    pub no_local: bool,
    pub retain_as_published: bool,
    pub retain_handling: RetainHandling,
}

/// The mathematical value of a Subscription.
#[verifier::ext_equal]
pub ghost struct SubscriptionView {
    pub pattern: Seq<u8>,
    pub maximum_qos: QoS,
    pub no_local: bool,
    pub retain_as_published: bool,
    pub retain_handling: RetainHandling,
}

impl View for Subscription {
    type V = SubscriptionView;

    open spec fn view(&self) -> SubscriptionView {
        SubscriptionView {
            pattern: self.pattern@,
            maximum_qos: self.maximum_qos,
            no_local: self.no_local,
            retain_as_published: self.retain_as_published,
            retain_handling: self.retain_handling,
        }
    }
}

impl Subscription {
    pub fn new(
        pattern: Vec<u8>,
        maximum_qos: QoS,
        no_local: bool,
        retain_as_published: bool,
        retain_handling: RetainHandling,
    ) -> (r: Subscription)
        ensures
            r@ == (SubscriptionView {
                pattern: pattern@,
                maximum_qos,
                no_local,
                retain_as_published,
                retain_handling,
            }),
    {
        Subscription { pattern, maximum_qos, no_local, retain_as_published, retain_handling }
    }
}

/// The options byte: maximum QoS in the low two bits, no-local in bit two,
/// retain-as-published in bit three, retain handling in bits four and five.
pub open spec fn options_byte(v: SubscriptionView) -> u8 {
    (v.maximum_qos.as_byte() + (if v.no_local {
        4u8
    } else {
        0u8
    }) + (if v.retain_as_published {
        8u8
    } else {
        0u8
    }) + v.retain_handling.as_byte() * 16) as u8
}

/// The wire form of one subscription: the pattern, then the options byte.
pub open spec fn enc_subscription(v: SubscriptionView) -> Seq<u8> {
    enc_data(v.pattern) + seq![options_byte(v)]
}

/// The wire form of a subscription list, in order.
pub open spec fn enc_subscriptions(vs: Seq<SubscriptionView>) -> Seq<u8>
    decreases vs.len(),
{
    if vs.len() == 0 {
        Seq::empty()
    } else {
        enc_subscription(vs[0]) + enc_subscriptions(vs.drop_first())
    }
}

pub proof fn lemma_enc_subscriptions_concat(a: Seq<SubscriptionView>, b: Seq<SubscriptionView>)
    ensures
        enc_subscriptions(a + b) == enc_subscriptions(a) + enc_subscriptions(b),
    decreases a.len(),
{
    if a.len() == 0 {
        assert(a + b =~= b);
        assert(enc_subscriptions(a) + enc_subscriptions(b) =~= enc_subscriptions(b));
    } else {
        assert((a + b).drop_first() =~= a.drop_first() + b);
        assert((a + b)[0] == a[0]);
        assert((a + b).len() > 0);
        lemma_enc_subscriptions_concat(a.drop_first(), b);
        assert(enc_subscriptions(a + b) =~= enc_subscriptions(a) + enc_subscriptions(b));
    }
}

pub proof fn lemma_enc_subscriptions_snoc(vs: Seq<SubscriptionView>, v: SubscriptionView)
    ensures
        enc_subscriptions(vs.push(v)) == enc_subscriptions(vs) + enc_subscription(v),
{
    lemma_enc_subscriptions_concat(vs, seq![v]);
    assert(vs.push(v) =~= vs + seq![v]);
    reveal_with_fuel(enc_subscriptions, 3);
    assert(seq![v].drop_first() =~= Seq::<SubscriptionView>::empty());
    assert(enc_subscriptions(seq![v]) =~= enc_subscription(v));
}

/// The payload loop: subscriptions until the declared end of the packet.
pub open spec fn parse_subscriptions(
    s: Seq<u8>,
    i: int,
    end: int,
    acc: Seq<SubscriptionView>,
) -> Parsed<Seq<SubscriptionView>>
    decreases rem(i, end),
{
    if i >= end {
        Parsed::Found { val: acc, next: i }
    } else {
        match parse_str(s, i) {
            Parsed::Found { val: pattern, next: j } => {
                match parse_u8(s, j) {
                    Parsed::Found { val: ob, next: k } => {
                        match QoS::spec_from((ob as int % 4) as u8) {
                            Some(maximum_qos) => {
                                match RetainHandling::spec_from(((ob as int / 16) % 4) as u8) {
                                    Some(retain_handling) => parse_subscriptions(
                                        s,
                                        k,
                                        end,
                                        acc.push(
                                            SubscriptionView {
                                                pattern,
                                                maximum_qos,
                                                no_local: (ob as int / 4) % 2 == 1,
                                                retain_as_published: (ob as int / 8) % 2 == 1,
                                                retain_handling,
                                            },
                                        ),
                                    ),
                                    None => Parsed::Malformed,
                                }
                            },
                            None => Parsed::Malformed,
                        }
                    },
                    _ => Parsed::Incomplete,
                }
            },
            Parsed::Incomplete => Parsed::Incomplete,
            Parsed::Malformed => Parsed::Malformed,
        }
    }
}

/// The options byte of a subscription decodes back to its components.
pub proof fn lemma_options_byte_roundtrip(v: SubscriptionView)
    ensures
        options_byte(v) as int % 4 == v.maximum_qos.as_byte(),
        (options_byte(v) as int / 4) % 2 == (if v.no_local {
            1int
        } else {
            0int
        }),
        (options_byte(v) as int / 8) % 2 == (if v.retain_as_published {
            1int
        } else {
            0int
        }),
        (options_byte(v) as int / 16) % 4 == v.retain_handling.as_byte(),
{
    assert(v.maximum_qos.as_byte() <= 2);
    assert(v.retain_handling.as_byte() <= 2);
}

/// Parsing an encoded subscription list yields the subscriptions back.
pub proof fn lemma_parse_enc_subscriptions(
    s: Seq<u8>,
    i: int,
    vs: Seq<SubscriptionView>,
    acc: Seq<SubscriptionView>,
)
    requires
        forall|t: int| 0 <= t < vs.len() ==> wf_str(#[trigger] vs[t].pattern),
        0 <= i,
        i + enc_subscriptions(vs).len() <= s.len(),
        s.subrange(i, i + enc_subscriptions(vs).len()) == enc_subscriptions(vs),
    ensures
        parse_subscriptions(s, i, i + enc_subscriptions(vs).len(), acc) == (Parsed::Found {
            val: acc + vs,
            next: i + enc_subscriptions(vs).len(),
        }),
    decreases vs.len(),
{
    if vs.len() == 0 {
        assert(acc + vs =~= acc);
    } else {
        let v = vs[0];
        let rest = vs.drop_first();
        let end = i + enc_subscriptions(vs).len();
        lemma_subrange_split(s, i, enc_subscription(v), enc_subscriptions(rest));
        assert(enc_subscription(v) + enc_subscriptions(rest) =~= enc_data(v.pattern) + (seq![
            options_byte(v),
        ] + enc_subscriptions(rest)));
        lemma_subrange_split(s, i, enc_data(v.pattern), seq![options_byte(v)] + enc_subscriptions(rest));
        lemma_parse_enc_str(s, i, v.pattern);
        let j = i + 2 + v.pattern.len();
        lemma_subrange_split(s, j, seq![options_byte(v)], enc_subscriptions(rest));
        assert(s.subrange(j, j + 1)[0] == s[j]);
        assert(s[j] == options_byte(v));
        lemma_options_byte_roundtrip(v);
        v.maximum_qos.lemma_round();
        v.retain_handling.lemma_round();
        assert(QoS::spec_from((options_byte(v) as int % 4) as u8) == Some(v.maximum_qos));
        assert(RetainHandling::spec_from(((options_byte(v) as int / 16) % 4) as u8) == Some(
            v.retain_handling,
        ));
        lemma_parse_enc_subscriptions(s, j + 1, rest, acc.push(v));
        assert(acc.push(v) + rest =~= acc + vs);
        assert(parse_subscriptions(s, i, end, acc) == parse_subscriptions(
            s,
            j + 1,
            end,
            acc.push(v),
        ));
    }
}

// ---------------------------------------------------------------------------
// The subscription-identifier-only property set
// ---------------------------------------------------------------------------

/// The property loop of a Subscribe packet: only the subscription
/// identifier is allowed.
pub open spec fn parse_sub_prop_items(
    s: Seq<u8>,
    i: int,
    end: int,
    acc: Option<VariableByteInteger>,
) -> Parsed<Option<VariableByteInteger>>
    decreases rem(i, end),
{
    if i >= end {
        Parsed::Found { val: acc, next: i }
    } else {
        match parse_u8(s, i) {
            Parsed::Found { val: id, next: j } => {
                if id == PROP_SUBSCRIPTION_ID {
                    match parse_vbi(s, j) {
                        Parsed::Found { val: v, next: k } => {
                            if acc is Some {
                                Parsed::Malformed
                            } else {
                                parse_sub_prop_items(s, k, end, Some(VariableByteInteger(v)))
                            }
                        },
                        Parsed::Incomplete => Parsed::Incomplete,
                        Parsed::Malformed => Parsed::Malformed,
                    }
                } else {
                    Parsed::Malformed
                }
            },
            _ => Parsed::Incomplete,
        }
    }
}

/// The property region of a Subscribe packet.
pub open spec fn parse_sub_props(s: Seq<u8>, i: int) -> Parsed<Option<VariableByteInteger>> {
    match parse_vbi(s, i) {
        Parsed::Found { val: len, next: j } => parse_sub_prop_items(s, j, j + len, None),
        Parsed::Incomplete => Parsed::Incomplete,
        Parsed::Malformed => Parsed::Malformed,
    }
}

pub open spec fn enc_sub_prop_items(subscription_id: Option<VariableByteInteger>) -> Seq<u8> {
    match subscription_id {
        Some(v) => seq![PROP_SUBSCRIPTION_ID] + enc_vbi(v.0),
        None => Seq::empty(),
    }
}

pub open spec fn enc_sub_props(subscription_id: Option<VariableByteInteger>) -> Seq<u8> {
    enc_vbi(enc_sub_prop_items(subscription_id).len() as u32) + enc_sub_prop_items(
        subscription_id,
    )
}

pub open spec fn wf_sub_id(subscription_id: Option<VariableByteInteger>) -> bool {
    subscription_id matches Some(v) ==> v.0 <= VBI_MAX
}

/// Parsing an encoded Subscribe property region yields the field back.
pub proof fn lemma_parse_enc_sub_props(s: Seq<u8>, i: int, sid: Option<VariableByteInteger>)
    requires
        wf_sub_id(sid),
        0 <= i,
        i + enc_sub_props(sid).len() <= s.len(),
        s.subrange(i, i + enc_sub_props(sid).len()) == enc_sub_props(sid),
    ensures
        parse_sub_props(s, i) == (Parsed::Found { val: sid, next: i + enc_sub_props(sid).len() }),
{
    let items = enc_sub_prop_items(sid);
    let lenb = enc_vbi(items.len() as u32);
    if sid is Some {
        lemma_enc_vbi_len(sid.unwrap().0);
    }
    lemma_enc_vbi_len(items.len() as u32);
    lemma_subrange_split(s, i, lenb, items);
    lemma_parse_enc_vbi(s, i, items.len() as u32);
    let j = i + lenb.len();
    let end = j + items.len();
    match sid {
        Some(v) => {
            lemma_subrange_split(s, j, seq![PROP_SUBSCRIPTION_ID], enc_vbi(v.0));
            assert(s.subrange(j, j + 1)[0] == s[j]);
            lemma_parse_enc_vbi(s, j + 1, v.0);
            assert(parse_sub_prop_items(s, end, end, Some(v)) == (Parsed::Found {
                val: Some(v),
                next: end,
            }));
        },
        None => {},
    }
}

/// Reads a Subscribe property region.
pub fn read_sub_props(s: &[u8], pos: usize) -> (r: Result<
    (Option<VariableByteInteger>, usize),
    CodecError,
>)
    requires
        pos <= s@.len(),
    ensures
        (match parse_sub_props(s@, pos as int) {
            Parsed::Found { val, next } => r matches Ok(x) && x.0 == val && x.1 == next && pos
                < next <= s@.len() && next <= usize::MAX,
            Parsed::Incomplete => r == Err::<(Option<VariableByteInteger>, usize), CodecError>(
                CodecError::InsufficientBytes,
            ),
            Parsed::Malformed => r == Err::<(Option<VariableByteInteger>, usize), CodecError>(
                CodecError::MalformedBytes,
            ),
        }),
{
    let (plen, p0) = read_vbi(s, pos)?;
    let ghost end = p0 as int + plen as int;
    let mut subscription_id: Option<VariableByteInteger> = None;
    let mut cur: usize = p0;
    while cur - p0 < plen as usize
        invariant
            pos < p0 <= cur <= s@.len(),
            end == p0 as int + plen as int,
            parse_sub_props(s@, pos as int) == parse_sub_prop_items(
                s@,
                cur as int,
                end,
                subscription_id,
            ),
        decreases rem(cur as int, end),
    {
        let (id, p1) = read_u8(s, cur)?;
        if id == PROP_SUBSCRIPTION_ID {
            let (v, p2) = read_vbi(s, p1)?;
            if subscription_id.is_some() {
                return Err(CodecError::MalformedBytes);
            }
            subscription_id = Some(VariableByteInteger(v));
            cur = p2;
        } else {
            return Err(CodecError::MalformedBytes);
        }
    }
    Ok((subscription_id, cur))
}

// ---------------------------------------------------------------------------
// The Subscribe packet
// ---------------------------------------------------------------------------

/// A request to open one or more subscriptions.
#[derive(Clone, Debug, PartialEq, Eq)]
pub struct SubscribePacket {
    pub packet_id: u16,
    pub subscriptions: Vec<Subscription>,
    pub subscription_id: Option<VariableByteInteger>,
}

/// The mathematical value of a Subscribe packet.
#[verifier::ext_equal]
pub ghost struct SubscribeView {
    pub packet_id: u16,
    pub subscriptions: Seq<SubscriptionView>,
    pub subscription_id: Option<VariableByteInteger>,
}

impl View for SubscribePacket {
    type V = SubscribeView;

    open spec fn view(&self) -> SubscribeView {
        SubscribeView {
            packet_id: self.packet_id,
            subscriptions: Seq::new(self.subscriptions@.len(), |t: int| self.subscriptions@[t]@),
            subscription_id: self.subscription_id,
        }
    }
}

/// The variable header and payload of a Subscribe packet.  The fixed-header
/// flags must equal the reserved pattern 0x02.
pub open spec fn parse_subscribe(s: Seq<u8>, i: int, flags: u8, rl: u32) -> Parsed<
    SubscribeView,
> {
    if flags != 0x02 {
        Parsed::Malformed
    } else {
        match parse_u16(s, i) {
            Parsed::Found { val: packet_id, next: j } => {
                match parse_sub_props(s, j) {
                    Parsed::Found { val: subscription_id, next: k } => {
                        match parse_subscriptions(s, k, i + rl, Seq::empty()) {
                            Parsed::Found { val: subscriptions, next: m } => Parsed::Found {
                                val: SubscribeView { packet_id, subscriptions, subscription_id },
                                next: m,
                            },
                            Parsed::Incomplete => Parsed::Incomplete,
                            Parsed::Malformed => Parsed::Malformed,
                        }
                    },
                    Parsed::Incomplete => Parsed::Incomplete,
                    Parsed::Malformed => Parsed::Malformed,
                }
            },
            _ => Parsed::Incomplete,
        }
    }
}

impl SubscribeView {
    pub open spec fn wf(self) -> bool {
        wf_sub_id(self.subscription_id) && (forall|t: int|
            0 <= t < self.subscriptions.len() ==> wf_str(#[trigger] self.subscriptions[t].pattern))
            && self.body().len() <= VBI_MAX
    }

    /// Everything after the fixed header.
    pub open spec fn body(self) -> Seq<u8> {
        enc_u16(self.packet_id) + enc_sub_props(self.subscription_id) + enc_subscriptions(
            self.subscriptions,
        )
    }

    /// The complete wire form.
    pub open spec fn bytes(self) -> Seq<u8> {
        seq![0x82u8] + enc_vbi(self.body().len() as u32) + self.body()
    }
}

impl SubscribePacket {
    pub fn new(
        packet_id: u16,
        subscriptions: Vec<Subscription>,
        subscription_id: Option<VariableByteInteger>,
    ) -> (r: SubscribePacket)
        ensures
            r@ == (SubscribeView {
                packet_id,
                subscriptions: Seq::new(subscriptions@.len(), |t: int| subscriptions@[t]@),
                subscription_id,
            }),
    {
        SubscribePacket { packet_id, subscriptions, subscription_id }
    }

    /// Reads the variable header and payload, the cursor standing after the
    /// fixed header.
    pub fn read(s: &[u8], pos: usize, flags: u8, remaining_length: u32) -> (r: Result<
        (SubscribePacket, usize),
        CodecError,
    >)
        requires
            pos <= s@.len(),
        ensures
            (match parse_subscribe(s@, pos as int, flags, remaining_length) {
                Parsed::Found { val, next } => r matches Ok(x) && x.0@ == val && x.1 == next
                    && pos < next <= s@.len() && next <= usize::MAX,
                Parsed::Incomplete => r == Err::<(SubscribePacket, usize), CodecError>(
                    CodecError::InsufficientBytes,
                ),
                Parsed::Malformed => r == Err::<(SubscribePacket, usize), CodecError>(
                    CodecError::MalformedBytes,
                ),
            }),
    {
        if flags != 0x02 {
            return Err(CodecError::MalformedBytes);
        }
        let (packet_id, p1) = read_u16(s, pos)?;
        let (subscription_id, p2) = read_sub_props(s, p1)?;
        let ghost end = pos as int + remaining_length as int;
        let mut subscriptions: Vec<Subscription> = Vec::new();
        proof {
            assert(Seq::new(subscriptions@.len(), |t: int| subscriptions@[t]@)
                =~= Seq::<SubscriptionView>::empty());
        }
        let mut cur: usize = p2;
        while cur - pos < remaining_length as usize
            invariant
                pos < cur <= s@.len(),
                end == pos as int + remaining_length as int,
                (match parse_subscriptions(
                    s@,
                    cur as int,
                    end,
                    Seq::new(subscriptions@.len(), |t: int| subscriptions@[t]@),
                ) {
                    Parsed::Found { val, next } => parse_subscribe(
                        s@,
                        pos as int,
                        flags,
                        remaining_length,
                    ) == (Parsed::Found {
                        val: SubscribeView { packet_id, subscriptions: val, subscription_id },
                        next,
                    }),
                    Parsed::Incomplete => parse_subscribe(s@, pos as int, flags, remaining_length)
                        == Parsed::<SubscribeView>::Incomplete,
                    Parsed::Malformed => parse_subscribe(s@, pos as int, flags, remaining_length)
                        == Parsed::<SubscribeView>::Malformed,
                }),
            decreases rem(cur as int, end),
        {
            let (pattern, p3) = read_str(s, cur)?;
            let (ob, p4) = read_u8(s, p3)?;
            let maximum_qos = QoS::new(ob % 4)?;
            let retain_handling = RetainHandling::new((ob / 16) % 4)?;
            let sub = Subscription {
                pattern,
                maximum_qos,
                no_local: (ob / 4) % 2 == 1,
                retain_as_published: (ob / 8) % 2 == 1,
                retain_handling,
            };
            let ghost before = Seq::new(subscriptions@.len(), |t: int| subscriptions@[t]@);
            subscriptions.push(sub);
            proof {
                assert(Seq::new(subscriptions@.len(), |t: int| subscriptions@[t]@) =~= before.push(
                    sub@,
                ));
            }
            cur = p4;
        }
        Ok((SubscribePacket { packet_id, subscriptions, subscription_id }, cur))
    }

    /// Serializes the packet into `buffer` at `index`; fails, touching
    /// nothing, exactly when the buffer is too short.
    #[verifier::spinoff_prover]
    #[verifier::rlimit(100)]
    pub fn write(&self, buffer: &mut Vec<u8>, index: usize) -> (r: Result<usize, CodecError>)
        requires
            self@.wf(),
            index <= old(buffer)@.len(),
        ensures
            (match r {
                Ok(n) => n == self@.bytes().len() && old(buffer)@.len() >= index
                    + self@.bytes().len() && final(buffer)@ == spliced(
                    old(buffer)@,
                    index as int,
                    self@.bytes(),
                ) && final(buffer)@.len() == old(buffer)@.len(),
                Err(e) => e == CodecError::InsufficientBytes && final(buffer)@ == old(buffer)@
                    && old(buffer)@.len() < index + self@.bytes().len(),
            }),
    {
        let ghost subsv = self@.subscriptions;
        let mut props_nbytes: usize = 1;
        if let Some(sid) = self.subscription_id {
            proof {
                lemma_enc_vbi_len(sid.0);
                lemma_enc_vbi_len(enc_sub_prop_items(self.subscription_id).len() as u32);
            }
            props_nbytes = 1 + 1 + vbi_size(sid.get());
        }
        proof {
            lemma_enc_vbi_len(enc_sub_prop_items(self.subscription_id).len() as u32);
            assert(props_nbytes == enc_sub_props(self.subscription_id).len());
        }
        // payload size
        let mut payload_nbytes: usize = 0;
        let mut k: usize = 0;
        while k < self.subscriptions.len()
            invariant
                k <= self.subscriptions@.len(),
                subsv == self@.subscriptions,
                self@.wf(),
                subsv.len() == self.subscriptions@.len(),
                forall|t: int| 0 <= t < subsv.len() ==> subsv[t] == #[trigger] self.subscriptions@[t]@,
                payload_nbytes == enc_subscriptions(subsv.subrange(0, k as int)).len(),
                payload_nbytes <= enc_subscriptions(subsv).len(),
            decreases self.subscriptions@.len() - k,
        {
            proof {
                let part = subsv.subrange(0, k as int);
                lemma_enc_subscriptions_snoc(part, subsv[k as int]);
                assert(subsv.subrange(0, k + 1 as int) =~= part.push(subsv[k as int]));
                lemma_enc_subscriptions_concat(
                    subsv.subrange(0, k + 1 as int),
                    subsv.skip(k + 1 as int),
                );
                assert(subsv.subrange(0, k + 1 as int) + subsv.skip(k + 1 as int) =~= subsv);
                assert(enc_subscriptions(subsv.subrange(0, k + 1 as int)).len()
                    <= enc_subscriptions(subsv).len());
            }
            payload_nbytes = payload_nbytes + 2 + self.subscriptions[k].pattern.len() + 1;
            k = k + 1;
        }
        proof {
            assert(subsv.subrange(0, subsv.len() as int) =~= subsv);
        }
        let nbytes = 2 + props_nbytes + payload_nbytes;
        proof {
            assert(nbytes == self@.body().len());
            lemma_enc_vbi_len(nbytes as u32);
        }
        let rl_size = vbi_size(nbytes as u32);
        let total = 1 + rl_size + nbytes;
        if buffer.len() - index < total {
            return Err(CodecError::InsufficientBytes);
        }
        write_u8(buffer, index, 0x82);
        proof {
            lemma_spliced_concat(old(buffer)@, index as int, seq![0x82u8], enc_vbi(nbytes as u32));
        }
        write_vbi(buffer, index + 1, nbytes as u32);
        proof {
            lemma_spliced_concat(
                old(buffer)@,
                index as int,
                seq![0x82u8] + enc_vbi(nbytes as u32),
                enc_u16(self.packet_id),
            );
        }
        write_u16(buffer, index + 1 + rl_size, self.packet_id);
        // properties
        let pbase = index + 1 + rl_size + 2;
        let ghost done = seq![0x82u8] + enc_vbi(nbytes as u32) + enc_u16(self.packet_id);
        let items_len: usize = props_nbytes - 1;
        proof {
            assert(items_len == enc_sub_prop_items(self.subscription_id).len());
            lemma_spliced_concat(old(buffer)@, index as int, done, enc_vbi(items_len as u32));
        }
        write_vbi(buffer, pbase, items_len as u32);
        let ghost done = done + enc_vbi(items_len as u32);
        if let Some(sid) = self.subscription_id {
            proof {
                lemma_enc_vbi_len(sid.0);
                lemma_spliced_concat(
                    old(buffer)@,
                    index as int,
                    done,
                    seq![PROP_SUBSCRIPTION_ID] + enc_vbi(sid.0),
                );
            }
            write_prop_vbi(buffer, pbase + 1, PROP_SUBSCRIPTION_ID, sid.get());
        }
        let ghost done = done + enc_sub_prop_items(self.subscription_id);
        proof {
            if self.subscription_id is None {
                assert(done =~= seq![0x82u8] + enc_vbi(nbytes as u32) + enc_u16(self.packet_id)
                    + enc_vbi(items_len as u32));
            }
            assert(buffer@ == spliced(old(buffer)@, index as int, done));
            assert(done.len() == 1 + rl_size + 2 + props_nbytes);
        }
        // payload
        let base = pbase + props_nbytes;
        let ghost head = done;
        let mut k: usize = 0;
        let mut w: usize = 0;
        while k < self.subscriptions.len()
            invariant
                k <= self.subscriptions@.len(),
                w == enc_subscriptions(subsv.subrange(0, k as int)).len(),
                subsv.len() == self.subscriptions@.len(),
                forall|t: int| 0 <= t < subsv.len() ==> subsv[t] == #[trigger] self.subscriptions@[t]@,
                forall|t: int| 0 <= t < subsv.len() ==> wf_str(#[trigger] subsv[t].pattern),
                head.len() == base - index,
                index <= base,
                base + enc_subscriptions(subsv).len() <= buffer@.len(),
                buffer@.len() <= usize::MAX,
                buffer@.len() == old(buffer)@.len(),
                buffer@ == spliced(
                    old(buffer)@,
                    index as int,
                    head + enc_subscriptions(subsv.subrange(0, k as int)),
                ),
            decreases self.subscriptions@.len() - k,
        {
            let ghost part = subsv.subrange(0, k as int);
            proof {
                assert(subsv[k as int] == self.subscriptions@[k as int]@);
                lemma_enc_subscriptions_concat(part, subsv.skip(k as int));
                assert(part + subsv.skip(k as int) =~= subsv);
                lemma_enc_subscriptions_snoc(part, subsv[k as int]);
                assert(subsv.skip(k as int)[0] == subsv[k as int]);
                assert(enc_subscriptions(subsv.skip(k as int)).len() >= enc_subscription(
                    subsv[k as int],
                ).len());
                assert(enc_subscriptions(part).len() + enc_subscription(subsv[k as int]).len()
                    <= enc_subscriptions(subsv).len());
                assert(enc_subscription(subsv[k as int]).len() == 2 + subsv[k as int].pattern.len()
                    + 1);
                lemma_spliced_concat(
                    old(buffer)@,
                    index as int,
                    head + enc_subscriptions(part),
                    enc_data(subsv[k as int].pattern),
                );
            }
            let sub = &self.subscriptions[k];
            let w0 = base + w;
            proof {
                assert(w0 == index + (head + enc_subscriptions(part)).len());
            }
            crate::codec::write_data(buffer, w0, sub.pattern.as_slice());
            proof {
                lemma_spliced_concat(
                    old(buffer)@,
                    index as int,
                    head + enc_subscriptions(part) + enc_data(subsv[k as int].pattern),
                    seq![options_byte(subsv[k as int])],
                );
            }
            let mut ob: u8 = sub.maximum_qos.value();
            if sub.no_local {
                ob = ob + 4;
            }
            if sub.retain_as_published {
                ob = ob + 8;
            }
            ob = ob + sub.retain_handling.value() * 16;
            proof {
                assert(subsv[k as int].maximum_qos.as_byte() <= 2);
                assert(subsv[k as int].retain_handling.as_byte() <= 2);
                assert(ob == options_byte(subsv[k as int]));
            }
            write_u8(buffer, w0 + 2 + sub.pattern.len(), ob);
            proof {
                assert(subsv.subrange(0, k + 1 as int) =~= part.push(subsv[k as int]));
                assert(head + enc_subscriptions(part) + enc_data(subsv[k as int].pattern) + seq![
                    options_byte(subsv[k as int]),
                ] =~= head + enc_subscriptions(subsv.subrange(0, k + 1 as int)));
            }
            w = w + 2 + sub.pattern.len() + 1;
            k = k + 1;
        }
        proof {
            assert(subsv.subrange(0, subsv.len() as int) =~= subsv);
            assert(head + enc_subscriptions(subsv) =~= self@.bytes());
        }
        Ok(total)
    }
}

/// Parsing an encoded Subscribe body yields the packet back.
pub proof fn lemma_parse_enc_subscribe(s: Seq<u8>, i: int, v: SubscribeView)
    requires
        v.wf(),
        0 <= i,
        i + v.body().len() <= s.len(),
        s.subrange(i, i + v.body().len()) == v.body(),
    ensures
        parse_subscribe(s, i, 0x02, v.body().len() as u32) == (Parsed::Found {
            val: v,
            next: i + v.body().len(),
        }),
{
    let a = enc_u16(v.packet_id);
    let b = enc_sub_props(v.subscription_id);
    let c = enc_subscriptions(v.subscriptions);
    lemma_enc_vbi_len(enc_sub_prop_items(v.subscription_id).len() as u32);
    assert(v.body() =~= a + (b + c));
    lemma_subrange_split(s, i, a, b + c);
    lemma_parse_enc_u16(s, i, v.packet_id);
    lemma_subrange_split(s, i + 2, b, c);
    lemma_parse_enc_sub_props(s, i + 2, v.subscription_id);
    let k = i + 2 + b.len();
    lemma_parse_enc_subscriptions(s, k, v.subscriptions, Seq::empty());
    assert(Seq::empty() + v.subscriptions =~= v.subscriptions);
    assert(k + c.len() == i + v.body().len());
}

} // verus!
