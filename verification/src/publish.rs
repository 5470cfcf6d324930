//! The Publish packet: an application message.  The retain, QoS and
//! duplicate bits live in the fixed-header flags nibble; the packet
//! identifier is present exactly when the QoS is above AtMostOnce; the
//! payload occupies everything up to the declared remaining length.  The
//! subscription-identifier property may repeat, accumulating into a list.

use crate::codec::{
    enc_data, enc_u16, enc_u8, enc_vbi, lemma_enc_vbi_len, lemma_parse_enc_data,
    lemma_parse_enc_str, lemma_parse_enc_u16, lemma_parse_enc_u32, lemma_parse_enc_vbi,
    lemma_spliced_concat, lemma_subrange_split, parse_data, parse_str, parse_u16, parse_u32,
    parse_u8, parse_vbi, read_data, read_str, read_u16, read_u32, read_u8, read_vbi, rem, spliced,
    vbi_size, view_opt_bytes, wf_opt_data, wf_opt_str, wf_str, write_bytes, write_data, write_u16,
    write_u8, write_vbi, CodecError, Parsed, VBI_MAX,
};
use crate::props::{
    enc_opt_data, enc_opt_u16, enc_opt_u32, enc_u8_unless, write_prop_data, write_prop_u16,
    write_prop_u32, write_prop_u8, write_prop_vbi, PROP_CONTENT_TYPE, PROP_CORRELATION_DATA,
    PROP_MESSAGE_EXPIRY_INTERVAL, PROP_PAYLOAD_FORMAT_INDICATOR, PROP_RESPONSE_TOPIC,
    PROP_SUBSCRIPTION_ID, PROP_TOPIC_ALIAS,
};
use crate::types::QoS;
use vstd::prelude::*;

verus! {

/// An application message.
#[derive(Clone, Debug, PartialEq, Eq)]
pub struct PublishPacket {
    pub topic: Vec<u8>,
    pub payload: Option<Vec<u8>>,
    pub qos: QoS,
    pub retain: bool,
    pub packet_id: Option<u16>,
    pub duplicate: bool,
    pub payload_format_indicator: u8,
    pub message_expiry_interval: Option<u32>,
    pub content_type: Option<Vec<u8>>,
    pub response_topic: Option<Vec<u8>>,
    pub correlation_data: Option<Vec<u8>>,
    pub subscription_ids: Vec<u32>,
    pub topic_alias: Option<u16>,
}

/// The mathematical value of a Publish packet.
#[verifier::ext_equal]
pub ghost struct PublishView {
    pub topic: Seq<u8>,
    pub payload: Option<Seq<u8>>,
    pub qos: QoS,
    pub retain: bool,
    pub packet_id: Option<u16>,
    pub duplicate: bool,
    pub payload_format_indicator: u8,
    pub message_expiry_interval: Option<u32>,
    pub content_type: Option<Seq<u8>>,
    pub response_topic: Option<Seq<u8>>,
    pub correlation_data: Option<Seq<u8>>,
    pub subscription_ids: Seq<u32>,
    pub topic_alias: Option<u16>,
}

impl View for PublishPacket {
    type V = PublishView;

    open spec fn view(&self) -> PublishView {
        PublishView {
            topic: self.topic@,
            payload: view_opt_bytes(self.payload),
            qos: self.qos,
            retain: self.retain,
            packet_id: self.packet_id,
            duplicate: self.duplicate,
            payload_format_indicator: self.payload_format_indicator,
            message_expiry_interval: self.message_expiry_interval,
            content_type: view_opt_bytes(self.content_type),
            response_topic: view_opt_bytes(self.response_topic),
            correlation_data: view_opt_bytes(self.correlation_data),
            subscription_ids: self.subscription_ids@,
            topic_alias: self.topic_alias,
        }
    }
}

/// The property fields of a Publish packet, while being accumulated.  The
/// payload format indicator tracks presence so a duplicate is rejected; the
/// subscription identifiers accumulate in order.
#[verifier::ext_equal]
pub ghost struct PublishProps {
    pub payload_format_indicator: Option<u8>,
    pub message_expiry_interval: Option<u32>,
    pub content_type: Option<Seq<u8>>,
    pub response_topic: Option<Seq<u8>>,
    pub correlation_data: Option<Seq<u8>>,
    pub subscription_ids: Seq<u32>,
    pub topic_alias: Option<u16>,
}

pub open spec fn publish_props_empty() -> PublishProps {
    PublishProps {
        payload_format_indicator: None,
        message_expiry_interval: None,
        content_type: None,
        response_topic: None,
        correlation_data: None,
        subscription_ids: Seq::empty(),
        topic_alias: None,
    }
}

/// The property loop of a Publish packet.
pub open spec fn parse_publish_prop_items(
    s: Seq<u8>,
    i: int,
    end: int,
    acc: PublishProps,
) -> Parsed<PublishProps>
    decreases rem(i, end),
{
    if i >= end {
        Parsed::Found { val: acc, next: i }
    } else {
        match parse_u8(s, i) {
            Parsed::Found { val: id, next: j } => {
                if id == PROP_PAYLOAD_FORMAT_INDICATOR {
                    match parse_u8(s, j) {
                        Parsed::Found { val: v, next: k } => {
                            if acc.payload_format_indicator is Some {
                                Parsed::Malformed
                            } else {
                                parse_publish_prop_items(
                                    s,
                                    k,
                                    end,
                                    PublishProps { payload_format_indicator: Some(v), ..acc },
                                )
                            }
                        },
                        _ => Parsed::Incomplete,
                    }
                } else if id == PROP_MESSAGE_EXPIRY_INTERVAL {
                    match parse_u32(s, j) {
                        Parsed::Found { val: v, next: k } => {
                            if acc.message_expiry_interval is Some {
                                Parsed::Malformed
                            } else {
                                parse_publish_prop_items(
                                    s,
                                    k,
                                    end,
                                    PublishProps { message_expiry_interval: Some(v), ..acc },
                                )
                            }
                        },
                        Parsed::Incomplete => Parsed::Incomplete,
                        Parsed::Malformed => Parsed::Malformed,
                    }
                } else if id == PROP_CONTENT_TYPE {
                    match parse_str(s, j) {
                        Parsed::Found { val: v, next: k } => {
                            if acc.content_type is Some {
                                Parsed::Malformed
                            } else {
                                parse_publish_prop_items(
                                    s,
                                    k,
                                    end,
                                    PublishProps { content_type: Some(v), ..acc },
                                )
                            }
                        },
                        Parsed::Incomplete => Parsed::Incomplete,
                        Parsed::Malformed => Parsed::Malformed,
                    }
                } else if id == PROP_RESPONSE_TOPIC {
                    match parse_str(s, j) {
                        Parsed::Found { val: v, next: k } => {
                            if acc.response_topic is Some {
                                Parsed::Malformed
                            } else {
                                parse_publish_prop_items(
                                    s,
                                    k,
                                    end,
                                    PublishProps { response_topic: Some(v), ..acc },
                                )
                            }
                        },
                        Parsed::Incomplete => Parsed::Incomplete,
                        Parsed::Malformed => Parsed::Malformed,
                    }
                } else if id == PROP_CORRELATION_DATA {
                    match parse_data(s, j) {
                        Parsed::Found { val: v, next: k } => {
                            if acc.correlation_data is Some {
                                Parsed::Malformed
                            } else {
                                parse_publish_prop_items(
                                    s,
                                    k,
                                    end,
                                    PublishProps { correlation_data: Some(v), ..acc },
                                )
                            }
                        },
                        Parsed::Incomplete => Parsed::Incomplete,
                        Parsed::Malformed => Parsed::Malformed,
                    }
                } else if id == PROP_SUBSCRIPTION_ID {
                    match parse_vbi(s, j) {
                        Parsed::Found { val: v, next: k } => parse_publish_prop_items(
                            s,
                            k,
                            end,
                            PublishProps { subscription_ids: acc.subscription_ids.push(v), ..acc },
                        ),
                        Parsed::Incomplete => Parsed::Incomplete,
                        Parsed::Malformed => Parsed::Malformed,
                    }
                } else if id == PROP_TOPIC_ALIAS {
                    match parse_u16(s, j) {
                        Parsed::Found { val: v, next: k } => {
                            if acc.topic_alias is Some {
                                Parsed::Malformed
                            } else {
                                parse_publish_prop_items(
                                    s,
                                    k,
                                    end,
                                    PublishProps { topic_alias: Some(v), ..acc },
                                )
                            }
                        },
                        Parsed::Incomplete => Parsed::Incomplete,
                        Parsed::Malformed => Parsed::Malformed,
                    }
                } else {
                    Parsed::Malformed
                }
            },
            _ => Parsed::Incomplete,
        }
    }
}

/// The property region of a Publish packet.
pub open spec fn parse_publish_props(s: Seq<u8>, i: int) -> Parsed<PublishProps> {
    match parse_vbi(s, i) {
        Parsed::Found { val: len, next: j } => parse_publish_prop_items(
            s,
            j,
            j + len,
            publish_props_empty(),
        ),
        Parsed::Incomplete => Parsed::Incomplete,
        Parsed::Malformed => Parsed::Malformed,
    }
}

/// The wire form of the subscription identifiers, one property each.
pub open spec fn enc_sub_ids(ids: Seq<u32>) -> Seq<u8>
    decreases ids.len(),
{
    if ids.len() == 0 {
        Seq::empty()
    } else {
        (seq![PROP_SUBSCRIPTION_ID] + enc_vbi(ids[0])) + enc_sub_ids(ids.drop_first())
    }
}

pub proof fn lemma_enc_sub_ids_concat(a: Seq<u32>, b: Seq<u32>)
    ensures
        enc_sub_ids(a + b) == enc_sub_ids(a) + enc_sub_ids(b),
    decreases a.len(),
{
    if a.len() == 0 {
        assert(a + b =~= b);
        assert(enc_sub_ids(a) + enc_sub_ids(b) =~= enc_sub_ids(b));
    } else {
        assert((a + b).drop_first() =~= a.drop_first() + b);
        assert((a + b)[0] == a[0]);
        lemma_enc_sub_ids_concat(a.drop_first(), b);
        assert(enc_sub_ids(a + b) =~= enc_sub_ids(a) + enc_sub_ids(b));
    }
}

pub proof fn lemma_enc_sub_ids_snoc(ids: Seq<u32>, v: u32)
    ensures
        enc_sub_ids(ids.push(v)) == enc_sub_ids(ids) + (seq![PROP_SUBSCRIPTION_ID] + enc_vbi(v)),
{
    lemma_enc_sub_ids_concat(ids, seq![v]);
    assert(ids.push(v) =~= ids + seq![v]);
    reveal_with_fuel(enc_sub_ids, 3);
    assert(seq![v].drop_first() =~= Seq::<u32>::empty());
    assert(enc_sub_ids(seq![v]) =~= seq![PROP_SUBSCRIPTION_ID] + enc_vbi(v));
}

/// The property fields of a view, as the accumulator the parser ends with.
pub open spec fn publish_props_of(v: PublishView) -> PublishProps {
    PublishProps {
        payload_format_indicator: if v.payload_format_indicator != 0 {
            Some(v.payload_format_indicator)
        } else {
            None
        },
        message_expiry_interval: v.message_expiry_interval,
        content_type: v.content_type,
        response_topic: v.response_topic,
        correlation_data: v.correlation_data,
        subscription_ids: v.subscription_ids,
        topic_alias: v.topic_alias,
    }
}

pub open spec fn enc_publish_prop_items(v: PublishView) -> Seq<u8> {
    enc_u8_unless(PROP_PAYLOAD_FORMAT_INDICATOR, v.payload_format_indicator, 0)
        + enc_opt_u32(PROP_MESSAGE_EXPIRY_INTERVAL, v.message_expiry_interval)
        + enc_opt_data(PROP_CONTENT_TYPE, v.content_type)
        + enc_opt_data(PROP_RESPONSE_TOPIC, v.response_topic)
        + enc_opt_data(PROP_CORRELATION_DATA, v.correlation_data)
        + enc_sub_ids(v.subscription_ids)
        + enc_opt_u16(PROP_TOPIC_ALIAS, v.topic_alias)
}

pub open spec fn enc_publish_props(v: PublishView) -> Seq<u8> {
    enc_vbi(enc_publish_prop_items(v).len() as u32) + enc_publish_prop_items(v)
}

/// One property-loop step over a payload-format-indicator written only
/// when it differs from zero.
proof fn lemma_publish_step_pfi(s: Seq<u8>, i: int, end: int, acc: PublishProps, v: u8)
    requires
        0 <= i,
        i + enc_u8_unless(PROP_PAYLOAD_FORMAT_INDICATOR, v, 0).len() <= s.len(),
        i + enc_u8_unless(PROP_PAYLOAD_FORMAT_INDICATOR, v, 0).len() <= end,
        s.subrange(i, i + enc_u8_unless(PROP_PAYLOAD_FORMAT_INDICATOR, v, 0).len())
            == enc_u8_unless(PROP_PAYLOAD_FORMAT_INDICATOR, v, 0),
        acc.payload_format_indicator is None,
    ensures
        parse_publish_prop_items(s, i, end, acc) == parse_publish_prop_items(
            s,
            i + enc_u8_unless(PROP_PAYLOAD_FORMAT_INDICATOR, v, 0).len(),
            end,
            (PublishProps {
                payload_format_indicator: if v != 0 {
                    Some(v)
                } else {
                    None
                },
                ..acc
            }),
        ),
{
    if v != 0 {
        assert(s.subrange(i, i + 2)[0] == s[i]);
        assert(s.subrange(i, i + 2)[1] == s[i + 1]);
    }
}

/// One property-loop step over an optional message-expiry-interval.
proof fn lemma_publish_step_mei(s: Seq<u8>, i: int, end: int, acc: PublishProps, v: Option<u32>)
    requires
        0 <= i,
        i + enc_opt_u32(PROP_MESSAGE_EXPIRY_INTERVAL, v).len() <= s.len(),
        i + enc_opt_u32(PROP_MESSAGE_EXPIRY_INTERVAL, v).len() <= end,
        s.subrange(i, i + enc_opt_u32(PROP_MESSAGE_EXPIRY_INTERVAL, v).len()) == enc_opt_u32(
            PROP_MESSAGE_EXPIRY_INTERVAL,
            v,
        ),
        acc.message_expiry_interval is None,
    ensures
        parse_publish_prop_items(s, i, end, acc) == parse_publish_prop_items(
            s,
            i + enc_opt_u32(PROP_MESSAGE_EXPIRY_INTERVAL, v).len(),
            end,
            (PublishProps { message_expiry_interval: v, ..acc }),
        ),
{
    if v is Some {
        let x = v.unwrap();
        lemma_subrange_split(s, i, seq![PROP_MESSAGE_EXPIRY_INTERVAL], crate::codec::enc_u32(x));
        assert(s.subrange(i, i + 1)[0] == s[i]);
        lemma_parse_enc_u32(s, i + 1, x);
    }
}

/// One property-loop step over an optional string or binary property of a
/// Publish packet.
proof fn lemma_publish_step_data(
    s: Seq<u8>,
    i: int,
    end: int,
    acc: PublishProps,
    id: u8,
    ov: Option<Seq<u8>>,
)
    requires
        id == PROP_CONTENT_TYPE || id == PROP_RESPONSE_TOPIC || id == PROP_CORRELATION_DATA,
        id == PROP_CORRELATION_DATA ==> wf_opt_data(ov),
        id != PROP_CORRELATION_DATA ==> wf_opt_str(ov),
        0 <= i,
        i + enc_opt_data(id, ov).len() <= s.len(),
        i + enc_opt_data(id, ov).len() <= end,
        s.subrange(i, i + enc_opt_data(id, ov).len()) == enc_opt_data(id, ov),
        id == PROP_CONTENT_TYPE ==> acc.content_type is None,
        id == PROP_RESPONSE_TOPIC ==> acc.response_topic is None,
        id == PROP_CORRELATION_DATA ==> acc.correlation_data is None,
    ensures
        id == PROP_CONTENT_TYPE ==> parse_publish_prop_items(s, i, end, acc)
            == parse_publish_prop_items(
            s,
            i + enc_opt_data(id, ov).len(),
            end,
            (PublishProps { content_type: ov, ..acc }),
        ),
        id == PROP_RESPONSE_TOPIC ==> parse_publish_prop_items(s, i, end, acc)
            == parse_publish_prop_items(
            s,
            i + enc_opt_data(id, ov).len(),
            end,
            (PublishProps { response_topic: ov, ..acc }),
        ),
        id == PROP_CORRELATION_DATA ==> parse_publish_prop_items(s, i, end, acc)
            == parse_publish_prop_items(
            s,
            i + enc_opt_data(id, ov).len(),
            end,
            (PublishProps { correlation_data: ov, ..acc }),
        ),
{
    if ov is Some {
        let v = ov.unwrap();
        lemma_subrange_split(s, i, seq![id], enc_data(v));
        assert(s.subrange(i, i + 1)[0] == s[i]);
        if id == PROP_CORRELATION_DATA {
            lemma_parse_enc_data(s, i + 1, v);
        } else {
            lemma_parse_enc_str(s, i + 1, v);
        }
    }
}

/// One property-loop step over an optional topic alias.
proof fn lemma_publish_step_topic_alias(
    s: Seq<u8>,
    i: int,
    end: int,
    acc: PublishProps,
    v: Option<u16>,
)
    requires
        0 <= i,
        i + enc_opt_u16(PROP_TOPIC_ALIAS, v).len() <= s.len(),
        i + enc_opt_u16(PROP_TOPIC_ALIAS, v).len() <= end,
        s.subrange(i, i + enc_opt_u16(PROP_TOPIC_ALIAS, v).len()) == enc_opt_u16(
            PROP_TOPIC_ALIAS,
            v,
        ),
        acc.topic_alias is None,
    ensures
        parse_publish_prop_items(s, i, end, acc) == parse_publish_prop_items(
            s,
            i + enc_opt_u16(PROP_TOPIC_ALIAS, v).len(),
            end,
            (PublishProps { topic_alias: v, ..acc }),
        ),
{
    if v is Some {
        let x = v.unwrap();
        lemma_subrange_split(s, i, seq![PROP_TOPIC_ALIAS], enc_u16(x));
        assert(s.subrange(i, i + 1)[0] == s[i]);
        lemma_parse_enc_u16(s, i + 1, x);
    }
}

/// Walking the property loop over an encoded run of subscription
/// identifiers appends them in order.
proof fn lemma_publish_steps_sub_ids(s: Seq<u8>, i: int, end: int, acc: PublishProps, ids: Seq<u32>)
    requires
        forall|t: int| 0 <= t < ids.len() ==> #[trigger] ids[t] <= VBI_MAX,
        0 <= i,
        i + enc_sub_ids(ids).len() <= s.len(),
        i + enc_sub_ids(ids).len() <= end,
        s.subrange(i, i + enc_sub_ids(ids).len()) == enc_sub_ids(ids),
    ensures
        parse_publish_prop_items(s, i, end, acc) == parse_publish_prop_items(
            s,
            i + enc_sub_ids(ids).len(),
            end,
            (PublishProps { subscription_ids: acc.subscription_ids + ids, ..acc }),
        ),
    decreases ids.len(),
{
    if ids.len() == 0 {
        assert(acc.subscription_ids + ids =~= acc.subscription_ids);
        assert((PublishProps { subscription_ids: acc.subscription_ids + ids, ..acc }) =~= acc);
    } else {
        let v = ids[0];
        let rest = ids.drop_first();
        lemma_enc_vbi_len(v);
        lemma_subrange_split(s, i, seq![PROP_SUBSCRIPTION_ID] + enc_vbi(v), enc_sub_ids(rest));
        lemma_subrange_split(s, i, seq![PROP_SUBSCRIPTION_ID], enc_vbi(v));
        assert(s.subrange(i, i + 1)[0] == s[i]);
        lemma_parse_enc_vbi(s, i + 1, v);
        let j = i + 1 + crate::codec::vbi_len(v);
        lemma_publish_steps_sub_ids(
            s,
            j,
            end,
            PublishProps { subscription_ids: acc.subscription_ids.push(v), ..acc },
            rest,
        );
        assert(acc.subscription_ids.push(v) + rest =~= acc.subscription_ids + ids);
        assert(parse_publish_prop_items(s, i, end, acc) == parse_publish_prop_items(
            s,
            j,
            end,
            (PublishProps { subscription_ids: acc.subscription_ids.push(v), ..acc }),
        ));
    }
}

pub open spec fn wf_publish_props(v: PublishView) -> bool {
    wf_opt_str(v.content_type) && wf_opt_str(v.response_topic) && wf_opt_data(v.correlation_data)
        && (forall|t: int| 0 <= t < v.subscription_ids.len() ==> #[trigger] v.subscription_ids[t]
        <= VBI_MAX)
}

/// The wire form of the first five Publish properties.
pub open spec fn enc_publish_items_head(v: PublishView) -> Seq<u8> {
    enc_u8_unless(PROP_PAYLOAD_FORMAT_INDICATOR, v.payload_format_indicator, 0)
        + enc_opt_u32(PROP_MESSAGE_EXPIRY_INTERVAL, v.message_expiry_interval)
        + enc_opt_data(PROP_CONTENT_TYPE, v.content_type)
        + enc_opt_data(PROP_RESPONSE_TOPIC, v.response_topic)
        + enc_opt_data(PROP_CORRELATION_DATA, v.correlation_data)
}

/// The accumulator after the first five properties of `v` are consumed.
pub open spec fn publish_acc_head(v: PublishView) -> PublishProps {
    PublishProps {
        payload_format_indicator: if v.payload_format_indicator != 0 {
            Some(v.payload_format_indicator)
        } else {
            None
        },
        message_expiry_interval: v.message_expiry_interval,
        content_type: v.content_type,
        response_topic: v.response_topic,
        correlation_data: v.correlation_data,
        subscription_ids: Seq::empty(),
        topic_alias: None,
    }
}

/// Walking the property loop over the first five encoded properties.
#[verifier::spinoff_prover]
#[verifier::rlimit(100)]
proof fn lemma_publish_chain_head(s: Seq<u8>, i: int, end: int, v: PublishView)
    requires
        wf_publish_props(v),
        0 <= i,
        i + enc_publish_items_head(v).len() <= s.len(),
        i + enc_publish_items_head(v).len() <= end,
        s.subrange(i, i + enc_publish_items_head(v).len()) == enc_publish_items_head(v),
    ensures
        parse_publish_prop_items(s, i, end, publish_props_empty()) == parse_publish_prop_items(
            s,
            i + enc_publish_items_head(v).len(),
            end,
            publish_acc_head(v),
        ),
{
    let f1 = enc_u8_unless(PROP_PAYLOAD_FORMAT_INDICATOR, v.payload_format_indicator, 0);
    let f2 = enc_opt_u32(PROP_MESSAGE_EXPIRY_INTERVAL, v.message_expiry_interval);
    let f3 = enc_opt_data(PROP_CONTENT_TYPE, v.content_type);
    let f4 = enc_opt_data(PROP_RESPONSE_TOPIC, v.response_topic);
    let f5 = enc_opt_data(PROP_CORRELATION_DATA, v.correlation_data);
    assert(enc_publish_items_head(v) =~= f1 + (f2 + (f3 + (f4 + f5))));
    lemma_subrange_split(s, i, f1, f2 + (f3 + (f4 + f5)));
    let j1 = i + f1.len();
    lemma_subrange_split(s, j1, f2, f3 + (f4 + f5));
    let j2 = j1 + f2.len();
    lemma_subrange_split(s, j2, f3, f4 + f5);
    let j3 = j2 + f3.len();
    lemma_subrange_split(s, j3, f4, f5);
    let j4 = j3 + f4.len();
    let j5 = j4 + f5.len();
    let acc0 = publish_props_empty();
    lemma_publish_step_pfi(s, i, end, acc0, v.payload_format_indicator);
    let acc1 = PublishProps {
        payload_format_indicator: publish_acc_head(v).payload_format_indicator,
        ..acc0
    };
    lemma_publish_step_mei(s, j1, end, acc1, v.message_expiry_interval);
    let acc2 = PublishProps { message_expiry_interval: v.message_expiry_interval, ..acc1 };
    lemma_publish_step_data(s, j2, end, acc2, PROP_CONTENT_TYPE, v.content_type);
    let acc3 = PublishProps { content_type: v.content_type, ..acc2 };
    lemma_publish_step_data(s, j3, end, acc3, PROP_RESPONSE_TOPIC, v.response_topic);
    let acc4 = PublishProps { response_topic: v.response_topic, ..acc3 };
    lemma_publish_step_data(s, j4, end, acc4, PROP_CORRELATION_DATA, v.correlation_data);
    assert((PublishProps { correlation_data: v.correlation_data, ..acc4 }) =~= publish_acc_head(
        v,
    ));
}

/// Parsing an encoded Publish property region yields the fields back.
#[verifier::rlimit(100)]
pub proof fn lemma_parse_enc_publish_props(s: Seq<u8>, i: int, v: PublishView)
    requires
        wf_publish_props(v),
        enc_publish_prop_items(v).len() <= VBI_MAX,
        0 <= i,
        i + enc_publish_props(v).len() <= s.len(),
        s.subrange(i, i + enc_publish_props(v).len()) == enc_publish_props(v),
    ensures
        parse_publish_props(s, i) == (Parsed::Found {
            val: publish_props_of(v),
            next: i + enc_publish_props(v).len(),
        }),
{
    let fh = enc_publish_items_head(v);
    let f6 = enc_sub_ids(v.subscription_ids);
    let f7 = enc_opt_u16(PROP_TOPIC_ALIAS, v.topic_alias);
    let items = enc_publish_prop_items(v);
    let lenb = enc_vbi(items.len() as u32);
    lemma_enc_vbi_len(items.len() as u32);
    lemma_subrange_split(s, i, lenb, items);
    lemma_parse_enc_vbi(s, i, items.len() as u32);
    let j0 = i + lenb.len();
    let end = j0 + items.len();
    assert(items =~= fh + (f6 + f7));
    lemma_subrange_split(s, j0, fh, f6 + f7);
    let j5 = j0 + fh.len();
    lemma_subrange_split(s, j5, f6, f7);
    let j6 = j5 + f6.len();
    let j7 = j6 + f7.len();
    lemma_publish_chain_head(s, j0, end, v);
    let acc5 = publish_acc_head(v);
    let acc6 = PublishProps { subscription_ids: v.subscription_ids, ..acc5 };
    lemma_publish_steps_sub_ids(s, j5, end, acc5, v.subscription_ids);
    assert(Seq::<u32>::empty() + v.subscription_ids =~= v.subscription_ids);
    assert(parse_publish_prop_items(s, j5, end, acc5) == parse_publish_prop_items(
        s,
        j6,
        end,
        acc6,
    ));
    lemma_publish_step_topic_alias(s, j6, end, acc6, v.topic_alias);
    assert((PublishProps { topic_alias: v.topic_alias, ..acc6 }) =~= publish_props_of(v));
    assert(parse_publish_prop_items(s, j7, end, publish_props_of(v)) == (Parsed::Found {
        val: publish_props_of(v),
        next: end,
    }));
}

/// Reads a Publish property region.
pub fn read_publish_props(s: &[u8], pos: usize) -> (r: Result<
    ((Option<u8>, Option<u32>, Option<Vec<u8>>, Option<Vec<u8>>, Option<Vec<u8>>, Vec<u32>, Option<
        u16,
    >), usize),
    CodecError,
>)
    requires
        pos <= s@.len(),
    ensures
        (match parse_publish_props(s@, pos as int) {
            Parsed::Found { val, next } => r matches Ok(x) && x.0.0 == val.payload_format_indicator
                && x.0.1 == val.message_expiry_interval && view_opt_bytes(x.0.2) == val.content_type
                && view_opt_bytes(x.0.3) == val.response_topic && view_opt_bytes(x.0.4)
                == val.correlation_data && x.0.5@ == val.subscription_ids && x.0.6
                == val.topic_alias && x.1 == next && pos < next <= s@.len() && next <= usize::MAX,
            Parsed::Incomplete => r matches Err(e) && e == CodecError::InsufficientBytes,
            Parsed::Malformed => r matches Err(e) && e == CodecError::MalformedBytes,
        }),
{
    let (plen, p0) = read_vbi(s, pos)?;
    let ghost end = p0 as int + plen as int;
    let mut payload_format_indicator: Option<u8> = None;
    let mut message_expiry_interval: Option<u32> = None;
    let mut content_type: Option<Vec<u8>> = None;
    let mut response_topic: Option<Vec<u8>> = None;
    let mut correlation_data: Option<Vec<u8>> = None;
    let mut subscription_ids: Vec<u32> = Vec::new();
    let mut topic_alias: Option<u16> = None;
    proof {
        assert(subscription_ids@ =~= Seq::<u32>::empty());
    }
    let mut cur: usize = p0;
    while cur - p0 < plen as usize
        invariant
            pos < p0 <= cur <= s@.len(),
            end == p0 as int + plen as int,
            parse_publish_props(s@, pos as int) == parse_publish_prop_items(
                s@,
                cur as int,
                end,
                PublishProps {
                    payload_format_indicator,
                    message_expiry_interval,
                    content_type: view_opt_bytes(content_type),
                    response_topic: view_opt_bytes(response_topic),
                    correlation_data: view_opt_bytes(correlation_data),
                    subscription_ids: subscription_ids@,
                    topic_alias,
                },
            ),
        decreases rem(cur as int, end),
    {
        let (id, p1) = read_u8(s, cur)?;
        if id == PROP_PAYLOAD_FORMAT_INDICATOR {
            let (v, p2) = read_u8(s, p1)?;
            if payload_format_indicator.is_some() {
                return Err(CodecError::MalformedBytes);
            }
            payload_format_indicator = Some(v);
            cur = p2;
        } else if id == PROP_MESSAGE_EXPIRY_INTERVAL {
            let (v, p2) = read_u32(s, p1)?;
            if message_expiry_interval.is_some() {
                return Err(CodecError::MalformedBytes);
            }
            message_expiry_interval = Some(v);
            cur = p2;
        } else if id == PROP_CONTENT_TYPE {
            let (v, p2) = read_str(s, p1)?;
            if content_type.is_some() {
                return Err(CodecError::MalformedBytes);
            }
            content_type = Some(v);
            cur = p2;
        } else if id == PROP_RESPONSE_TOPIC {
            let (v, p2) = read_str(s, p1)?;
            if response_topic.is_some() {
                return Err(CodecError::MalformedBytes);
            }
            response_topic = Some(v);
            cur = p2;
        } else if id == PROP_CORRELATION_DATA {
            let (v, p2) = read_data(s, p1)?;
            if correlation_data.is_some() {
                return Err(CodecError::MalformedBytes);
            }
            correlation_data = Some(v);
            cur = p2;
        } else if id == PROP_SUBSCRIPTION_ID {
            let (v, p2) = read_vbi(s, p1)?;
            subscription_ids.push(v);
            cur = p2;
        } else if id == PROP_TOPIC_ALIAS {
            let (v, p2) = read_u16(s, p1)?;
            if topic_alias.is_some() {
                return Err(CodecError::MalformedBytes);
            }
            topic_alias = Some(v);
            cur = p2;
        } else {
            return Err(CodecError::MalformedBytes);
        }
    }
    Ok(
        (
            (
                payload_format_indicator,
                message_expiry_interval,
                content_type,
                response_topic,
                correlation_data,
                subscription_ids,
                topic_alias,
            ),
            cur,
        ),
    )
}

/// The fixed-header flags nibble of a Publish packet.
pub open spec fn publish_flags(v: PublishView) -> u8 {
    ((if v.duplicate {
        8u8
    } else {
        0u8
    }) + v.qos.as_byte() * 2 + (if v.retain {
        1u8
    } else {
        0u8
    })) as u8
}

/// The topic and the conditional packet identifier of a Publish packet.
pub open spec fn parse_publish_topic_pid(s: Seq<u8>, i: int, qos: QoS) -> Parsed<
    (Seq<u8>, Option<u16>),
> {
    match parse_str(s, i) {
        Parsed::Found { val: topic, next: j } => {
            if qos != QoS::AtMostOnce {
                match parse_u16(s, j) {
                    Parsed::Found { val: p, next: k } => Parsed::Found {
                        val: (topic, Some(p)),
                        next: k,
                    },
                    _ => Parsed::Incomplete,
                }
            } else {
                Parsed::Found { val: (topic, None), next: j }
            }
        },
        Parsed::Incomplete => Parsed::Incomplete,
        Parsed::Malformed => Parsed::Malformed,
    }
}

/// The variable header and payload of a Publish packet.  The flags nibble
/// carries the duplicate, QoS and retain bits.
pub open spec fn parse_publish(s: Seq<u8>, i: int, flags: u8, rl: u32) -> Parsed<PublishView> {
    match QoS::spec_from(((flags as int / 2) % 4) as u8) {
        Some(qos) => {
            match parse_publish_topic_pid(s, i, qos) {
                Parsed::Found { val: tp, next: k } => {
                    let topic = tp.0;
                    let packet_id = tp.1;
                    {
                            match parse_publish_props(s, k) {
                                Parsed::Found { val: p, next: m } => {
                                    if m - i > rl {
                                        Parsed::Malformed
                                    } else if i + rl > s.len() {
                                        Parsed::Incomplete
                                    } else {
                                        Parsed::Found {
                                            val: PublishView {
                                                topic,
                                                payload: Some(s.subrange(m, i + rl)),
                                                qos,
                                                retain: flags as int % 2 == 1,
                                                packet_id,
                                                duplicate: (flags as int / 8) % 2 == 1,
                                                payload_format_indicator: match p
                                                    .payload_format_indicator {
                                                    Some(x) => x,
                                                    None => 0,
                                                },
                                                message_expiry_interval: p.message_expiry_interval,
                                                content_type: p.content_type,
                                                response_topic: p.response_topic,
                                                correlation_data: p.correlation_data,
                                                subscription_ids: p.subscription_ids,
                                                topic_alias: p.topic_alias,
                                            },
                                            next: i + rl,
                                        }
                                    }
                                },
                                Parsed::Incomplete => Parsed::Incomplete,
                                Parsed::Malformed => Parsed::Malformed,
                            }
                        }
                },
                Parsed::Incomplete => Parsed::Incomplete,
                Parsed::Malformed => Parsed::Malformed,
            }
        },
        None => Parsed::Malformed,
    }
}

/// The flags nibble of a Publish packet decodes back to its components.
pub proof fn lemma_publish_flags_roundtrip(v: PublishView)
    ensures
        QoS::spec_from(((publish_flags(v) as int / 2) % 4) as u8) == Some(v.qos),
        publish_flags(v) as int % 2 == (if v.retain {
            1int
        } else {
            0int
        }),
        (publish_flags(v) as int / 8) % 2 == (if v.duplicate {
            1int
        } else {
            0int
        }),
{
    assert(v.qos.as_byte() <= 2);
    assert((publish_flags(v) as int / 2) % 4 == v.qos.as_byte());
    v.qos.lemma_round();
}

/// Parsing the encoded topic and packet identifier yields them back.
proof fn lemma_parse_enc_topic_pid(s: Seq<u8>, i: int, v: PublishView)
    requires
        v.wf(),
        0 <= i,
        i + 2 + v.topic.len() + pid_len(v) <= s.len(),
        s.subrange(i, i + 2 + v.topic.len() + pid_len(v)) == enc_data(v.topic) + (match v
            .packet_id {
            Some(p) => enc_u16(p),
            None => Seq::<u8>::empty(),
        }),
    ensures
        parse_publish_topic_pid(s, i, v.qos) == (Parsed::Found {
            val: (v.topic, v.packet_id),
            next: i + 2 + v.topic.len() + pid_len(v),
        }),
{
    let b: Seq<u8> = match v.packet_id {
        Some(p) => enc_u16(p),
        None => Seq::empty(),
    };
    lemma_subrange_split(s, i, enc_data(v.topic), b);
    lemma_parse_enc_str(s, i, v.topic);
    if v.packet_id is Some {
        lemma_parse_enc_u16(s, i + 2 + v.topic.len(), v.packet_id.unwrap());
    }
}

/// The bytes the packet identifier occupies.
pub open spec fn pid_len(v: PublishView) -> int {
    match v.packet_id {
        Some(p) => 2,
        None => 0,
    }
}

impl PublishView {
    pub open spec fn wf(self) -> bool {
        wf_str(self.topic) && wf_publish_props(self) && (self.packet_id is Some <==> self.qos
            != QoS::AtMostOnce) && self.body().len() <= VBI_MAX
    }

    pub open spec fn payload_bytes(self) -> Seq<u8> {
        match self.payload {
            Some(p) => p,
            None => Seq::empty(),
        }
    }

    /// Everything after the fixed header.
    pub open spec fn body(self) -> Seq<u8> {
        enc_data(self.topic) + (match self.packet_id {
            Some(p) => enc_u16(p),
            None => Seq::empty(),
        }) + enc_publish_props(self) + self.payload_bytes()
    }

    /// The complete wire form.
    pub open spec fn bytes(self) -> Seq<u8> {
        seq![(0x30u8 + publish_flags(self)) as u8] + enc_vbi(self.body().len() as u32)
            + self.body()
    }
}

impl PublishPacket {
    /// Validated construction: the packet identifier must be present exactly
    /// when the QoS is above AtMostOnce.
    pub fn new(
        topic: Vec<u8>,
        payload: Option<Vec<u8>>,
        qos: QoS,
        retain: bool,
        packet_id: Option<u16>,
        duplicate: bool,
        payload_format_indicator: u8,
        message_expiry_interval: Option<u32>,
        content_type: Option<Vec<u8>>,
        response_topic: Option<Vec<u8>>,
        correlation_data: Option<Vec<u8>>,
        subscription_ids: Vec<u32>,
        topic_alias: Option<u16>,
    ) -> (r: Result<PublishPacket, CodecError>)
        ensures
            (packet_id is Some && qos == QoS::AtMostOnce) ==> r == Err::<PublishPacket, CodecError>(
                CodecError::MalformedBytes,
            ),
            (packet_id is None && qos != QoS::AtMostOnce) ==> r == Err::<PublishPacket, CodecError>(
                CodecError::MalformedBytes,
            ),
            (packet_id is Some <==> qos != QoS::AtMostOnce) ==> (r matches Ok(p) && p@
                == (PublishView {
                topic: topic@,
                payload: view_opt_bytes(payload),
                qos,
                retain,
                packet_id,
                duplicate,
                payload_format_indicator,
                message_expiry_interval,
                content_type: view_opt_bytes(content_type),
                response_topic: view_opt_bytes(response_topic),
                correlation_data: view_opt_bytes(correlation_data),
                subscription_ids: subscription_ids@,
                topic_alias,
            })),
    {
        if packet_id.is_some() && matches!(qos, QoS::AtMostOnce) {
            return Err(CodecError::MalformedBytes);
        }
        if packet_id.is_none() && !matches!(qos, QoS::AtMostOnce) {
            return Err(CodecError::MalformedBytes);
        }
        Ok(
            PublishPacket {
                topic,
                payload,
                qos,
                retain,
                packet_id,
                duplicate,
                payload_format_indicator,
                message_expiry_interval,
                content_type,
                response_topic,
                correlation_data,
                subscription_ids,
                topic_alias,
            },
        )
    }

    /// Reads the variable header and payload, the cursor standing after the
    /// fixed header.
    pub fn read(s: &[u8], pos: usize, flags: u8, remaining_length: u32) -> (r: Result<
        (PublishPacket, usize),
        CodecError,
    >)
        requires
            pos <= s@.len(),
        ensures
            (match parse_publish(s@, pos as int, flags, remaining_length) {
                Parsed::Found { val, next } => r matches Ok(x) && x.0@ == val && x.1 == next
                    && pos <= next <= s@.len() && next <= usize::MAX,
                Parsed::Incomplete => r matches Err(e) && e == CodecError::InsufficientBytes,
                Parsed::Malformed => r matches Err(e) && e == CodecError::MalformedBytes,
            }),
    {
        // Binding the length teaches the prover that positions fit in usize.
        let s_len: usize = s.len();
        let qos = QoS::new((flags / 2) % 4)?;
        let (topic, p1) = read_str(s, pos)?;
        let (packet_id, p2) = if !matches!(qos, QoS::AtMostOnce) {
            let (p, k) = read_u16(s, p1)?;
            (Some(p), k)
        } else {
            (None, p1)
        };
        let (
            (
                payload_format_indicator,
                message_expiry_interval,
                content_type,
                response_topic,
                correlation_data,
                subscription_ids,
                topic_alias,
            ),
            p3,
        ) = read_publish_props(s, p2)?;
        if p3 - pos > remaining_length as usize {
            return Err(CodecError::MalformedBytes);
        }
        let payload_len = remaining_length as usize - (p3 - pos);
        if s_len - p3 < payload_len {
            return Err(CodecError::InsufficientBytes);
        }
        let part = vstd::slice::slice_subrange(s, p3, p3 + payload_len);
        let payload = vstd::slice::slice_to_vec(part);
        let pfi = match payload_format_indicator {
            Some(x) => x,
            None => 0,
        };
        Ok(
            (
                PublishPacket {
                    topic,
                    payload: Some(payload),
                    qos,
                    retain: flags % 2 == 1,
                    packet_id,
                    duplicate: (flags / 8) % 2 == 1,
                    payload_format_indicator: pfi,
                    message_expiry_interval,
                    content_type,
                    response_topic,
                    correlation_data,
                    subscription_ids,
                    topic_alias,
                },
                p3 + payload_len,
            ),
        )
    }

    /// Serializes the packet into `buffer` at `index`; fails, touching
    /// nothing, exactly when the buffer is too short.
    #[verifier::spinoff_prover]
    #[verifier::rlimit(100)]
    pub fn write(&self, buffer: &mut Vec<u8>, index: usize) -> (r: Result<usize, CodecError>)
        requires
            self@.wf(),
            index <= old(buffer)@.len(),
        ensures
            (match r {
                Ok(n) => n == self@.bytes().len() && old(buffer)@.len() >= index
                    + self@.bytes().len() && final(buffer)@ == spliced(
                    old(buffer)@,
                    index as int,
                    self@.bytes(),
                ) && final(buffer)@.len() == old(buffer)@.len(),
                Err(e) => e == CodecError::InsufficientBytes && final(buffer)@ == old(buffer)@
                    && old(buffer)@.len() < index + self@.bytes().len(),
            }),
    {
        let props_nbytes = publish_props_size(self);
        let pid_nbytes: usize = if self.packet_id.is_some() {
            2
        } else {
            0
        };
        let payload_nbytes: usize = match &self.payload {
            Some(p) => p.len(),
            None => 0,
        };
        let nbytes = 2 + self.topic.len() + pid_nbytes + props_nbytes + payload_nbytes;
        proof {
            assert(nbytes == self@.body().len());
            lemma_enc_vbi_len(nbytes as u32);
        }
        let rl_size = vbi_size(nbytes as u32);
        let total = 1 + rl_size + nbytes;
        if buffer.len() - index < total {
            return Err(CodecError::InsufficientBytes);
        }
        let mut first: u8 = 0x30;
        if self.duplicate {
            first = first + 8;
        }
        proof {
            assert(self@.qos.as_byte() <= 2);
        }
        first = first + self.qos.value() * 2;
        if self.retain {
            first = first + 1;
        }
        proof {
            assert(first == 0x30u8 + publish_flags(self@));
        }
        write_u8(buffer, index, first);
        proof {
            lemma_spliced_concat(
                old(buffer)@,
                index as int,
                seq![(0x30u8 + publish_flags(self@)) as u8],
                enc_vbi(nbytes as u32),
            );
        }
        write_vbi(buffer, index + 1, nbytes as u32);
        let ghost done = seq![(0x30u8 + publish_flags(self@)) as u8] + enc_vbi(nbytes as u32);
        proof {
            lemma_spliced_concat(old(buffer)@, index as int, done, enc_data(self@.topic));
        }
        write_data(buffer, index + 1 + rl_size, self.topic.as_slice());
        let ghost done = done + enc_data(self@.topic);
        let mut w = 1 + rl_size + 2 + self.topic.len();
        if let Some(p) = self.packet_id {
            proof {
                lemma_spliced_concat(old(buffer)@, index as int, done, enc_u16(p));
            }
            write_u16(buffer, index + w, p);
            w = w + 2;
        }
        let ghost done = done + (match self@.packet_id {
            Some(p) => enc_u16(p),
            None => Seq::<u8>::empty(),
        });
        proof {
            if self@.packet_id is None {
                assert(done =~= seq![(0x30u8 + publish_flags(self@)) as u8] + enc_vbi(
                    nbytes as u32,
                ) + enc_data(self@.topic));
            }
            assert(buffer@ == spliced(old(buffer)@, index as int, done));
            assert(w == done.len() - 1 - rl_size + 1 + rl_size);
            assert(index + w == index as int + done.len());
            lemma_spliced_concat(old(buffer)@, index as int, done, enc_publish_props(self@));
        }
        write_publish_props(buffer, index + w, self);
        let ghost done2 = done + enc_publish_props(self@);
        w = w + props_nbytes;
        if let Some(p) = &self.payload {
            proof {
                lemma_spliced_concat(old(buffer)@, index as int, done2, p@);
            }
            write_bytes(buffer, index + w, p.as_slice());
        }
        let ghost done3 = done2 + self@.payload_bytes();
        proof {
            if self@.payload is None {
                assert(self@.payload_bytes() =~= Seq::<u8>::empty());
                assert(done3 =~= done2);
            }
            assert(buffer@ == spliced(old(buffer)@, index as int, done3));
            assert(done3 =~= self@.bytes());
        }
        Ok(total)
    }
}

/// Number of bytes of the encoded Publish property items, without the
/// length prefix.
#[verifier::spinoff_prover]
#[verifier::rlimit(100)]
pub fn publish_prop_items_size(p: &PublishPacket) -> (n: usize)
    requires
        p@.wf(),
    ensures
        n == enc_publish_prop_items(p@).len(),
{
    proof {
        assert(enc_sub_ids(p@.subscription_ids).len() <= enc_publish_prop_items(p@).len());
        assert(enc_publish_prop_items(p@).len() <= p@.body().len());
    }
    let mut items_len: usize = 0;
    if p.payload_format_indicator != 0 {
        items_len = items_len + 2;
    }
    if p.message_expiry_interval.is_some() {
        items_len = items_len + 5;
    }
    if let Some(v) = &p.content_type {
        items_len = items_len + 3 + v.len();
    }
    if let Some(v) = &p.response_topic {
        items_len = items_len + 3 + v.len();
    }
    if let Some(v) = &p.correlation_data {
        items_len = items_len + 3 + v.len();
    }
    let ids_len = sub_ids_size(&p.subscription_ids);
    items_len = items_len + ids_len;
    if p.topic_alias.is_some() {
        items_len = items_len + 3;
    }
    proof {
        assert(items_len == enc_publish_prop_items(p@).len());
    }
    items_len
}

/// Number of bytes of the encoded Publish property region.
pub fn publish_props_size(p: &PublishPacket) -> (n: usize)
    requires
        p@.wf(),
    ensures
        n == enc_publish_props(p@).len(),
{
    let items_len = publish_prop_items_size(p);
    proof {
        lemma_enc_vbi_len(enc_publish_prop_items(p@).len() as u32);
    }
    vbi_size(items_len as u32) + items_len
}

/// Number of bytes of the encoded subscription identifiers.
pub fn sub_ids_size(ids: &Vec<u32>) -> (n: usize)
    requires
        forall|t: int| 0 <= t < ids@.len() ==> #[trigger] ids@[t] <= VBI_MAX,
        enc_sub_ids(ids@).len() <= VBI_MAX,
    ensures
        n == enc_sub_ids(ids@).len(),
{
    let ghost idsv = ids@;
    let mut k: usize = 0;
    let mut ids_len: usize = 0;
    while k < ids.len()
        invariant
            k <= idsv.len(),
            idsv == ids@,
            forall|t: int| 0 <= t < idsv.len() ==> #[trigger] idsv[t] <= VBI_MAX,
            enc_sub_ids(idsv).len() <= VBI_MAX,
            ids_len == enc_sub_ids(idsv.subrange(0, k as int)).len(),
            ids_len <= enc_sub_ids(idsv).len(),
        decreases idsv.len() - k,
    {
        proof {
            let part = idsv.subrange(0, k as int);
            lemma_enc_sub_ids_snoc(part, idsv[k as int]);
            assert(idsv.subrange(0, k + 1 as int) =~= part.push(idsv[k as int]));
            lemma_enc_sub_ids_concat(idsv.subrange(0, k + 1 as int), idsv.skip(k + 1 as int));
            assert(idsv.subrange(0, k + 1 as int) + idsv.skip(k + 1 as int) =~= idsv);
            assert(enc_sub_ids(idsv.subrange(0, k + 1 as int)).len() <= enc_sub_ids(idsv).len());
            lemma_enc_vbi_len(idsv[k as int]);
        }
        ids_len = ids_len + 1 + vbi_size(ids[k]);
        k = k + 1;
    }
    proof {
        assert(idsv.subrange(0, idsv.len() as int) =~= idsv);
    }
    ids_len
}

/// Writes the subscription identifiers, one property each.
#[verifier::spinoff_prover]
#[verifier::rlimit(100)]
pub fn write_sub_ids(buf: &mut Vec<u8>, pos: usize, ids: &Vec<u32>)
    requires
        forall|t: int| 0 <= t < ids@.len() ==> #[trigger] ids@[t] <= VBI_MAX,
        enc_sub_ids(ids@).len() <= VBI_MAX,
        pos + enc_sub_ids(ids@).len() <= old(buf)@.len(),
    ensures
        final(buf)@ == spliced(old(buf)@, pos as int, enc_sub_ids(ids@)),
        final(buf)@.len() == old(buf)@.len(),
{
    // Binding the length teaches the prover that positions fit in usize.
    let buf_len: usize = buf.len();
    let ghost idsv = ids@;
    let mut k: usize = 0;
    let mut w: usize = 0;
    proof {
        assert(enc_sub_ids(idsv.subrange(0, 0)) =~= Seq::<u8>::empty());
        crate::codec::lemma_spliced_empty(old(buf)@, pos as int);
    }
    while k < ids.len()
        invariant
            k <= idsv.len(),
            idsv == ids@,
            forall|t: int| 0 <= t < idsv.len() ==> #[trigger] idsv[t] <= VBI_MAX,
            w == enc_sub_ids(idsv.subrange(0, k as int)).len(),
            pos + enc_sub_ids(idsv).len() <= buf@.len(),
            buf@.len() <= usize::MAX,
            buf@.len() == old(buf)@.len(),
            buf@ == spliced(old(buf)@, pos as int, enc_sub_ids(idsv.subrange(0, k as int))),
        decreases idsv.len() - k,
    {
        let ghost part = idsv.subrange(0, k as int);
        proof {
            lemma_enc_sub_ids_concat(part, idsv.skip(k as int));
            assert(part + idsv.skip(k as int) =~= idsv);
            assert(idsv.skip(k as int)[0] == idsv[k as int]);
            lemma_enc_vbi_len(idsv[k as int]);
            assert(enc_sub_ids(idsv.skip(k as int)).len() >= 1 + enc_vbi(idsv[k as int]).len());
            assert(enc_sub_ids(part).len() + 1 + enc_vbi(idsv[k as int]).len() <= enc_sub_ids(
                idsv,
            ).len());
            lemma_spliced_concat(
                old(buf)@,
                pos as int,
                enc_sub_ids(part),
                seq![PROP_SUBSCRIPTION_ID] + enc_vbi(idsv[k as int]),
            );
        }
        let id_val = ids[k];
        write_prop_vbi(buf, pos + w, PROP_SUBSCRIPTION_ID, id_val);
        proof {
            lemma_enc_sub_ids_snoc(part, idsv[k as int]);
            assert(idsv.subrange(0, k + 1 as int) =~= part.push(idsv[k as int]));
            assert(enc_sub_ids(part) + (seq![PROP_SUBSCRIPTION_ID] + enc_vbi(idsv[k as int]))
                =~= enc_sub_ids(idsv.subrange(0, k + 1 as int)));
        }
        w = w + 1 + vbi_size(id_val);
        k = k + 1;
    }
    proof {
        assert(idsv.subrange(0, idsv.len() as int) =~= idsv);
    }
}

/// The length prefix and the first five properties of the region.
pub open spec fn enc_publish_props_head(v: PublishView) -> Seq<u8> {
    enc_vbi(enc_publish_prop_items(v).len() as u32) + enc_u8_unless(
        PROP_PAYLOAD_FORMAT_INDICATOR,
        v.payload_format_indicator,
        0,
    ) + enc_opt_u32(PROP_MESSAGE_EXPIRY_INTERVAL, v.message_expiry_interval) + enc_opt_data(
        PROP_CONTENT_TYPE,
        v.content_type,
    ) + enc_opt_data(PROP_RESPONSE_TOPIC, v.response_topic) + enc_opt_data(
        PROP_CORRELATION_DATA,
        v.correlation_data,
    )
}

/// Writes the length prefix and the first five properties.
#[verifier::spinoff_prover]
#[verifier::rlimit(100)]
fn write_publish_props_head(buf: &mut Vec<u8>, pos: usize, p: &PublishPacket, items_len: usize) -> (n:
    usize)
    requires
        p@.wf(),
        items_len == enc_publish_prop_items(p@).len(),
        items_len <= VBI_MAX,
        pos + enc_publish_props_head(p@).len() <= old(buf)@.len(),
    ensures
        final(buf)@ == spliced(old(buf)@, pos as int, enc_publish_props_head(p@)),
        final(buf)@.len() == old(buf)@.len(),
        n == enc_publish_props_head(p@).len(),
{
    let ghost v = p@;
    // Binding the length teaches the prover that positions fit in usize.
    let buf_len: usize = buf.len();
    proof {
        lemma_enc_vbi_len(items_len as u32);
    }
    let mut w = write_vbi(buf, pos, items_len as u32);
    let ghost done = enc_vbi(items_len as u32);
    if p.payload_format_indicator != 0 {
        proof {
            lemma_spliced_concat(
                old(buf)@,
                pos as int,
                done,
                seq![PROP_PAYLOAD_FORMAT_INDICATOR, v.payload_format_indicator],
            );
        }
        write_prop_u8(buf, pos + w, PROP_PAYLOAD_FORMAT_INDICATOR, p.payload_format_indicator);
        w = w + 2;
    }
    let ghost done = done + enc_u8_unless(
        PROP_PAYLOAD_FORMAT_INDICATOR,
        v.payload_format_indicator,
        0,
    );
    proof {
        if v.payload_format_indicator == 0 {
            assert(done =~= enc_vbi(items_len as u32));
        }
        assert(buf@ == spliced(old(buf)@, pos as int, done));
        assert(w == done.len());
    }
    if let Some(x) = p.message_expiry_interval {
        proof {
            lemma_spliced_concat(
                old(buf)@,
                pos as int,
                done,
                seq![PROP_MESSAGE_EXPIRY_INTERVAL] + crate::codec::enc_u32(x),
            );
        }
        write_prop_u32(buf, pos + w, PROP_MESSAGE_EXPIRY_INTERVAL, x);
        w = w + 5;
    }
    let ghost done2 = done + enc_opt_u32(PROP_MESSAGE_EXPIRY_INTERVAL, v.message_expiry_interval);
    proof {
        if v.message_expiry_interval is None {
            assert(done2 =~= done);
        }
        assert(buf@ == spliced(old(buf)@, pos as int, done2));
        assert(w == done2.len());
    }
    if let Some(x) = &p.content_type {
        proof {
            lemma_spliced_concat(
                old(buf)@,
                pos as int,
                done2,
                seq![PROP_CONTENT_TYPE] + enc_data(x@),
            );
        }
        write_prop_data(buf, pos + w, PROP_CONTENT_TYPE, x.as_slice());
        w = w + 3 + x.len();
    }
    let ghost done3 = done2 + enc_opt_data(PROP_CONTENT_TYPE, v.content_type);
    proof {
        if v.content_type is None {
            assert(done3 =~= done2);
        }
        assert(buf@ == spliced(old(buf)@, pos as int, done3));
        assert(w == done3.len());
    }
    if let Some(x) = &p.response_topic {
        proof {
            lemma_spliced_concat(
                old(buf)@,
                pos as int,
                done3,
                seq![PROP_RESPONSE_TOPIC] + enc_data(x@),
            );
        }
        write_prop_data(buf, pos + w, PROP_RESPONSE_TOPIC, x.as_slice());
        w = w + 3 + x.len();
    }
    let ghost done4 = done3 + enc_opt_data(PROP_RESPONSE_TOPIC, v.response_topic);
    proof {
        if v.response_topic is None {
            assert(done4 =~= done3);
        }
        assert(buf@ == spliced(old(buf)@, pos as int, done4));
        assert(w == done4.len());
    }
    if let Some(x) = &p.correlation_data {
        proof {
            lemma_spliced_concat(
                old(buf)@,
                pos as int,
                done4,
                seq![PROP_CORRELATION_DATA] + enc_data(x@),
            );
        }
        write_prop_data(buf, pos + w, PROP_CORRELATION_DATA, x.as_slice());
        w = w + 3 + x.len();
    }
    let ghost done5 = done4 + enc_opt_data(PROP_CORRELATION_DATA, v.correlation_data);
    proof {
        if v.correlation_data is None {
            assert(done5 =~= done4);
        }
        assert(buf@ == spliced(old(buf)@, pos as int, done5));
        assert(w == done5.len());
        assert(done5 =~= enc_publish_props_head(v));
    }
    w
}

/// Writes a Publish property region.
#[verifier::spinoff_prover]
#[verifier::rlimit(100)]
pub fn write_publish_props(buf: &mut Vec<u8>, pos: usize, p: &PublishPacket)
    requires
        p@.wf(),
        pos + enc_publish_props(p@).len() <= old(buf)@.len(),
    ensures
        final(buf)@ == spliced(old(buf)@, pos as int, enc_publish_props(p@)),
        final(buf)@.len() == old(buf)@.len(),
{
    let ghost v = p@;
    // Binding the length teaches the prover that positions fit in usize.
    let buf_len: usize = buf.len();
    proof {
        assert(enc_publish_prop_items(v).len() <= v.body().len());
        assert(enc_publish_props(v) =~= enc_publish_props_head(v) + (enc_sub_ids(
            v.subscription_ids,
        ) + enc_opt_u16(PROP_TOPIC_ALIAS, v.topic_alias)));
    }
    let items_len = publish_prop_items_size(p);
    let mut w = write_publish_props_head(buf, pos, p, items_len);
    let ghost done = enc_publish_props_head(v);
    proof {
        assert(enc_sub_ids(v.subscription_ids).len() <= enc_publish_prop_items(v).len());
        lemma_spliced_concat(old(buf)@, pos as int, done, enc_sub_ids(v.subscription_ids));
    }
    write_sub_ids(buf, pos + w, &p.subscription_ids);
    w = w + sub_ids_size(&p.subscription_ids);
    let ghost done = done + enc_sub_ids(v.subscription_ids);
    proof {
        assert(buf@ == spliced(old(buf)@, pos as int, done));
        assert(w == done.len());
    }
    if let Some(x) = p.topic_alias {
        proof {
            lemma_spliced_concat(old(buf)@, pos as int, done, seq![PROP_TOPIC_ALIAS] + enc_u16(x));
        }
        write_prop_u16(buf, pos + w, PROP_TOPIC_ALIAS, x);
        w = w + 3;
    }
    let ghost done2 = done + enc_opt_u16(PROP_TOPIC_ALIAS, v.topic_alias);
    proof {
        if v.topic_alias is None {
            assert(done2 =~= done);
        }
        assert(buf@ == spliced(old(buf)@, pos as int, done2));
        assert(done2 =~= enc_publish_props(v));
    }
}

/// Parsing an encoded Publish body yields the packet back, for a packet
/// whose payload is present (an absent payload encodes as an empty one).
#[verifier::spinoff_prover]
#[verifier::rlimit(100)]
pub proof fn lemma_parse_enc_publish(s: Seq<u8>, i: int, v: PublishView)
    requires
        v.wf(),
        v.payload is Some,
        0 <= i,
        i + v.body().len() <= s.len(),
        s.subrange(i, i + v.body().len()) == v.body(),
    ensures
        parse_publish(s, i, publish_flags(v), v.body().len() as u32) == (Parsed::Found {
            val: v,
            next: i + v.body().len(),
        }),
{
    let a = enc_data(v.topic);
    let b: Seq<u8> = match v.packet_id {
        Some(p) => enc_u16(p),
        None => Seq::empty(),
    };
    let c = enc_publish_props(v);
    let d = v.payload_bytes();
    let rl = v.body().len();
    assert(enc_publish_prop_items(v).len() <= v.body().len());
    lemma_enc_vbi_len(enc_publish_prop_items(v).len() as u32);
    lemma_publish_flags_roundtrip(v);
    assert(v.body() =~= (a + b) + (c + d));
    lemma_subrange_split(s, i, a + b, c + d);
    lemma_parse_enc_topic_pid(s, i, v);
    let k = i + a.len() + b.len();
    lemma_subrange_split(s, k, c, d);
    lemma_parse_enc_publish_props(s, k, v);
    let m = k + c.len();
    assert(s.subrange(m, i + rl) == d);
    assert(m - i <= rl);
    assert(i + rl <= s.len());
    assert(v.payload == Some(s.subrange(m, i + rl)));
}

} // verus!
