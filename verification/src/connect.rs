//! The Connect packet: the first packet of a session.  It validates the
//! protocol name and version, carries a connect-flags byte governing the
//! optional will, username and password sections, a keep-alive interval, a
//! property set, and a payload holding the client identifier, the optional
//! will with its own property set, and the optional credentials.

use crate::codec::{
    enc_data, enc_u16, enc_u8, enc_vbi, lemma_enc_vbi_len, lemma_parse_enc_data,
    lemma_parse_enc_str, lemma_parse_enc_u16, lemma_parse_enc_u32, lemma_parse_enc_vbi,
    lemma_spliced_concat, lemma_subrange_split, parse_bool, parse_data, parse_str, parse_u16,
    parse_u32, parse_u8, parse_vbi, read_bool, read_data, read_str, read_u16, read_u32, read_u8,
    read_vbi, rem, spliced, vbi_size, view_opt_bytes, wf_opt_data, wf_opt_str, wf_str, write_data,
    write_u16, write_u8, write_vbi, CodecError, Parsed, VBI_MAX,
};
use crate::props::{
    enc_opt_bool, enc_opt_data, enc_opt_u16, enc_opt_u32, enc_opt_u8p, write_prop_bool,
    write_prop_data, write_prop_u16, write_prop_u32, write_prop_u8, PROP_AUTHENTICATION_DATA,
    PROP_AUTHENTICATION_METHOD, PROP_CONTENT_TYPE, PROP_CORRELATION_DATA,
    PROP_MAXIMUM_PACKET_SIZE, PROP_MESSAGE_EXPIRY_INTERVAL, PROP_PAYLOAD_FORMAT_INDICATOR,
    PROP_RECEIVE_MAXIMUM, PROP_REQUEST_PROBLEM_INFORMATION, PROP_REQUEST_RESPONSE_INFORMATION,
    PROP_RESPONSE_TOPIC, PROP_SESSION_EXPIRY_INTERVAL, PROP_TOPIC_ALIAS_MAXIMUM,
    PROP_WILL_DELAY_INTERVAL,
};
use crate::types::QoS;
use vstd::prelude::*;

verus! {

/// The last-will-and-testament message of a Connect packet.
#[derive(Clone, Debug, PartialEq, Eq)]
pub struct Will {
    pub topic: Vec<u8>,
    pub payload: Option<Vec<u8>>,
    pub qos: QoS,
    pub retain: bool,
    pub payload_format_indicator: u8,
    pub message_expiry_interval: Option<u32>,
    pub content_type: Option<Vec<u8>>,
    pub response_topic: Option<Vec<u8>>,
    pub correlation_data: Option<Vec<u8>>,
    pub will_delay_interval: u32,
}

/// The mathematical value of a Will.
#[verifier::ext_equal]
pub ghost struct WillView {
    pub topic: Seq<u8>,
    pub payload: Option<Seq<u8>>,
    pub qos: QoS,
    pub retain: bool,
    pub payload_format_indicator: u8,
    pub message_expiry_interval: Option<u32>,
    pub content_type: Option<Seq<u8>>,
    pub response_topic: Option<Seq<u8>>,
    pub correlation_data: Option<Seq<u8>>,
    pub will_delay_interval: u32,
}

impl View for Will {
    type V = WillView;

    open spec fn view(&self) -> WillView {
        WillView {
            topic: self.topic@,
            payload: view_opt_bytes(self.payload),
            qos: self.qos,
            retain: self.retain,
            payload_format_indicator: self.payload_format_indicator,
            message_expiry_interval: self.message_expiry_interval,
            content_type: view_opt_bytes(self.content_type),
            response_topic: view_opt_bytes(self.response_topic),
            correlation_data: view_opt_bytes(self.correlation_data),
            will_delay_interval: self.will_delay_interval,
        }
    }
}

/// A connection request.
#[derive(Clone, Debug, PartialEq, Eq)]
pub struct ConnectPacket {
    pub client_id: Vec<u8>,
    pub username: Option<Vec<u8>>,
    pub password: Option<Vec<u8>>,
    pub clean_start: bool,
    pub will: Option<Will>,
    pub keep_alive: u16,
    pub session_expiry_interval: u32,
    pub authentication_method: Option<Vec<u8>>,
    pub authentication_data: Option<Vec<u8>>,
    pub request_problem_information: bool,
    pub request_response_information: bool,
    pub receive_maximum: u16,
    pub topic_alias_maximum: u16,
    pub maximum_packet_size: Option<u32>,
}

/// The mathematical value of a Connect packet.
#[verifier::ext_equal]
pub ghost struct ConnectView {
    pub client_id: Seq<u8>,
    pub username: Option<Seq<u8>>,
    pub password: Option<Seq<u8>>,
    pub clean_start: bool,
    pub will: Option<WillView>,
    pub keep_alive: u16,
    pub session_expiry_interval: u32,
    pub authentication_method: Option<Seq<u8>>,
    pub authentication_data: Option<Seq<u8>>,
    pub request_problem_information: bool,
    pub request_response_information: bool,
    pub receive_maximum: u16,
    pub topic_alias_maximum: u16,
    pub maximum_packet_size: Option<u32>,
}

impl View for ConnectPacket {
    type V = ConnectView;

    open spec fn view(&self) -> ConnectView {
        ConnectView {
            client_id: self.client_id@,
            username: view_opt_bytes(self.username),
            password: view_opt_bytes(self.password),
            clean_start: self.clean_start,
            will: match self.will {
                Some(w) => Some(w@),
                None => None,
            },
            keep_alive: self.keep_alive,
            session_expiry_interval: self.session_expiry_interval,
            authentication_method: view_opt_bytes(self.authentication_method),
            authentication_data: view_opt_bytes(self.authentication_data),
            request_problem_information: self.request_problem_information,
            request_response_information: self.request_response_information,
            receive_maximum: self.receive_maximum,
            topic_alias_maximum: self.topic_alias_maximum,
            maximum_packet_size: self.maximum_packet_size,
        }
    }
}

/// The property fields of a Connect packet, while being accumulated.
#[verifier::ext_equal]
pub ghost struct ConnectProps {
    pub session_expiry_interval: Option<u32>,
    pub authentication_method: Option<Seq<u8>>,
    pub authentication_data: Option<Seq<u8>>,
    pub request_problem_information: Option<bool>,
    pub request_response_information: Option<bool>,
    pub receive_maximum: Option<u16>,
    pub topic_alias_maximum: Option<u16>,
    pub maximum_packet_size: Option<u32>,
}

pub open spec fn connect_props_none() -> ConnectProps {
    ConnectProps {
        session_expiry_interval: None,
        authentication_method: None,
        authentication_data: None,
        request_problem_information: None,
        request_response_information: None,
        receive_maximum: None,
        topic_alias_maximum: None,
        maximum_packet_size: None,
    }
}

/// The property loop of a Connect packet.
pub open spec fn parse_connect_prop_items(s: Seq<u8>, i: int, end: int, acc: ConnectProps) -> Parsed<ConnectProps>
    decreases rem(i, end),
{
    if i >= end {
        Parsed::Found { val: acc, next: i }
    } else {
        match parse_u8(s, i) {
            Parsed::Found { val: id, next: j } => {
                if id == PROP_SESSION_EXPIRY_INTERVAL {
                    match parse_u32(s, j) {
                        Parsed::Found { val: v, next: kk } => {
                            if acc.session_expiry_interval is Some {
                                Parsed::Malformed
                            } else {
                                parse_connect_prop_items(s, kk, end, ConnectProps { session_expiry_interval: Some(v), ..acc })
                            }
                        },
                        Parsed::Incomplete => Parsed::Incomplete,
                        Parsed::Malformed => Parsed::Malformed,
                    }
                } else if id == PROP_AUTHENTICATION_METHOD {
                    match parse_str(s, j) {
                        Parsed::Found { val: v, next: kk } => {
                            if acc.authentication_method is Some {
                                Parsed::Malformed
                            } else {
                                parse_connect_prop_items(s, kk, end, ConnectProps { authentication_method: Some(v), ..acc })
                            }
                        },
                        Parsed::Incomplete => Parsed::Incomplete,
                        Parsed::Malformed => Parsed::Malformed,
                    }
                } else if id == PROP_AUTHENTICATION_DATA {
                    match parse_data(s, j) {
                        Parsed::Found { val: v, next: kk } => {
                            if acc.authentication_data is Some {
                                Parsed::Malformed
                            } else {
                                parse_connect_prop_items(s, kk, end, ConnectProps { authentication_data: Some(v), ..acc })
                            }
                        },
                        Parsed::Incomplete => Parsed::Incomplete,
                        Parsed::Malformed => Parsed::Malformed,
                    }
                } else if id == PROP_REQUEST_PROBLEM_INFORMATION {
                    match parse_bool(s, j) {
                        Parsed::Found { val: v, next: kk } => {
                            if acc.request_problem_information is Some {
                                Parsed::Malformed
                            } else {
                                parse_connect_prop_items(s, kk, end, ConnectProps { request_problem_information: Some(v), ..acc })
                            }
                        },
                        Parsed::Incomplete => Parsed::Incomplete,
                        Parsed::Malformed => Parsed::Malformed,
                    }
                } else if id == PROP_REQUEST_RESPONSE_INFORMATION {
                    match parse_bool(s, j) {
                        Parsed::Found { val: v, next: kk } => {
                            if acc.request_response_information is Some {
                                Parsed::Malformed
                            } else {
                                parse_connect_prop_items(s, kk, end, ConnectProps { request_response_information: Some(v), ..acc })
                            }
                        },
                        Parsed::Incomplete => Parsed::Incomplete,
                        Parsed::Malformed => Parsed::Malformed,
                    }
                } else if id == PROP_RECEIVE_MAXIMUM {
                    match parse_u16(s, j) {
                        Parsed::Found { val: v, next: kk } => {
                            if acc.receive_maximum is Some {
                                Parsed::Malformed
                            } else {
                                parse_connect_prop_items(s, kk, end, ConnectProps { receive_maximum: Some(v), ..acc })
                            }
                        },
                        Parsed::Incomplete => Parsed::Incomplete,
                        Parsed::Malformed => Parsed::Malformed,
                    }
                } else if id == PROP_TOPIC_ALIAS_MAXIMUM {
                    match parse_u16(s, j) {
                        Parsed::Found { val: v, next: kk } => {
                            if acc.topic_alias_maximum is Some {
                                Parsed::Malformed
                            } else {
                                parse_connect_prop_items(s, kk, end, ConnectProps { topic_alias_maximum: Some(v), ..acc })
                            }
                        },
                        Parsed::Incomplete => Parsed::Incomplete,
                        Parsed::Malformed => Parsed::Malformed,
                    }
                } else if id == PROP_MAXIMUM_PACKET_SIZE {
                    match parse_u32(s, j) {
                        Parsed::Found { val: v, next: kk } => {
                            if acc.maximum_packet_size is Some {
                                Parsed::Malformed
                            } else {
                                parse_connect_prop_items(s, kk, end, ConnectProps { maximum_packet_size: Some(v), ..acc })
                            }
                        },
                        Parsed::Incomplete => Parsed::Incomplete,
                        Parsed::Malformed => Parsed::Malformed,
                    }
                } else {
                    Parsed::Malformed
                }
            },
            _ => Parsed::Incomplete,
        }
    }
}

/// The property region of a Connect packet.
pub open spec fn parse_connect_props(s: Seq<u8>, i: int) -> Parsed<ConnectProps> {
    match parse_vbi(s, i) {
        Parsed::Found { val: len, next: j } => parse_connect_prop_items(s, j, j + len, connect_props_none()),
        Parsed::Incomplete => Parsed::Incomplete,
        Parsed::Malformed => Parsed::Malformed,
    }
}

/// Segment of the encoded property items.
pub open spec fn enc_connect_items_a(p: ConnectProps) -> Seq<u8> {
    enc_opt_u32(PROP_SESSION_EXPIRY_INTERVAL, p.session_expiry_interval) + enc_opt_data(PROP_AUTHENTICATION_METHOD, p.authentication_method) + enc_opt_data(PROP_AUTHENTICATION_DATA, p.authentication_data) + enc_opt_bool(PROP_REQUEST_PROBLEM_INFORMATION, p.request_problem_information)
}

/// Segment of the encoded property items.
pub open spec fn enc_connect_items_b(p: ConnectProps) -> Seq<u8> {
    enc_opt_bool(PROP_REQUEST_RESPONSE_INFORMATION, p.request_response_information) + enc_opt_u16(PROP_RECEIVE_MAXIMUM, p.receive_maximum) + enc_opt_u16(PROP_TOPIC_ALIAS_MAXIMUM, p.topic_alias_maximum) + enc_opt_u32(PROP_MAXIMUM_PACKET_SIZE, p.maximum_packet_size)
}

pub open spec fn enc_connect_prop_items(p: ConnectProps) -> Seq<u8> {
    enc_connect_items_a(p) + enc_connect_items_b(p)
}

pub open spec fn enc_connect_props(p: ConnectProps) -> Seq<u8> {
    enc_vbi(enc_connect_prop_items(p).len() as u32) + enc_connect_prop_items(p)
}

pub open spec fn wf_connect_props(p: ConnectProps) -> bool {
    wf_opt_str(p.authentication_method) && wf_opt_data(p.authentication_data)
}

/// One property-loop step over the encoded `session_expiry_interval` property.
proof fn lemma_connect_step_session_expiry_interval(s: Seq<u8>, i: int, end: int, acc: ConnectProps, ov: Option<u32>)
    requires
        0 <= i,
        i + enc_opt_u32(PROP_SESSION_EXPIRY_INTERVAL, ov).len() <= s.len(),
        i + enc_opt_u32(PROP_SESSION_EXPIRY_INTERVAL, ov).len() <= end,
        s.subrange(i, i + enc_opt_u32(PROP_SESSION_EXPIRY_INTERVAL, ov).len()) == enc_opt_u32(PROP_SESSION_EXPIRY_INTERVAL, ov),
        acc.session_expiry_interval is None,
    ensures
        parse_connect_prop_items(s, i, end, acc) == parse_connect_prop_items(
            s,
            i + enc_opt_u32(PROP_SESSION_EXPIRY_INTERVAL, ov).len(),
            end,
            (ConnectProps { session_expiry_interval: ov, ..acc }),
        ),
{
    if ov is Some {
        let v = ov.unwrap();
        lemma_subrange_split(s, i, seq![PROP_SESSION_EXPIRY_INTERVAL], crate::codec::enc_u32(v));
        assert(s.subrange(i, i + 1)[0] == s[i]);
        lemma_parse_enc_u32(s, i + 1, v);
    }
}

/// One property-loop step over the encoded `authentication_method` property.
proof fn lemma_connect_step_authentication_method(s: Seq<u8>, i: int, end: int, acc: ConnectProps, ov: Option<Seq<u8>>)
    requires
        wf_opt_str(ov),
        0 <= i,
        i + enc_opt_data(PROP_AUTHENTICATION_METHOD, ov).len() <= s.len(),
        i + enc_opt_data(PROP_AUTHENTICATION_METHOD, ov).len() <= end,
        s.subrange(i, i + enc_opt_data(PROP_AUTHENTICATION_METHOD, ov).len()) == enc_opt_data(PROP_AUTHENTICATION_METHOD, ov),
        acc.authentication_method is None,
    ensures
        parse_connect_prop_items(s, i, end, acc) == parse_connect_prop_items(
            s,
            i + enc_opt_data(PROP_AUTHENTICATION_METHOD, ov).len(),
            end,
            (ConnectProps { authentication_method: ov, ..acc }),
        ),
{
    if ov is Some {
        let v = ov.unwrap();
        lemma_subrange_split(s, i, seq![PROP_AUTHENTICATION_METHOD], crate::codec::enc_data(v));
        assert(s.subrange(i, i + 1)[0] == s[i]);
        lemma_parse_enc_str(s, i + 1, v);
    }
}

/// One property-loop step over the encoded `authentication_data` property.
proof fn lemma_connect_step_authentication_data(s: Seq<u8>, i: int, end: int, acc: ConnectProps, ov: Option<Seq<u8>>)
    requires
        wf_opt_data(ov),
        0 <= i,
        i + enc_opt_data(PROP_AUTHENTICATION_DATA, ov).len() <= s.len(),
        i + enc_opt_data(PROP_AUTHENTICATION_DATA, ov).len() <= end,
        s.subrange(i, i + enc_opt_data(PROP_AUTHENTICATION_DATA, ov).len()) == enc_opt_data(PROP_AUTHENTICATION_DATA, ov),
        acc.authentication_data is None,
    ensures
        parse_connect_prop_items(s, i, end, acc) == parse_connect_prop_items(
            s,
            i + enc_opt_data(PROP_AUTHENTICATION_DATA, ov).len(),
            end,
            (ConnectProps { authentication_data: ov, ..acc }),
        ),
{
    if ov is Some {
        let v = ov.unwrap();
        lemma_subrange_split(s, i, seq![PROP_AUTHENTICATION_DATA], crate::codec::enc_data(v));
        assert(s.subrange(i, i + 1)[0] == s[i]);
        lemma_parse_enc_data(s, i + 1, v);
    }
}

/// One property-loop step over the encoded `request_problem_information` property.
proof fn lemma_connect_step_request_problem_information(s: Seq<u8>, i: int, end: int, acc: ConnectProps, ov: Option<bool>)
    requires
        0 <= i,
        i + enc_opt_bool(PROP_REQUEST_PROBLEM_INFORMATION, ov).len() <= s.len(),
        i + enc_opt_bool(PROP_REQUEST_PROBLEM_INFORMATION, ov).len() <= end,
        s.subrange(i, i + enc_opt_bool(PROP_REQUEST_PROBLEM_INFORMATION, ov).len()) == enc_opt_bool(PROP_REQUEST_PROBLEM_INFORMATION, ov),
        acc.request_problem_information is None,
    ensures
        parse_connect_prop_items(s, i, end, acc) == parse_connect_prop_items(
            s,
            i + enc_opt_bool(PROP_REQUEST_PROBLEM_INFORMATION, ov).len(),
            end,
            (ConnectProps { request_problem_information: ov, ..acc }),
        ),
{
    if ov is Some {
        let v = ov.unwrap();
        lemma_subrange_split(s, i, seq![PROP_REQUEST_PROBLEM_INFORMATION], crate::codec::enc_bool(v));
        assert(s.subrange(i, i + 1)[0] == s[i]);
        assert(s.subrange(i + 1, i + 2)[0] == s[i + 1]);
    }
}

/// One property-loop step over the encoded `request_response_information` property.
proof fn lemma_connect_step_request_response_information(s: Seq<u8>, i: int, end: int, acc: ConnectProps, ov: Option<bool>)
    requires
        0 <= i,
        i + enc_opt_bool(PROP_REQUEST_RESPONSE_INFORMATION, ov).len() <= s.len(),
        i + enc_opt_bool(PROP_REQUEST_RESPONSE_INFORMATION, ov).len() <= end,
        s.subrange(i, i + enc_opt_bool(PROP_REQUEST_RESPONSE_INFORMATION, ov).len()) == enc_opt_bool(PROP_REQUEST_RESPONSE_INFORMATION, ov),
        acc.request_response_information is None,
    ensures
        parse_connect_prop_items(s, i, end, acc) == parse_connect_prop_items(
            s,
            i + enc_opt_bool(PROP_REQUEST_RESPONSE_INFORMATION, ov).len(),
            end,
            (ConnectProps { request_response_information: ov, ..acc }),
        ),
{
    if ov is Some {
        let v = ov.unwrap();
        lemma_subrange_split(s, i, seq![PROP_REQUEST_RESPONSE_INFORMATION], crate::codec::enc_bool(v));
        assert(s.subrange(i, i + 1)[0] == s[i]);
        assert(s.subrange(i + 1, i + 2)[0] == s[i + 1]);
    }
}

/// One property-loop step over the encoded `receive_maximum` property.
proof fn lemma_connect_step_receive_maximum(s: Seq<u8>, i: int, end: int, acc: ConnectProps, ov: Option<u16>)
    requires
        0 <= i,
        i + enc_opt_u16(PROP_RECEIVE_MAXIMUM, ov).len() <= s.len(),
        i + enc_opt_u16(PROP_RECEIVE_MAXIMUM, ov).len() <= end,
        s.subrange(i, i + enc_opt_u16(PROP_RECEIVE_MAXIMUM, ov).len()) == enc_opt_u16(PROP_RECEIVE_MAXIMUM, ov),
        acc.receive_maximum is None,
    ensures
        parse_connect_prop_items(s, i, end, acc) == parse_connect_prop_items(
            s,
            i + enc_opt_u16(PROP_RECEIVE_MAXIMUM, ov).len(),
            end,
            (ConnectProps { receive_maximum: ov, ..acc }),
        ),
{
    if ov is Some {
        let v = ov.unwrap();
        lemma_subrange_split(s, i, seq![PROP_RECEIVE_MAXIMUM], crate::codec::enc_u16(v));
        assert(s.subrange(i, i + 1)[0] == s[i]);
        lemma_parse_enc_u16(s, i + 1, v);
    }
}

/// One property-loop step over the encoded `topic_alias_maximum` property.
proof fn lemma_connect_step_topic_alias_maximum(s: Seq<u8>, i: int, end: int, acc: ConnectProps, ov: Option<u16>)
    requires
        0 <= i,
        i + enc_opt_u16(PROP_TOPIC_ALIAS_MAXIMUM, ov).len() <= s.len(),
        i + enc_opt_u16(PROP_TOPIC_ALIAS_MAXIMUM, ov).len() <= end,
        s.subrange(i, i + enc_opt_u16(PROP_TOPIC_ALIAS_MAXIMUM, ov).len()) == enc_opt_u16(PROP_TOPIC_ALIAS_MAXIMUM, ov),
        acc.topic_alias_maximum is None,
    ensures
        parse_connect_prop_items(s, i, end, acc) == parse_connect_prop_items(
            s,
            i + enc_opt_u16(PROP_TOPIC_ALIAS_MAXIMUM, ov).len(),
            end,
            (ConnectProps { topic_alias_maximum: ov, ..acc }),
        ),
{
    if ov is Some {
        let v = ov.unwrap();
        lemma_subrange_split(s, i, seq![PROP_TOPIC_ALIAS_MAXIMUM], crate::codec::enc_u16(v));
        assert(s.subrange(i, i + 1)[0] == s[i]);
        lemma_parse_enc_u16(s, i + 1, v);
    }
}

/// One property-loop step over the encoded `maximum_packet_size` property.
proof fn lemma_connect_step_maximum_packet_size(s: Seq<u8>, i: int, end: int, acc: ConnectProps, ov: Option<u32>)
    requires
        0 <= i,
        i + enc_opt_u32(PROP_MAXIMUM_PACKET_SIZE, ov).len() <= s.len(),
        i + enc_opt_u32(PROP_MAXIMUM_PACKET_SIZE, ov).len() <= end,
        s.subrange(i, i + enc_opt_u32(PROP_MAXIMUM_PACKET_SIZE, ov).len()) == enc_opt_u32(PROP_MAXIMUM_PACKET_SIZE, ov),
        acc.maximum_packet_size is None,
    ensures
        parse_connect_prop_items(s, i, end, acc) == parse_connect_prop_items(
            s,
            i + enc_opt_u32(PROP_MAXIMUM_PACKET_SIZE, ov).len(),
            end,
            (ConnectProps { maximum_packet_size: ov, ..acc }),
        ),
{
    if ov is Some {
        let v = ov.unwrap();
        lemma_subrange_split(s, i, seq![PROP_MAXIMUM_PACKET_SIZE], crate::codec::enc_u32(v));
        assert(s.subrange(i, i + 1)[0] == s[i]);
        lemma_parse_enc_u32(s, i + 1, v);
    }
}

/// The accumulator after the first 4 properties are consumed.
pub open spec fn connect_acc_1(p: ConnectProps) -> ConnectProps {
    ConnectProps {
        session_expiry_interval: p.session_expiry_interval,
        authentication_method: p.authentication_method,
        authentication_data: p.authentication_data,
        request_problem_information: p.request_problem_information,
        request_response_information: None,
        receive_maximum: None,
        topic_alias_maximum: None,
        maximum_packet_size: None,
    }
}

/// Walking the property loop over one encoded segment.
#[verifier::spinoff_prover]
#[verifier::rlimit(100)]
proof fn lemma_connect_chain_a(s: Seq<u8>, i: int, end: int, p: ConnectProps)
    requires
        wf_connect_props(p),
        0 <= i,
        i + enc_connect_items_a(p).len() <= s.len(),
        i + enc_connect_items_a(p).len() <= end,
        s.subrange(i, i + enc_connect_items_a(p).len()) == enc_connect_items_a(p),
    ensures
        parse_connect_prop_items(s, i, end, connect_props_none()) == parse_connect_prop_items(
            s,
            i + enc_connect_items_a(p).len(),
            end,
            connect_acc_1(p),
        ),
{
    assert(enc_connect_items_a(p) =~= enc_opt_u32(PROP_SESSION_EXPIRY_INTERVAL, p.session_expiry_interval) + (enc_opt_data(PROP_AUTHENTICATION_METHOD, p.authentication_method) + (enc_opt_data(PROP_AUTHENTICATION_DATA, p.authentication_data) + (enc_opt_bool(PROP_REQUEST_PROBLEM_INFORMATION, p.request_problem_information)))));
    lemma_subrange_split(s, i, enc_opt_u32(PROP_SESSION_EXPIRY_INTERVAL, p.session_expiry_interval), enc_opt_data(PROP_AUTHENTICATION_METHOD, p.authentication_method) + (enc_opt_data(PROP_AUTHENTICATION_DATA, p.authentication_data) + (enc_opt_bool(PROP_REQUEST_PROBLEM_INFORMATION, p.request_problem_information))));
    let j0 = i + enc_opt_u32(PROP_SESSION_EXPIRY_INTERVAL, p.session_expiry_interval).len();
    lemma_subrange_split(s, j0, enc_opt_data(PROP_AUTHENTICATION_METHOD, p.authentication_method), enc_opt_data(PROP_AUTHENTICATION_DATA, p.authentication_data) + (enc_opt_bool(PROP_REQUEST_PROBLEM_INFORMATION, p.request_problem_information)));
    let j1 = j0 + enc_opt_data(PROP_AUTHENTICATION_METHOD, p.authentication_method).len();
    lemma_subrange_split(s, j1, enc_opt_data(PROP_AUTHENTICATION_DATA, p.authentication_data), enc_opt_bool(PROP_REQUEST_PROBLEM_INFORMATION, p.request_problem_information));
    let j2 = j1 + enc_opt_data(PROP_AUTHENTICATION_DATA, p.authentication_data).len();
    let j3 = j2 + enc_opt_bool(PROP_REQUEST_PROBLEM_INFORMATION, p.request_problem_information).len();
    let acc0 = connect_props_none();
    lemma_connect_step_session_expiry_interval(s, i, end, acc0, p.session_expiry_interval);
    let acc1 = ConnectProps { session_expiry_interval: p.session_expiry_interval, ..acc0 };
    lemma_connect_step_authentication_method(s, j0, end, acc1, p.authentication_method);
    let acc2 = ConnectProps { authentication_method: p.authentication_method, ..acc1 };
    lemma_connect_step_authentication_data(s, j1, end, acc2, p.authentication_data);
    let acc3 = ConnectProps { authentication_data: p.authentication_data, ..acc2 };
    lemma_connect_step_request_problem_information(s, j2, end, acc3, p.request_problem_information);
    let acc4 = ConnectProps { request_problem_information: p.request_problem_information, ..acc3 };
    assert(acc4 =~= connect_acc_1(p));
}

/// The accumulator after the first 8 properties are consumed.
pub open spec fn connect_acc_2(p: ConnectProps) -> ConnectProps {
    ConnectProps {
        session_expiry_interval: p.session_expiry_interval,
        authentication_method: p.authentication_method,
        authentication_data: p.authentication_data,
        request_problem_information: p.request_problem_information,
        request_response_information: p.request_response_information,
        receive_maximum: p.receive_maximum,
        topic_alias_maximum: p.topic_alias_maximum,
        maximum_packet_size: p.maximum_packet_size,
    }
}

/// Walking the property loop over one encoded segment.
#[verifier::spinoff_prover]
#[verifier::rlimit(100)]
proof fn lemma_connect_chain_b(s: Seq<u8>, i: int, end: int, p: ConnectProps)
    requires
        wf_connect_props(p),
        0 <= i,
        i + enc_connect_items_b(p).len() <= s.len(),
        i + enc_connect_items_b(p).len() <= end,
        s.subrange(i, i + enc_connect_items_b(p).len()) == enc_connect_items_b(p),
    ensures
        parse_connect_prop_items(s, i, end, connect_acc_1(p)) == parse_connect_prop_items(
            s,
            i + enc_connect_items_b(p).len(),
            end,
            connect_acc_2(p),
        ),
{
    assert(enc_connect_items_b(p) =~= enc_opt_bool(PROP_REQUEST_RESPONSE_INFORMATION, p.request_response_information) + (enc_opt_u16(PROP_RECEIVE_MAXIMUM, p.receive_maximum) + (enc_opt_u16(PROP_TOPIC_ALIAS_MAXIMUM, p.topic_alias_maximum) + (enc_opt_u32(PROP_MAXIMUM_PACKET_SIZE, p.maximum_packet_size)))));
    lemma_subrange_split(s, i, enc_opt_bool(PROP_REQUEST_RESPONSE_INFORMATION, p.request_response_information), enc_opt_u16(PROP_RECEIVE_MAXIMUM, p.receive_maximum) + (enc_opt_u16(PROP_TOPIC_ALIAS_MAXIMUM, p.topic_alias_maximum) + (enc_opt_u32(PROP_MAXIMUM_PACKET_SIZE, p.maximum_packet_size))));
    let j0 = i + enc_opt_bool(PROP_REQUEST_RESPONSE_INFORMATION, p.request_response_information).len();
    lemma_subrange_split(s, j0, enc_opt_u16(PROP_RECEIVE_MAXIMUM, p.receive_maximum), enc_opt_u16(PROP_TOPIC_ALIAS_MAXIMUM, p.topic_alias_maximum) + (enc_opt_u32(PROP_MAXIMUM_PACKET_SIZE, p.maximum_packet_size)));
    let j1 = j0 + enc_opt_u16(PROP_RECEIVE_MAXIMUM, p.receive_maximum).len();
    lemma_subrange_split(s, j1, enc_opt_u16(PROP_TOPIC_ALIAS_MAXIMUM, p.topic_alias_maximum), enc_opt_u32(PROP_MAXIMUM_PACKET_SIZE, p.maximum_packet_size));
    let j2 = j1 + enc_opt_u16(PROP_TOPIC_ALIAS_MAXIMUM, p.topic_alias_maximum).len();
    let j3 = j2 + enc_opt_u32(PROP_MAXIMUM_PACKET_SIZE, p.maximum_packet_size).len();
    let acc0 = connect_acc_1(p);
    lemma_connect_step_request_response_information(s, i, end, acc0, p.request_response_information);
    let acc1 = ConnectProps { request_response_information: p.request_response_information, ..acc0 };
    lemma_connect_step_receive_maximum(s, j0, end, acc1, p.receive_maximum);
    let acc2 = ConnectProps { receive_maximum: p.receive_maximum, ..acc1 };
    lemma_connect_step_topic_alias_maximum(s, j1, end, acc2, p.topic_alias_maximum);
    let acc3 = ConnectProps { topic_alias_maximum: p.topic_alias_maximum, ..acc2 };
    lemma_connect_step_maximum_packet_size(s, j2, end, acc3, p.maximum_packet_size);
    let acc4 = ConnectProps { maximum_packet_size: p.maximum_packet_size, ..acc3 };
    assert(acc4 =~= connect_acc_2(p));
}

/// Parsing an encoded Connect property region yields the fields back.
#[verifier::spinoff_prover]
#[verifier::rlimit(100)]
pub proof fn lemma_parse_enc_connect_props(s: Seq<u8>, i: int, p: ConnectProps)
    requires
        wf_connect_props(p),
        enc_connect_prop_items(p).len() <= VBI_MAX,
        0 <= i,
        i + enc_connect_props(p).len() <= s.len(),
        s.subrange(i, i + enc_connect_props(p).len()) == enc_connect_props(p),
    ensures
        parse_connect_props(s, i) == (Parsed::Found {
            val: p,
            next: i + enc_connect_props(p).len(),
        }),
{
    let items = enc_connect_prop_items(p);
    let lenb = enc_vbi(items.len() as u32);
    lemma_enc_vbi_len(items.len() as u32);
    lemma_subrange_split(s, i, lenb, items);
    lemma_parse_enc_vbi(s, i, items.len() as u32);
    let j0 = i + lenb.len();
    let end = j0 + items.len();
    assert(items =~= enc_connect_items_a(p) + (enc_connect_items_b(p)));
    lemma_subrange_split(s, j0, enc_connect_items_a(p), enc_connect_items_b(p));
    lemma_connect_chain_a(s, j0, end, p);
    let k0 = j0 + enc_connect_items_a(p).len();
    lemma_connect_chain_b(s, k0, end, p);
    let k1 = k0 + enc_connect_items_b(p).len();
    assert(parse_connect_prop_items(s, k1, end, connect_acc_2(p)) == (Parsed::Found {
        val: connect_acc_2(p),
        next: end,
    }));
    assert(connect_acc_2(p) =~= p);
}

/// Reads a Connect property region.
#[verifier::spinoff_prover]
#[verifier::rlimit(100)]
pub fn read_connect_props(s: &[u8], pos: usize) -> (r: Result<((Option<u32>, Option<Vec<u8>>, Option<Vec<u8>>, Option<bool>, Option<bool>, Option<u16>, Option<u16>, Option<u32>), usize), CodecError>)
    requires
        pos <= s@.len(),
    ensures
        (match parse_connect_props(s@, pos as int) {
            Parsed::Found { val, next } => r matches Ok(x) && x.0.0 == val.session_expiry_interval
                && view_opt_bytes(x.0.1) == val.authentication_method
                && view_opt_bytes(x.0.2) == val.authentication_data
                && x.0.3 == val.request_problem_information
                && x.0.4 == val.request_response_information
                && x.0.5 == val.receive_maximum
                && x.0.6 == val.topic_alias_maximum
                && x.0.7 == val.maximum_packet_size
                && x.1 == next && pos < next <= s@.len() && next <= usize::MAX,
            Parsed::Incomplete => r matches Err(e) && e == CodecError::InsufficientBytes,
            Parsed::Malformed => r matches Err(e) && e == CodecError::MalformedBytes,
        }),
{
    let (plen, p0) = read_vbi(s, pos)?;
    let ghost end = p0 as int + plen as int;
    let mut session_expiry_interval: Option<u32> = None;
    let mut authentication_method: Option<Vec<u8>> = None;
    let mut authentication_data: Option<Vec<u8>> = None;
    let mut request_problem_information: Option<bool> = None;
    let mut request_response_information: Option<bool> = None;
    let mut receive_maximum: Option<u16> = None;
    let mut topic_alias_maximum: Option<u16> = None;
    let mut maximum_packet_size: Option<u32> = None;
    let mut cur: usize = p0;
    while cur - p0 < plen as usize
        invariant
            pos < p0 <= cur <= s@.len(),
            end == p0 as int + plen as int,
            parse_connect_props(s@, pos as int) == parse_connect_prop_items(
                s@,
                cur as int,
                end,
                ConnectProps {
                    session_expiry_interval: session_expiry_interval,
                    authentication_method: view_opt_bytes(authentication_method),
                    authentication_data: view_opt_bytes(authentication_data),
                    request_problem_information: request_problem_information,
                    request_response_information: request_response_information,
                    receive_maximum: receive_maximum,
                    topic_alias_maximum: topic_alias_maximum,
                    maximum_packet_size: maximum_packet_size,
                },
            ),
        decreases rem(cur as int, end),
    {
        let (id, p1) = read_u8(s, cur)?;
        if id == PROP_SESSION_EXPIRY_INTERVAL {
            let (v, p2) = read_u32(s, p1)?;
            if session_expiry_interval.is_some() {
                return Err(CodecError::MalformedBytes);
            }
            session_expiry_interval = Some(v);
            cur = p2;
        } else if id == PROP_AUTHENTICATION_METHOD {
            let (v, p2) = read_str(s, p1)?;
            if authentication_method.is_some() {
                return Err(CodecError::MalformedBytes);
            }
            authentication_method = Some(v);
            cur = p2;
        } else if id == PROP_AUTHENTICATION_DATA {
            let (v, p2) = read_data(s, p1)?;
            if authentication_data.is_some() {
                return Err(CodecError::MalformedBytes);
            }
            authentication_data = Some(v);
            cur = p2;
        } else if id == PROP_REQUEST_PROBLEM_INFORMATION {
            let (v, p2) = read_bool(s, p1)?;
            if request_problem_information.is_some() {
                return Err(CodecError::MalformedBytes);
            }
            request_problem_information = Some(v);
            cur = p2;
        } else if id == PROP_REQUEST_RESPONSE_INFORMATION {
            let (v, p2) = read_bool(s, p1)?;
            if request_response_information.is_some() {
                return Err(CodecError::MalformedBytes);
            }
            request_response_information = Some(v);
            cur = p2;
        } else if id == PROP_RECEIVE_MAXIMUM {
            let (v, p2) = read_u16(s, p1)?;
            if receive_maximum.is_some() {
                return Err(CodecError::MalformedBytes);
            }
            receive_maximum = Some(v);
            cur = p2;
        } else if id == PROP_TOPIC_ALIAS_MAXIMUM {
            let (v, p2) = read_u16(s, p1)?;
            if topic_alias_maximum.is_some() {
                return Err(CodecError::MalformedBytes);
            }
            topic_alias_maximum = Some(v);
            cur = p2;
        } else if id == PROP_MAXIMUM_PACKET_SIZE {
            let (v, p2) = read_u32(s, p1)?;
            if maximum_packet_size.is_some() {
                return Err(CodecError::MalformedBytes);
            }
            maximum_packet_size = Some(v);
            cur = p2;
        } else {
            return Err(CodecError::MalformedBytes);
        }
    }
    Ok(
        (
            (
                session_expiry_interval,
                authentication_method,
                authentication_data,
                request_problem_information,
                request_response_information,
                receive_maximum,
                topic_alias_maximum,
                maximum_packet_size,
            ),
            cur,
        ),
    )
}

/// The property fields of the packet, written only when they differ
/// from their protocol defaults.
pub open spec fn connect_props_of(v: ConnectView) -> ConnectProps {
    ConnectProps {
        session_expiry_interval: if v.session_expiry_interval != 0 {
            Some(v.session_expiry_interval)
        } else {
            None
        },
        authentication_method: v.authentication_method,
        authentication_data: v.authentication_data,
        request_problem_information: if v.request_problem_information != true {
            Some(v.request_problem_information)
        } else {
            None
        },
        request_response_information: if v.request_response_information != false {
            Some(v.request_response_information)
        } else {
            None
        },
        receive_maximum: if v.receive_maximum != 65535 {
            Some(v.receive_maximum)
        } else {
            None
        },
        topic_alias_maximum: if v.topic_alias_maximum != 0 {
            Some(v.topic_alias_maximum)
        } else {
            None
        },
        maximum_packet_size: v.maximum_packet_size,
    }
}

/// Number of bytes of one segment of the encoded property items.
#[verifier::spinoff_prover]
#[verifier::rlimit(100)]
fn connect_items_size_a(p: &ConnectPacket) -> (n: usize)
    requires
        p@.wf(),
    ensures
        n == enc_connect_items_a(connect_props_of(p@)).len(),
        n <= 4 * (3 + 0xFFFF),
{
    let mut items_len: usize = 0;
    if p.session_expiry_interval != 0 {
        items_len = items_len + 5;
    }
    if let Some(v) = &p.authentication_method {
        items_len = items_len + 3 + v.len();
    }
    if let Some(v) = &p.authentication_data {
        items_len = items_len + 3 + v.len();
    }
    if p.request_problem_information != true {
        items_len = items_len + 2;
    }
    items_len
}

/// Number of bytes of one segment of the encoded property items.
#[verifier::spinoff_prover]
#[verifier::rlimit(100)]
fn connect_items_size_b(p: &ConnectPacket) -> (n: usize)
    requires
        p@.wf(),
    ensures
        n == enc_connect_items_b(connect_props_of(p@)).len(),
        n <= 4 * (3 + 0xFFFF),
{
    let mut items_len: usize = 0;
    if p.request_response_information != false {
        items_len = items_len + 2;
    }
    if p.receive_maximum != 65535 {
        items_len = items_len + 3;
    }
    if p.topic_alias_maximum != 0 {
        items_len = items_len + 3;
    }
    if p.maximum_packet_size.is_some() {
        items_len = items_len + 5;
    }
    items_len
}

/// Number of bytes of the encoded Connect property items, without the
/// length prefix.
pub fn connect_prop_items_size(p: &ConnectPacket) -> (n: usize)
    requires
        p@.wf(),
    ensures
        n == enc_connect_prop_items(connect_props_of(p@)).len(),
        n <= 8 * (3 + 0xFFFF),
{
    connect_items_size_a(p) + connect_items_size_b(p)
}

/// Writes one segment of the property items.
#[verifier::spinoff_prover]
#[verifier::rlimit(100)]
fn write_connect_items_a(buf: &mut Vec<u8>, pos: usize, p: &ConnectPacket) -> (n: usize)
    requires
        p@.wf(),
        pos + enc_connect_items_a(connect_props_of(p@)).len() <= old(buf)@.len(),
    ensures
        final(buf)@ == spliced(old(buf)@, pos as int, enc_connect_items_a(connect_props_of(p@))),
        final(buf)@.len() == old(buf)@.len(),
        n == enc_connect_items_a(connect_props_of(p@)).len(),
{
    let ghost pr = connect_props_of(p@);
    // Binding the length teaches the prover that positions fit in usize.
    let buf_len: usize = buf.len();
    let mut w: usize = 0;
    proof {
        crate::codec::lemma_spliced_empty(old(buf)@, pos as int);
    }
    let ghost done = Seq::<u8>::empty();
    if p.session_expiry_interval != 0 {
        let x = p.session_expiry_interval;
        proof {
            lemma_spliced_concat(old(buf)@, pos as int, done, seq![PROP_SESSION_EXPIRY_INTERVAL] + crate::codec::enc_u32(x));
        }
        write_prop_u32(buf, pos + w, PROP_SESSION_EXPIRY_INTERVAL, x);
        w = w + 5;
    }
    let ghost done1 = done + enc_opt_u32(PROP_SESSION_EXPIRY_INTERVAL, pr.session_expiry_interval);
    proof {
        if pr.session_expiry_interval is None {
            assert(done1 =~= done);
        }
        assert(buf@ == spliced(old(buf)@, pos as int, done1));
        assert(w == done1.len());
    }
    if let Some(v) = &p.authentication_method {
        proof {
            lemma_spliced_concat(old(buf)@, pos as int, done1, seq![PROP_AUTHENTICATION_METHOD] + crate::codec::enc_data(v@));
        }
        write_prop_data(buf, pos + w, PROP_AUTHENTICATION_METHOD, v.as_slice());
        w = w + 3 + v.len();
    }
    let ghost done2 = done1 + enc_opt_data(PROP_AUTHENTICATION_METHOD, pr.authentication_method);
    proof {
        if pr.authentication_method is None {
            assert(done2 =~= done1);
        }
        assert(buf@ == spliced(old(buf)@, pos as int, done2));
        assert(w == done2.len());
    }
    if let Some(v) = &p.authentication_data {
        proof {
            lemma_spliced_concat(old(buf)@, pos as int, done2, seq![PROP_AUTHENTICATION_DATA] + crate::codec::enc_data(v@));
        }
        write_prop_data(buf, pos + w, PROP_AUTHENTICATION_DATA, v.as_slice());
        w = w + 3 + v.len();
    }
    let ghost done3 = done2 + enc_opt_data(PROP_AUTHENTICATION_DATA, pr.authentication_data);
    proof {
        if pr.authentication_data is None {
            assert(done3 =~= done2);
        }
        assert(buf@ == spliced(old(buf)@, pos as int, done3));
        assert(w == done3.len());
    }
    if p.request_problem_information != true {
        proof {
            lemma_spliced_concat(old(buf)@, pos as int, done3, seq![PROP_REQUEST_PROBLEM_INFORMATION] + crate::codec::enc_bool(p.request_problem_information));
        }
        write_prop_bool(buf, pos + w, PROP_REQUEST_PROBLEM_INFORMATION, p.request_problem_information);
        w = w + 2;
    }
    let ghost done4 = done3 + enc_opt_bool(PROP_REQUEST_PROBLEM_INFORMATION, pr.request_problem_information);
    proof {
        if pr.request_problem_information is None {
            assert(done4 =~= done3);
        }
        assert(buf@ == spliced(old(buf)@, pos as int, done4));
        assert(w == done4.len());
    }
    proof {
        assert(done4 =~= enc_connect_items_a(pr));
    }
    w
}

/// Writes one segment of the property items.
#[verifier::spinoff_prover]
#[verifier::rlimit(100)]
fn write_connect_items_b(buf: &mut Vec<u8>, pos: usize, p: &ConnectPacket) -> (n: usize)
    requires
        p@.wf(),
        pos + enc_connect_items_b(connect_props_of(p@)).len() <= old(buf)@.len(),
    ensures
        final(buf)@ == spliced(old(buf)@, pos as int, enc_connect_items_b(connect_props_of(p@))),
        final(buf)@.len() == old(buf)@.len(),
        n == enc_connect_items_b(connect_props_of(p@)).len(),
{
    let ghost pr = connect_props_of(p@);
    // Binding the length teaches the prover that positions fit in usize.
    let buf_len: usize = buf.len();
    let mut w: usize = 0;
    proof {
        crate::codec::lemma_spliced_empty(old(buf)@, pos as int);
    }
    let ghost done = Seq::<u8>::empty();
    if p.request_response_information != false {
        proof {
            lemma_spliced_concat(old(buf)@, pos as int, done, seq![PROP_REQUEST_RESPONSE_INFORMATION] + crate::codec::enc_bool(p.request_response_information));
        }
        write_prop_bool(buf, pos + w, PROP_REQUEST_RESPONSE_INFORMATION, p.request_response_information);
        w = w + 2;
    }
    let ghost done1 = done + enc_opt_bool(PROP_REQUEST_RESPONSE_INFORMATION, pr.request_response_information);
    proof {
        if pr.request_response_information is None {
            assert(done1 =~= done);
        }
        assert(buf@ == spliced(old(buf)@, pos as int, done1));
        assert(w == done1.len());
    }
    if p.receive_maximum != 65535 {
        let x = p.receive_maximum;
        proof {
            lemma_spliced_concat(old(buf)@, pos as int, done1, seq![PROP_RECEIVE_MAXIMUM] + crate::codec::enc_u16(x));
        }
        write_prop_u16(buf, pos + w, PROP_RECEIVE_MAXIMUM, x);
        w = w + 3;
    }
    let ghost done2 = done1 + enc_opt_u16(PROP_RECEIVE_MAXIMUM, pr.receive_maximum);
    proof {
        if pr.receive_maximum is None {
            assert(done2 =~= done1);
        }
        assert(buf@ == spliced(old(buf)@, pos as int, done2));
        assert(w == done2.len());
    }
    if p.topic_alias_maximum != 0 {
        let x = p.topic_alias_maximum;
        proof {
            lemma_spliced_concat(old(buf)@, pos as int, done2, seq![PROP_TOPIC_ALIAS_MAXIMUM] + crate::codec::enc_u16(x));
        }
        write_prop_u16(buf, pos + w, PROP_TOPIC_ALIAS_MAXIMUM, x);
        w = w + 3;
    }
    let ghost done3 = done2 + enc_opt_u16(PROP_TOPIC_ALIAS_MAXIMUM, pr.topic_alias_maximum);
    proof {
        if pr.topic_alias_maximum is None {
            assert(done3 =~= done2);
        }
        assert(buf@ == spliced(old(buf)@, pos as int, done3));
        assert(w == done3.len());
    }
    if let Some(x) = p.maximum_packet_size {
        proof {
            lemma_spliced_concat(old(buf)@, pos as int, done3, seq![PROP_MAXIMUM_PACKET_SIZE] + crate::codec::enc_u32(x));
        }
        write_prop_u32(buf, pos + w, PROP_MAXIMUM_PACKET_SIZE, x);
        w = w + 5;
    }
    let ghost done4 = done3 + enc_opt_u32(PROP_MAXIMUM_PACKET_SIZE, pr.maximum_packet_size);
    proof {
        if pr.maximum_packet_size is None {
            assert(done4 =~= done3);
        }
        assert(buf@ == spliced(old(buf)@, pos as int, done4));
        assert(w == done4.len());
    }
    proof {
        assert(done4 =~= enc_connect_items_b(pr));
    }
    w
}

/// Writes a Connect property region.
#[verifier::spinoff_prover]
#[verifier::rlimit(100)]
pub fn write_connect_props(buf: &mut Vec<u8>, pos: usize, p: &ConnectPacket) -> (n: usize)
    requires
        p@.wf(),
        pos + enc_connect_props(connect_props_of(p@)).len() <= old(buf)@.len(),
    ensures
        final(buf)@ == spliced(old(buf)@, pos as int, enc_connect_props(connect_props_of(p@))),
        final(buf)@.len() == old(buf)@.len(),
        n == enc_connect_props(connect_props_of(p@)).len(),
{
    let ghost pr = connect_props_of(p@);
    // Binding the length teaches the prover that positions fit in usize.
    let buf_len: usize = buf.len();
    let items_len = connect_prop_items_size(p);
    proof {
        lemma_enc_vbi_len(items_len as u32);
    }
    let mut w = write_vbi(buf, pos, items_len as u32);
    let ghost done0 = enc_vbi(items_len as u32);
    proof {
        lemma_spliced_concat(old(buf)@, pos as int, done0, enc_connect_items_a(pr));
    }
    let n0 = write_connect_items_a(buf, pos + w, p);
    w = w + n0;
    let ghost done1 = done0 + enc_connect_items_a(pr);
    proof {
        lemma_spliced_concat(old(buf)@, pos as int, done1, enc_connect_items_b(pr));
    }
    let n1 = write_connect_items_b(buf, pos + w, p);
    w = w + n1;
    let ghost done2 = done1 + enc_connect_items_b(pr);
    proof {
        assert(done2 =~= enc_connect_props(pr));
    }
    w
}

/// The property fields of a Will packet, while being accumulated.
#[verifier::ext_equal]
pub ghost struct WillProps {
    pub payload_format_indicator: Option<u8>,
    pub message_expiry_interval: Option<u32>,
    pub content_type: Option<Seq<u8>>,
    pub response_topic: Option<Seq<u8>>,
    pub correlation_data: Option<Seq<u8>>,
    pub will_delay_interval: Option<u32>,
}

pub open spec fn will_props_none() -> WillProps {
    WillProps {
        payload_format_indicator: None,
        message_expiry_interval: None,
        content_type: None,
        response_topic: None,
        correlation_data: None,
        will_delay_interval: None,
    }
}

/// The property loop of a Will packet.
pub open spec fn parse_will_prop_items(s: Seq<u8>, i: int, end: int, acc: WillProps) -> Parsed<WillProps>
    decreases rem(i, end),
{
    if i >= end {
        Parsed::Found { val: acc, next: i }
    } else {
        match parse_u8(s, i) {
            Parsed::Found { val: id, next: j } => {
                if id == PROP_PAYLOAD_FORMAT_INDICATOR {
                    match parse_u8(s, j) {
                        Parsed::Found { val: v, next: kk } => {
                            if acc.payload_format_indicator is Some {
                                Parsed::Malformed
                            } else {
                                parse_will_prop_items(s, kk, end, WillProps { payload_format_indicator: Some(v), ..acc })
                            }
                        },
                        _ => Parsed::Incomplete,
                    }
                } else if id == PROP_MESSAGE_EXPIRY_INTERVAL {
                    match parse_u32(s, j) {
                        Parsed::Found { val: v, next: kk } => {
                            if acc.message_expiry_interval is Some {
                                Parsed::Malformed
                            } else {
                                parse_will_prop_items(s, kk, end, WillProps { message_expiry_interval: Some(v), ..acc })
                            }
                        },
                        Parsed::Incomplete => Parsed::Incomplete,
                        Parsed::Malformed => Parsed::Malformed,
                    }
                } else if id == PROP_CONTENT_TYPE {
                    match parse_str(s, j) {
                        Parsed::Found { val: v, next: kk } => {
                            if acc.content_type is Some {
                                Parsed::Malformed
                            } else {
                                parse_will_prop_items(s, kk, end, WillProps { content_type: Some(v), ..acc })
                            }
                        },
                        Parsed::Incomplete => Parsed::Incomplete,
                        Parsed::Malformed => Parsed::Malformed,
                    }
                } else if id == PROP_RESPONSE_TOPIC {
                    match parse_str(s, j) {
                        Parsed::Found { val: v, next: kk } => {
                            if acc.response_topic is Some {
                                Parsed::Malformed
                            } else {
                                parse_will_prop_items(s, kk, end, WillProps { response_topic: Some(v), ..acc })
                            }
                        },
                        Parsed::Incomplete => Parsed::Incomplete,
                        Parsed::Malformed => Parsed::Malformed,
                    }
                } else if id == PROP_CORRELATION_DATA {
                    match parse_data(s, j) {
                        Parsed::Found { val: v, next: kk } => {
                            if acc.correlation_data is Some {
                                Parsed::Malformed
                            } else {
                                parse_will_prop_items(s, kk, end, WillProps { correlation_data: Some(v), ..acc })
                            }
                        },
                        Parsed::Incomplete => Parsed::Incomplete,
                        Parsed::Malformed => Parsed::Malformed,
                    }
                } else if id == PROP_WILL_DELAY_INTERVAL {
                    match parse_u32(s, j) {
                        Parsed::Found { val: v, next: kk } => {
                            if acc.will_delay_interval is Some {
                                Parsed::Malformed
                            } else {
                                parse_will_prop_items(s, kk, end, WillProps { will_delay_interval: Some(v), ..acc })
                            }
                        },
                        Parsed::Incomplete => Parsed::Incomplete,
                        Parsed::Malformed => Parsed::Malformed,
                    }
                } else {
                    Parsed::Malformed
                }
            },
            _ => Parsed::Incomplete,
        }
    }
}

/// The property region of a Will packet.
pub open spec fn parse_will_props(s: Seq<u8>, i: int) -> Parsed<WillProps> {
    match parse_vbi(s, i) {
        Parsed::Found { val: len, next: j } => parse_will_prop_items(s, j, j + len, will_props_none()),
        Parsed::Incomplete => Parsed::Incomplete,
        Parsed::Malformed => Parsed::Malformed,
    }
}

/// Segment of the encoded property items.
pub open spec fn enc_will_items_a(p: WillProps) -> Seq<u8> {
    enc_opt_u8p(PROP_PAYLOAD_FORMAT_INDICATOR, p.payload_format_indicator) + enc_opt_u32(PROP_MESSAGE_EXPIRY_INTERVAL, p.message_expiry_interval) + enc_opt_data(PROP_CONTENT_TYPE, p.content_type)
}

/// Segment of the encoded property items.
pub open spec fn enc_will_items_b(p: WillProps) -> Seq<u8> {
    enc_opt_data(PROP_RESPONSE_TOPIC, p.response_topic) + enc_opt_data(PROP_CORRELATION_DATA, p.correlation_data) + enc_opt_u32(PROP_WILL_DELAY_INTERVAL, p.will_delay_interval)
}

pub open spec fn enc_will_prop_items(p: WillProps) -> Seq<u8> {
    enc_will_items_a(p) + enc_will_items_b(p)
}

pub open spec fn enc_will_props(p: WillProps) -> Seq<u8> {
    enc_vbi(enc_will_prop_items(p).len() as u32) + enc_will_prop_items(p)
}

pub open spec fn wf_will_props(p: WillProps) -> bool {
    wf_opt_str(p.content_type) && wf_opt_str(p.response_topic) && wf_opt_data(p.correlation_data)
}

/// One property-loop step over the encoded `payload_format_indicator` property.
proof fn lemma_will_step_payload_format_indicator(s: Seq<u8>, i: int, end: int, acc: WillProps, ov: Option<u8>)
    requires
        0 <= i,
        i + enc_opt_u8p(PROP_PAYLOAD_FORMAT_INDICATOR, ov).len() <= s.len(),
        i + enc_opt_u8p(PROP_PAYLOAD_FORMAT_INDICATOR, ov).len() <= end,
        s.subrange(i, i + enc_opt_u8p(PROP_PAYLOAD_FORMAT_INDICATOR, ov).len()) == enc_opt_u8p(PROP_PAYLOAD_FORMAT_INDICATOR, ov),
        acc.payload_format_indicator is None,
    ensures
        parse_will_prop_items(s, i, end, acc) == parse_will_prop_items(
            s,
            i + enc_opt_u8p(PROP_PAYLOAD_FORMAT_INDICATOR, ov).len(),
            end,
            (WillProps { payload_format_indicator: ov, ..acc }),
        ),
{
    if ov is Some {
        let v = ov.unwrap();
        assert(s.subrange(i, i + 2)[0] == s[i]);
        assert(s.subrange(i, i + 2)[1] == s[i + 1]);
    }
}

/// One property-loop step over the encoded `message_expiry_interval` property.
proof fn lemma_will_step_message_expiry_interval(s: Seq<u8>, i: int, end: int, acc: WillProps, ov: Option<u32>)
    requires
        0 <= i,
        i + enc_opt_u32(PROP_MESSAGE_EXPIRY_INTERVAL, ov).len() <= s.len(),
        i + enc_opt_u32(PROP_MESSAGE_EXPIRY_INTERVAL, ov).len() <= end,
        s.subrange(i, i + enc_opt_u32(PROP_MESSAGE_EXPIRY_INTERVAL, ov).len()) == enc_opt_u32(PROP_MESSAGE_EXPIRY_INTERVAL, ov),
        acc.message_expiry_interval is None,
    ensures
        parse_will_prop_items(s, i, end, acc) == parse_will_prop_items(
            s,
            i + enc_opt_u32(PROP_MESSAGE_EXPIRY_INTERVAL, ov).len(),
            end,
            (WillProps { message_expiry_interval: ov, ..acc }),
        ),
{
    if ov is Some {
        let v = ov.unwrap();
        lemma_subrange_split(s, i, seq![PROP_MESSAGE_EXPIRY_INTERVAL], crate::codec::enc_u32(v));
        assert(s.subrange(i, i + 1)[0] == s[i]);
        lemma_parse_enc_u32(s, i + 1, v);
    }
}

/// One property-loop step over the encoded `content_type` property.
proof fn lemma_will_step_content_type(s: Seq<u8>, i: int, end: int, acc: WillProps, ov: Option<Seq<u8>>)
    requires
        wf_opt_str(ov),
        0 <= i,
        i + enc_opt_data(PROP_CONTENT_TYPE, ov).len() <= s.len(),
        i + enc_opt_data(PROP_CONTENT_TYPE, ov).len() <= end,
        s.subrange(i, i + enc_opt_data(PROP_CONTENT_TYPE, ov).len()) == enc_opt_data(PROP_CONTENT_TYPE, ov),
        acc.content_type is None,
    ensures
        parse_will_prop_items(s, i, end, acc) == parse_will_prop_items(
            s,
            i + enc_opt_data(PROP_CONTENT_TYPE, ov).len(),
            end,
            (WillProps { content_type: ov, ..acc }),
        ),
{
    if ov is Some {
        let v = ov.unwrap();
        lemma_subrange_split(s, i, seq![PROP_CONTENT_TYPE], crate::codec::enc_data(v));
        assert(s.subrange(i, i + 1)[0] == s[i]);
        lemma_parse_enc_str(s, i + 1, v);
    }
}

/// One property-loop step over the encoded `response_topic` property.
proof fn lemma_will_step_response_topic(s: Seq<u8>, i: int, end: int, acc: WillProps, ov: Option<Seq<u8>>)
    requires
        wf_opt_str(ov),
        0 <= i,
        i + enc_opt_data(PROP_RESPONSE_TOPIC, ov).len() <= s.len(),
        i + enc_opt_data(PROP_RESPONSE_TOPIC, ov).len() <= end,
        s.subrange(i, i + enc_opt_data(PROP_RESPONSE_TOPIC, ov).len()) == enc_opt_data(PROP_RESPONSE_TOPIC, ov),
        acc.response_topic is None,
    ensures
        parse_will_prop_items(s, i, end, acc) == parse_will_prop_items(
            s,
            i + enc_opt_data(PROP_RESPONSE_TOPIC, ov).len(),
            end,
            (WillProps { response_topic: ov, ..acc }),
        ),
{
    if ov is Some {
        let v = ov.unwrap();
        lemma_subrange_split(s, i, seq![PROP_RESPONSE_TOPIC], crate::codec::enc_data(v));
        assert(s.subrange(i, i + 1)[0] == s[i]);
        lemma_parse_enc_str(s, i + 1, v);
    }
}

/// One property-loop step over the encoded `correlation_data` property.
proof fn lemma_will_step_correlation_data(s: Seq<u8>, i: int, end: int, acc: WillProps, ov: Option<Seq<u8>>)
    requires
        wf_opt_data(ov),
        0 <= i,
        i + enc_opt_data(PROP_CORRELATION_DATA, ov).len() <= s.len(),
        i + enc_opt_data(PROP_CORRELATION_DATA, ov).len() <= end,
        s.subrange(i, i + enc_opt_data(PROP_CORRELATION_DATA, ov).len()) == enc_opt_data(PROP_CORRELATION_DATA, ov),
        acc.correlation_data is None,
    ensures
        parse_will_prop_items(s, i, end, acc) == parse_will_prop_items(
            s,
            i + enc_opt_data(PROP_CORRELATION_DATA, ov).len(),
            end,
            (WillProps { correlation_data: ov, ..acc }),
        ),
{
    if ov is Some {
        let v = ov.unwrap();
        lemma_subrange_split(s, i, seq![PROP_CORRELATION_DATA], crate::codec::enc_data(v));
        assert(s.subrange(i, i + 1)[0] == s[i]);
        lemma_parse_enc_data(s, i + 1, v);
    }
}

/// One property-loop step over the encoded `will_delay_interval` property.
proof fn lemma_will_step_will_delay_interval(s: Seq<u8>, i: int, end: int, acc: WillProps, ov: Option<u32>)
    requires
        0 <= i,
        i + enc_opt_u32(PROP_WILL_DELAY_INTERVAL, ov).len() <= s.len(),
        i + enc_opt_u32(PROP_WILL_DELAY_INTERVAL, ov).len() <= end,
        s.subrange(i, i + enc_opt_u32(PROP_WILL_DELAY_INTERVAL, ov).len()) == enc_opt_u32(PROP_WILL_DELAY_INTERVAL, ov),
        acc.will_delay_interval is None,
    ensures
        parse_will_prop_items(s, i, end, acc) == parse_will_prop_items(
            s,
            i + enc_opt_u32(PROP_WILL_DELAY_INTERVAL, ov).len(),
            end,
            (WillProps { will_delay_interval: ov, ..acc }),
        ),
{
    if ov is Some {
        let v = ov.unwrap();
        lemma_subrange_split(s, i, seq![PROP_WILL_DELAY_INTERVAL], crate::codec::enc_u32(v));
        assert(s.subrange(i, i + 1)[0] == s[i]);
        lemma_parse_enc_u32(s, i + 1, v);
    }
}

/// The accumulator after the first 3 properties are consumed.
pub open spec fn will_acc_1(p: WillProps) -> WillProps {
    WillProps {
        payload_format_indicator: p.payload_format_indicator,
        message_expiry_interval: p.message_expiry_interval,
        content_type: p.content_type,
        response_topic: None,
        correlation_data: None,
        will_delay_interval: None,
    }
}

/// Walking the property loop over one encoded segment.
#[verifier::spinoff_prover]
#[verifier::rlimit(100)]
proof fn lemma_will_chain_a(s: Seq<u8>, i: int, end: int, p: WillProps)
    requires
        wf_will_props(p),
        0 <= i,
        i + enc_will_items_a(p).len() <= s.len(),
        i + enc_will_items_a(p).len() <= end,
        s.subrange(i, i + enc_will_items_a(p).len()) == enc_will_items_a(p),
    ensures
        parse_will_prop_items(s, i, end, will_props_none()) == parse_will_prop_items(
            s,
            i + enc_will_items_a(p).len(),
            end,
            will_acc_1(p),
        ),
{
    assert(enc_will_items_a(p) =~= enc_opt_u8p(PROP_PAYLOAD_FORMAT_INDICATOR, p.payload_format_indicator) + (enc_opt_u32(PROP_MESSAGE_EXPIRY_INTERVAL, p.message_expiry_interval) + (enc_opt_data(PROP_CONTENT_TYPE, p.content_type))));
    lemma_subrange_split(s, i, enc_opt_u8p(PROP_PAYLOAD_FORMAT_INDICATOR, p.payload_format_indicator), enc_opt_u32(PROP_MESSAGE_EXPIRY_INTERVAL, p.message_expiry_interval) + (enc_opt_data(PROP_CONTENT_TYPE, p.content_type)));
    let j0 = i + enc_opt_u8p(PROP_PAYLOAD_FORMAT_INDICATOR, p.payload_format_indicator).len();
    lemma_subrange_split(s, j0, enc_opt_u32(PROP_MESSAGE_EXPIRY_INTERVAL, p.message_expiry_interval), enc_opt_data(PROP_CONTENT_TYPE, p.content_type));
    let j1 = j0 + enc_opt_u32(PROP_MESSAGE_EXPIRY_INTERVAL, p.message_expiry_interval).len();
    let j2 = j1 + enc_opt_data(PROP_CONTENT_TYPE, p.content_type).len();
    let acc0 = will_props_none();
    lemma_will_step_payload_format_indicator(s, i, end, acc0, p.payload_format_indicator);
    let acc1 = WillProps { payload_format_indicator: p.payload_format_indicator, ..acc0 };
    lemma_will_step_message_expiry_interval(s, j0, end, acc1, p.message_expiry_interval);
    let acc2 = WillProps { message_expiry_interval: p.message_expiry_interval, ..acc1 };
    lemma_will_step_content_type(s, j1, end, acc2, p.content_type);
    let acc3 = WillProps { content_type: p.content_type, ..acc2 };
    assert(acc3 =~= will_acc_1(p));
}

/// The accumulator after the first 6 properties are consumed.
pub open spec fn will_acc_2(p: WillProps) -> WillProps {
    WillProps {
        payload_format_indicator: p.payload_format_indicator,
        message_expiry_interval: p.message_expiry_interval,
        content_type: p.content_type,
        response_topic: p.response_topic,
        correlation_data: p.correlation_data,
        will_delay_interval: p.will_delay_interval,
    }
}

/// Walking the property loop over one encoded segment.
#[verifier::spinoff_prover]
#[verifier::rlimit(100)]
proof fn lemma_will_chain_b(s: Seq<u8>, i: int, end: int, p: WillProps)
    requires
        wf_will_props(p),
        0 <= i,
        i + enc_will_items_b(p).len() <= s.len(),
        i + enc_will_items_b(p).len() <= end,
        s.subrange(i, i + enc_will_items_b(p).len()) == enc_will_items_b(p),
    ensures
        parse_will_prop_items(s, i, end, will_acc_1(p)) == parse_will_prop_items(
            s,
            i + enc_will_items_b(p).len(),
            end,
            will_acc_2(p),
        ),
{
    assert(enc_will_items_b(p) =~= enc_opt_data(PROP_RESPONSE_TOPIC, p.response_topic) + (enc_opt_data(PROP_CORRELATION_DATA, p.correlation_data) + (enc_opt_u32(PROP_WILL_DELAY_INTERVAL, p.will_delay_interval))));
    lemma_subrange_split(s, i, enc_opt_data(PROP_RESPONSE_TOPIC, p.response_topic), enc_opt_data(PROP_CORRELATION_DATA, p.correlation_data) + (enc_opt_u32(PROP_WILL_DELAY_INTERVAL, p.will_delay_interval)));
    let j0 = i + enc_opt_data(PROP_RESPONSE_TOPIC, p.response_topic).len();
    lemma_subrange_split(s, j0, enc_opt_data(PROP_CORRELATION_DATA, p.correlation_data), enc_opt_u32(PROP_WILL_DELAY_INTERVAL, p.will_delay_interval));
    let j1 = j0 + enc_opt_data(PROP_CORRELATION_DATA, p.correlation_data).len();
    let j2 = j1 + enc_opt_u32(PROP_WILL_DELAY_INTERVAL, p.will_delay_interval).len();
    let acc0 = will_acc_1(p);
    lemma_will_step_response_topic(s, i, end, acc0, p.response_topic);
    let acc1 = WillProps { response_topic: p.response_topic, ..acc0 };
    lemma_will_step_correlation_data(s, j0, end, acc1, p.correlation_data);
    let acc2 = WillProps { correlation_data: p.correlation_data, ..acc1 };
    lemma_will_step_will_delay_interval(s, j1, end, acc2, p.will_delay_interval);
    let acc3 = WillProps { will_delay_interval: p.will_delay_interval, ..acc2 };
    assert(acc3 =~= will_acc_2(p));
}

/// Parsing an encoded Will property region yields the fields back.
#[verifier::spinoff_prover]
#[verifier::rlimit(100)]
pub proof fn lemma_parse_enc_will_props(s: Seq<u8>, i: int, p: WillProps)
    requires
        wf_will_props(p),
        enc_will_prop_items(p).len() <= VBI_MAX,
        0 <= i,
        i + enc_will_props(p).len() <= s.len(),
        s.subrange(i, i + enc_will_props(p).len()) == enc_will_props(p),
    ensures
        parse_will_props(s, i) == (Parsed::Found {
            val: p,
            next: i + enc_will_props(p).len(),
        }),
{
    let items = enc_will_prop_items(p);
    let lenb = enc_vbi(items.len() as u32);
    lemma_enc_vbi_len(items.len() as u32);
    lemma_subrange_split(s, i, lenb, items);
    lemma_parse_enc_vbi(s, i, items.len() as u32);
    let j0 = i + lenb.len();
    let end = j0 + items.len();
    assert(items =~= enc_will_items_a(p) + (enc_will_items_b(p)));
    lemma_subrange_split(s, j0, enc_will_items_a(p), enc_will_items_b(p));
    lemma_will_chain_a(s, j0, end, p);
    let k0 = j0 + enc_will_items_a(p).len();
    lemma_will_chain_b(s, k0, end, p);
    let k1 = k0 + enc_will_items_b(p).len();
    assert(parse_will_prop_items(s, k1, end, will_acc_2(p)) == (Parsed::Found {
        val: will_acc_2(p),
        next: end,
    }));
    assert(will_acc_2(p) =~= p);
}

/// Reads a Will property region.
#[verifier::spinoff_prover]
#[verifier::rlimit(100)]
pub fn read_will_props(s: &[u8], pos: usize) -> (r: Result<((Option<u8>, Option<u32>, Option<Vec<u8>>, Option<Vec<u8>>, Option<Vec<u8>>, Option<u32>), usize), CodecError>)
    requires
        pos <= s@.len(),
    ensures
        (match parse_will_props(s@, pos as int) {
            Parsed::Found { val, next } => r matches Ok(x) && x.0.0 == val.payload_format_indicator
                && x.0.1 == val.message_expiry_interval
                && view_opt_bytes(x.0.2) == val.content_type
                && view_opt_bytes(x.0.3) == val.response_topic
                && view_opt_bytes(x.0.4) == val.correlation_data
                && x.0.5 == val.will_delay_interval
                && x.1 == next && pos < next <= s@.len() && next <= usize::MAX,
            Parsed::Incomplete => r matches Err(e) && e == CodecError::InsufficientBytes,
            Parsed::Malformed => r matches Err(e) && e == CodecError::MalformedBytes,
        }),
{
    let (plen, p0) = read_vbi(s, pos)?;
    let ghost end = p0 as int + plen as int;
    let mut payload_format_indicator: Option<u8> = None;
    let mut message_expiry_interval: Option<u32> = None;
    let mut content_type: Option<Vec<u8>> = None;
    let mut response_topic: Option<Vec<u8>> = None;
    let mut correlation_data: Option<Vec<u8>> = None;
    let mut will_delay_interval: Option<u32> = None;
    let mut cur: usize = p0;
    while cur - p0 < plen as usize
        invariant
            pos < p0 <= cur <= s@.len(),
            end == p0 as int + plen as int,
            parse_will_props(s@, pos as int) == parse_will_prop_items(
                s@,
                cur as int,
                end,
                WillProps {
                    payload_format_indicator: payload_format_indicator,
                    message_expiry_interval: message_expiry_interval,
                    content_type: view_opt_bytes(content_type),
                    response_topic: view_opt_bytes(response_topic),
                    correlation_data: view_opt_bytes(correlation_data),
                    will_delay_interval: will_delay_interval,
                },
            ),
        decreases rem(cur as int, end),
    {
        let (id, p1) = read_u8(s, cur)?;
        if id == PROP_PAYLOAD_FORMAT_INDICATOR {
            let (v, p2) = read_u8(s, p1)?;
            if payload_format_indicator.is_some() {
                return Err(CodecError::MalformedBytes);
            }
            payload_format_indicator = Some(v);
            cur = p2;
        } else if id == PROP_MESSAGE_EXPIRY_INTERVAL {
            let (v, p2) = read_u32(s, p1)?;
            if message_expiry_interval.is_some() {
                return Err(CodecError::MalformedBytes);
            }
            message_expiry_interval = Some(v);
            cur = p2;
        } else if id == PROP_CONTENT_TYPE {
            let (v, p2) = read_str(s, p1)?;
            if content_type.is_some() {
                return Err(CodecError::MalformedBytes);
            }
            content_type = Some(v);
            cur = p2;
        } else if id == PROP_RESPONSE_TOPIC {
            let (v, p2) = read_str(s, p1)?;
            if response_topic.is_some() {
                return Err(CodecError::MalformedBytes);
            }
            response_topic = Some(v);
            cur = p2;
        } else if id == PROP_CORRELATION_DATA {
            let (v, p2) = read_data(s, p1)?;
            if correlation_data.is_some() {
                return Err(CodecError::MalformedBytes);
            }
            correlation_data = Some(v);
            cur = p2;
        } else if id == PROP_WILL_DELAY_INTERVAL {
            let (v, p2) = read_u32(s, p1)?;
            if will_delay_interval.is_some() {
                return Err(CodecError::MalformedBytes);
            }
            will_delay_interval = Some(v);
            cur = p2;
        } else {
            return Err(CodecError::MalformedBytes);
        }
    }
    Ok(
        (
            (
                payload_format_indicator,
                message_expiry_interval,
                content_type,
                response_topic,
                correlation_data,
                will_delay_interval,
            ),
            cur,
        ),
    )
}

/// The property fields of the packet, written only when they differ
/// from their protocol defaults.
pub open spec fn will_props_of(v: WillView) -> WillProps {
    WillProps {
        payload_format_indicator: if v.payload_format_indicator != 0 {
            Some(v.payload_format_indicator)
        } else {
            None
        },
        message_expiry_interval: v.message_expiry_interval,
        content_type: v.content_type,
        response_topic: v.response_topic,
        correlation_data: v.correlation_data,
        will_delay_interval: if v.will_delay_interval != 0 {
            Some(v.will_delay_interval)
        } else {
            None
        },
    }
}

/// Number of bytes of one segment of the encoded property items.
#[verifier::spinoff_prover]
#[verifier::rlimit(100)]
fn will_items_size_a(p: &Will) -> (n: usize)
    requires
        p@.wf(),
    ensures
        n == enc_will_items_a(will_props_of(p@)).len(),
        n <= 3 * (3 + 0xFFFF),
{
    let mut items_len: usize = 0;
    if p.payload_format_indicator != 0 {
        items_len = items_len + 2;
    }
    if p.message_expiry_interval.is_some() {
        items_len = items_len + 5;
    }
    if let Some(v) = &p.content_type {
        items_len = items_len + 3 + v.len();
    }
    items_len
}

/// Number of bytes of one segment of the encoded property items.
#[verifier::spinoff_prover]
#[verifier::rlimit(100)]
fn will_items_size_b(p: &Will) -> (n: usize)
    requires
        p@.wf(),
    ensures
        n == enc_will_items_b(will_props_of(p@)).len(),
        n <= 3 * (3 + 0xFFFF),
{
    let mut items_len: usize = 0;
    if let Some(v) = &p.response_topic {
        items_len = items_len + 3 + v.len();
    }
    if let Some(v) = &p.correlation_data {
        items_len = items_len + 3 + v.len();
    }
    if p.will_delay_interval != 0 {
        items_len = items_len + 5;
    }
    items_len
}

/// Number of bytes of the encoded Will property items, without the
/// length prefix.
pub fn will_prop_items_size(p: &Will) -> (n: usize)
    requires
        p@.wf(),
    ensures
        n == enc_will_prop_items(will_props_of(p@)).len(),
        n <= 6 * (3 + 0xFFFF),
{
    will_items_size_a(p) + will_items_size_b(p)
}

/// Writes one segment of the property items.
#[verifier::spinoff_prover]
#[verifier::rlimit(100)]
fn write_will_items_a(buf: &mut Vec<u8>, pos: usize, p: &Will) -> (n: usize)
    requires
        p@.wf(),
        pos + enc_will_items_a(will_props_of(p@)).len() <= old(buf)@.len(),
    ensures
        final(buf)@ == spliced(old(buf)@, pos as int, enc_will_items_a(will_props_of(p@))),
        final(buf)@.len() == old(buf)@.len(),
        n == enc_will_items_a(will_props_of(p@)).len(),
{
    let ghost pr = will_props_of(p@);
    // Binding the length teaches the prover that positions fit in usize.
    let buf_len: usize = buf.len();
    let mut w: usize = 0;
    proof {
        crate::codec::lemma_spliced_empty(old(buf)@, pos as int);
    }
    let ghost done = Seq::<u8>::empty();
    if p.payload_format_indicator != 0 {
        proof {
            lemma_spliced_concat(old(buf)@, pos as int, done, seq![PROP_PAYLOAD_FORMAT_INDICATOR, p.payload_format_indicator]);
        }
        write_prop_u8(buf, pos + w, PROP_PAYLOAD_FORMAT_INDICATOR, p.payload_format_indicator);
        w = w + 2;
    }
    let ghost done1 = done + enc_opt_u8p(PROP_PAYLOAD_FORMAT_INDICATOR, pr.payload_format_indicator);
    proof {
        if pr.payload_format_indicator is None {
            assert(done1 =~= done);
        }
        assert(buf@ == spliced(old(buf)@, pos as int, done1));
        assert(w == done1.len());
    }
    if let Some(x) = p.message_expiry_interval {
        proof {
            lemma_spliced_concat(old(buf)@, pos as int, done1, seq![PROP_MESSAGE_EXPIRY_INTERVAL] + crate::codec::enc_u32(x));
        }
        write_prop_u32(buf, pos + w, PROP_MESSAGE_EXPIRY_INTERVAL, x);
        w = w + 5;
    }
    let ghost done2 = done1 + enc_opt_u32(PROP_MESSAGE_EXPIRY_INTERVAL, pr.message_expiry_interval);
    proof {
        if pr.message_expiry_interval is None {
            assert(done2 =~= done1);
        }
        assert(buf@ == spliced(old(buf)@, pos as int, done2));
        assert(w == done2.len());
    }
    if let Some(v) = &p.content_type {
        proof {
            lemma_spliced_concat(old(buf)@, pos as int, done2, seq![PROP_CONTENT_TYPE] + crate::codec::enc_data(v@));
        }
        write_prop_data(buf, pos + w, PROP_CONTENT_TYPE, v.as_slice());
        w = w + 3 + v.len();
    }
    let ghost done3 = done2 + enc_opt_data(PROP_CONTENT_TYPE, pr.content_type);
    proof {
        if pr.content_type is None {
            assert(done3 =~= done2);
        }
        assert(buf@ == spliced(old(buf)@, pos as int, done3));
        assert(w == done3.len());
    }
    proof {
        assert(done3 =~= enc_will_items_a(pr));
    }
    w
}

/// Writes one segment of the property items.
#[verifier::spinoff_prover]
#[verifier::rlimit(100)]
fn write_will_items_b(buf: &mut Vec<u8>, pos: usize, p: &Will) -> (n: usize)
    requires
        p@.wf(),
        pos + enc_will_items_b(will_props_of(p@)).len() <= old(buf)@.len(),
    ensures
        final(buf)@ == spliced(old(buf)@, pos as int, enc_will_items_b(will_props_of(p@))),
        final(buf)@.len() == old(buf)@.len(),
        n == enc_will_items_b(will_props_of(p@)).len(),
{
    let ghost pr = will_props_of(p@);
    // Binding the length teaches the prover that positions fit in usize.
    let buf_len: usize = buf.len();
    let mut w: usize = 0;
    proof {
        crate::codec::lemma_spliced_empty(old(buf)@, pos as int);
    }
    let ghost done = Seq::<u8>::empty();
    if let Some(v) = &p.response_topic {
        proof {
            lemma_spliced_concat(old(buf)@, pos as int, done, seq![PROP_RESPONSE_TOPIC] + crate::codec::enc_data(v@));
        }
        write_prop_data(buf, pos + w, PROP_RESPONSE_TOPIC, v.as_slice());
        w = w + 3 + v.len();
    }
    let ghost done1 = done + enc_opt_data(PROP_RESPONSE_TOPIC, pr.response_topic);
    proof {
        if pr.response_topic is None {
            assert(done1 =~= done);
        }
        assert(buf@ == spliced(old(buf)@, pos as int, done1));
        assert(w == done1.len());
    }
    if let Some(v) = &p.correlation_data {
        proof {
            lemma_spliced_concat(old(buf)@, pos as int, done1, seq![PROP_CORRELATION_DATA] + crate::codec::enc_data(v@));
        }
        write_prop_data(buf, pos + w, PROP_CORRELATION_DATA, v.as_slice());
        w = w + 3 + v.len();
    }
    let ghost done2 = done1 + enc_opt_data(PROP_CORRELATION_DATA, pr.correlation_data);
    proof {
        if pr.correlation_data is None {
            assert(done2 =~= done1);
        }
        assert(buf@ == spliced(old(buf)@, pos as int, done2));
        assert(w == done2.len());
    }
    if p.will_delay_interval != 0 {
        let x = p.will_delay_interval;
        proof {
            lemma_spliced_concat(old(buf)@, pos as int, done2, seq![PROP_WILL_DELAY_INTERVAL] + crate::codec::enc_u32(x));
        }
        write_prop_u32(buf, pos + w, PROP_WILL_DELAY_INTERVAL, x);
        w = w + 5;
    }
    let ghost done3 = done2 + enc_opt_u32(PROP_WILL_DELAY_INTERVAL, pr.will_delay_interval);
    proof {
        if pr.will_delay_interval is None {
            assert(done3 =~= done2);
        }
        assert(buf@ == spliced(old(buf)@, pos as int, done3));
        assert(w == done3.len());
    }
    proof {
        assert(done3 =~= enc_will_items_b(pr));
    }
    w
}

/// Writes a Will property region.
#[verifier::spinoff_prover]
#[verifier::rlimit(100)]
pub fn write_will_props(buf: &mut Vec<u8>, pos: usize, p: &Will) -> (n: usize)
    requires
        p@.wf(),
        pos + enc_will_props(will_props_of(p@)).len() <= old(buf)@.len(),
    ensures
        final(buf)@ == spliced(old(buf)@, pos as int, enc_will_props(will_props_of(p@))),
        final(buf)@.len() == old(buf)@.len(),
        n == enc_will_props(will_props_of(p@)).len(),
{
    let ghost pr = will_props_of(p@);
    // Binding the length teaches the prover that positions fit in usize.
    let buf_len: usize = buf.len();
    let items_len = will_prop_items_size(p);
    proof {
        lemma_enc_vbi_len(items_len as u32);
    }
    let mut w = write_vbi(buf, pos, items_len as u32);
    let ghost done0 = enc_vbi(items_len as u32);
    proof {
        lemma_spliced_concat(old(buf)@, pos as int, done0, enc_will_items_a(pr));
    }
    let n0 = write_will_items_a(buf, pos + w, p);
    w = w + n0;
    let ghost done1 = done0 + enc_will_items_a(pr);
    proof {
        lemma_spliced_concat(old(buf)@, pos as int, done1, enc_will_items_b(pr));
    }
    let n1 = write_will_items_b(buf, pos + w, p);
    w = w + n1;
    let ghost done2 = done1 + enc_will_items_b(pr);
    proof {
        assert(done2 =~= enc_will_props(pr));
    }
    w
}

/// The protocol name "MQTT" as its four ASCII bytes.
pub open spec fn mqtt_name() -> Seq<u8> {
    seq![0x4Du8, 0x51u8, 0x54u8, 0x54u8]
}

pub const PROTOCOL_VERSION: u8 = 5;

/// The four ASCII bytes of the protocol name are a valid UTF-8 encoding.
pub proof fn lemma_mqtt_name_valid_utf8()
    ensures
        vstd::utf8::valid_utf8(mqtt_name()),
{
    let s4 = mqtt_name();
    let s3 = seq![0x51u8, 0x54u8, 0x54u8];
    let s2 = seq![0x54u8, 0x54u8];
    let s1 = seq![0x54u8];
    let s0 = Seq::<u8>::empty();
    reveal_with_fuel(vstd::utf8::valid_utf8, 6);
    assert(vstd::utf8::pop_first_scalar(s4) =~= s3);
    assert(vstd::utf8::pop_first_scalar(s3) =~= s2);
    assert(vstd::utf8::pop_first_scalar(s2) =~= s1);
    assert(vstd::utf8::pop_first_scalar(s1) =~= s0);
    assert(vstd::utf8::valid_first_scalar(s4));
    assert(vstd::utf8::valid_first_scalar(s3));
    assert(vstd::utf8::valid_first_scalar(s2));
    assert(vstd::utf8::valid_first_scalar(s1));
    assert(vstd::utf8::valid_utf8(s0));
    assert(vstd::utf8::valid_utf8(s1));
    assert(vstd::utf8::valid_utf8(s2));
    assert(vstd::utf8::valid_utf8(s3));
    assert(vstd::utf8::valid_utf8(s4));
}

/// The connect-flags byte: clean start in bit one, the will flag, QoS and
/// retain in bits two to five, the password and username flags on top.
pub open spec fn connect_flags(v: ConnectView) -> u8 {
    ((if v.clean_start {
        2int
    } else {
        0int
    }) + (match v.will {
        Some(w) => 4int + w.qos.as_byte() * 8 + (if w.retain {
            32int
        } else {
            0int
        }),
        None => 0int,
    }) + (if v.password is Some {
        64int
    } else {
        0int
    }) + (if v.username is Some {
        128int
    } else {
        0int
    })) as u8
}

impl WillView {
    /// The payload as bytes: an absent payload encodes as an empty one.
    pub open spec fn payload_bytes(self) -> Seq<u8> {
        match self.payload {
            Some(p) => p,
            None => Seq::empty(),
        }
    }

    pub open spec fn wf(self) -> bool {
        wf_str(self.topic) && wf_will_props(will_props_of(self)) && self.payload_bytes().len()
            <= 0xFFFF
    }

    /// The will's part of the Connect payload: its properties, its topic,
    /// and its payload as a length-prefixed field.
    pub open spec fn section(self) -> Seq<u8> {
        enc_will_props(will_props_of(self)) + enc_data(self.topic) + enc_data(self.payload_bytes())
    }
}

impl ConnectView {
    pub open spec fn wf(self) -> bool {
        wf_str(self.client_id) && wf_connect_props(connect_props_of(self)) && wf_opt_str(
            self.username,
        ) && wf_opt_str(self.password) && (self.will matches Some(w) ==> w.wf())
    }

    pub open spec fn will_section(self) -> Seq<u8> {
        match self.will {
            Some(w) => w.section(),
            None => Seq::empty(),
        }
    }

    pub open spec fn username_bytes(self) -> Seq<u8> {
        match self.username {
            Some(u) => enc_data(u),
            None => Seq::empty(),
        }
    }

    pub open spec fn password_bytes(self) -> Seq<u8> {
        match self.password {
            Some(p) => enc_data(p),
            None => Seq::empty(),
        }
    }

    /// Everything after the fixed header.
    pub open spec fn body(self) -> Seq<u8> {
        enc_data(mqtt_name()) + enc_u8(PROTOCOL_VERSION) + enc_u8(connect_flags(self)) + enc_u16(
            self.keep_alive,
        ) + enc_connect_props(connect_props_of(self)) + enc_data(self.client_id)
            + self.will_section() + self.username_bytes() + self.password_bytes()
    }

    /// The complete wire form.
    pub open spec fn bytes(self) -> Seq<u8> {
        seq![0x10u8] + enc_vbi(self.body().len() as u32) + self.body()
    }
}

/// The packet value a parsed Connect property set denotes, defaults applied.
pub open spec fn connect_finalize(
    p: ConnectProps,
    client_id: Seq<u8>,
    username: Option<Seq<u8>>,
    password: Option<Seq<u8>>,
    clean_start: bool,
    will: Option<WillView>,
    keep_alive: u16,
) -> ConnectView {
    ConnectView {
        client_id,
        username,
        password,
        clean_start,
        will,
        keep_alive,
        session_expiry_interval: match p.session_expiry_interval {
            Some(x) => x,
            None => 0,
        },
        authentication_method: p.authentication_method,
        authentication_data: p.authentication_data,
        request_problem_information: match p.request_problem_information {
            Some(x) => x,
            None => true,
        },
        request_response_information: match p.request_response_information {
            Some(x) => x,
            None => false,
        },
        receive_maximum: match p.receive_maximum {
            Some(x) => x,
            None => 65535,
        },
        topic_alias_maximum: match p.topic_alias_maximum {
            Some(x) => x,
            None => 0,
        },
        maximum_packet_size: p.maximum_packet_size,
    }
}

/// The will value a parsed Will property set denotes, defaults applied.
pub open spec fn will_finalize(
    p: WillProps,
    topic: Seq<u8>,
    payload: Seq<u8>,
    qos: QoS,
    retain: bool,
) -> WillView {
    WillView {
        topic,
        payload: Some(payload),
        qos,
        retain,
        payload_format_indicator: match p.payload_format_indicator {
            Some(x) => x,
            None => 0,
        },
        message_expiry_interval: p.message_expiry_interval,
        content_type: p.content_type,
        response_topic: p.response_topic,
        correlation_data: p.correlation_data,
        will_delay_interval: match p.will_delay_interval {
            Some(x) => x,
            None => 0,
        },
    }
}

/// The will section of the variable payload, read when the will flag is
/// set: the will properties, topic and payload, then the will assembled
/// under the QoS and retain bits of the connect-flags byte.
pub open spec fn parse_will(s: Seq<u8>, i: int, cf: u8) -> Parsed<WillView> {
    match parse_will_props(s, i) {
        Parsed::Found { val: p, next: j } => {
            match parse_str(s, j) {
                Parsed::Found { val: topic, next: k } => {
                    match parse_data(s, k) {
                        Parsed::Found { val: payload, next: m } => {
                            match QoS::spec_from(((cf as int / 8) % 4) as u8) {
                                Some(qos) => Parsed::Found {
                                    val: will_finalize(
                                        p,
                                        topic,
                                        payload,
                                        qos,
                                        (cf as int / 32) % 2 == 1,
                                    ),
                                    next: m,
                                },
                                None => Parsed::Malformed,
                            }
                        },
                        Parsed::Incomplete => Parsed::Incomplete,
                        Parsed::Malformed => Parsed::Malformed,
                    }
                },
                Parsed::Incomplete => Parsed::Incomplete,
                Parsed::Malformed => Parsed::Malformed,
            }
        },
        Parsed::Incomplete => Parsed::Incomplete,
        Parsed::Malformed => Parsed::Malformed,
    }
}

/// An optional length-prefixed string, read when its flag bit is set.
pub open spec fn parse_opt_str(s: Seq<u8>, i: int, present: bool) -> Parsed<Option<Seq<u8>>> {
    if present {
        match parse_str(s, i) {
            Parsed::Found { val, next } => Parsed::Found { val: Some(val), next },
            Parsed::Incomplete => Parsed::Incomplete,
            Parsed::Malformed => Parsed::Malformed,
        }
    } else {
        Parsed::Found { val: None, next: i }
    }
}

/// The variable header and payload of a Connect packet.
pub open spec fn parse_connect(s: Seq<u8>, i: int, flags: u8, rl: u32) -> Parsed<ConnectView> {
    if flags != 0x00 {
        Parsed::Malformed
    } else {
        match parse_str(s, i) {
            Parsed::Found { val: pname, next: j0 } => {
                if pname != mqtt_name() {
                    Parsed::Malformed
                } else {
                    match parse_u8(s, j0) {
                        Parsed::Found { val: ver, next: j1 } => {
                            if ver != PROTOCOL_VERSION {
                                Parsed::Malformed
                            } else {
                                match parse_u8(s, j1) {
                                    Parsed::Found { val: cf, next: j2 } => {
                                        match parse_u16(s, j2) {
                                            Parsed::Found { val: keep_alive, next: j3 } => {
                                                parse_connect_rest(s, j3, cf, keep_alive)
                                            },
                                            _ => Parsed::Incomplete,
                                        }
                                    },
                                    _ => Parsed::Incomplete,
                                }
                            }
                        },
                        _ => Parsed::Incomplete,
                    }
                }
            },
            Parsed::Incomplete => Parsed::Incomplete,
            Parsed::Malformed => Parsed::Malformed,
        }
    }
}

/// The properties and payload of a Connect packet, after the keep-alive.
pub open spec fn parse_connect_rest(s: Seq<u8>, i: int, cf: u8, keep_alive: u16) -> Parsed<
    ConnectView,
> {
    match parse_connect_props(s, i) {
        Parsed::Found { val: p, next: j4 } => {
            match parse_str(s, j4) {
                Parsed::Found { val: client_id, next: j5 } => {
                    let willp: Parsed<Option<WillView>> = if (cf as int / 4) % 2 == 1 {
                        match parse_will(s, j5, cf) {
                            Parsed::Found { val: w, next } => Parsed::Found {
                                val: Some(w),
                                next,
                            },
                            Parsed::Incomplete => Parsed::Incomplete,
                            Parsed::Malformed => Parsed::Malformed,
                        }
                    } else {
                        Parsed::Found { val: None, next: j5 }
                    };
                    match willp {
                        Parsed::Found { val: will, next: j6 } => {
                            match parse_opt_str(s, j6, (cf as int / 128) % 2 == 1) {
                                Parsed::Found { val: username, next: j7 } => {
                                    match parse_opt_str(s, j7, (cf as int / 64) % 2 == 1) {
                                        Parsed::Found { val: password, next: j8 } => {
                                            Parsed::Found {
                                                val: connect_finalize(
                                                    p,
                                                    client_id,
                                                    username,
                                                    password,
                                                    (cf as int / 2) % 2 == 1,
                                                    will,
                                                    keep_alive,
                                                ),
                                                next: j8,
                                            }
                                        },
                                        Parsed::Incomplete => Parsed::Incomplete,
                                        Parsed::Malformed => Parsed::Malformed,
                                    }
                                },
                                Parsed::Incomplete => Parsed::Incomplete,
                                Parsed::Malformed => Parsed::Malformed,
                            }
                        },
                        Parsed::Incomplete => Parsed::Incomplete,
                        Parsed::Malformed => Parsed::Malformed,
                    }
                },
                Parsed::Incomplete => Parsed::Incomplete,
                Parsed::Malformed => Parsed::Malformed,
            }
        },
        Parsed::Incomplete => Parsed::Incomplete,
        Parsed::Malformed => Parsed::Malformed,
    }
}


/// Each encoded Connect property fits a small constant.
#[verifier::spinoff_prover]
pub proof fn lemma_connect_items_bound(p: ConnectProps)
    requires
        wf_connect_props(p),
    ensures
        enc_connect_prop_items(p).len() <= 8 * (3 + 0xFFFF),
{
    assert(enc_opt_u32(PROP_SESSION_EXPIRY_INTERVAL, p.session_expiry_interval).len() <= 5);
    assert(enc_opt_data(PROP_AUTHENTICATION_METHOD, p.authentication_method).len() <= 3 + 0xFFFF);
    assert(enc_opt_data(PROP_AUTHENTICATION_DATA, p.authentication_data).len() <= 3 + 0xFFFF);
    assert(enc_opt_bool(PROP_REQUEST_PROBLEM_INFORMATION, p.request_problem_information).len()
        <= 2);
    assert(enc_opt_bool(PROP_REQUEST_RESPONSE_INFORMATION, p.request_response_information).len()
        <= 2);
    assert(enc_opt_u16(PROP_RECEIVE_MAXIMUM, p.receive_maximum).len() <= 3);
    assert(enc_opt_u16(PROP_TOPIC_ALIAS_MAXIMUM, p.topic_alias_maximum).len() <= 3);
    assert(enc_opt_u32(PROP_MAXIMUM_PACKET_SIZE, p.maximum_packet_size).len() <= 5);
}

/// Each encoded Will property fits a small constant.
#[verifier::spinoff_prover]
pub proof fn lemma_will_items_bound(p: WillProps)
    requires
        wf_will_props(p),
    ensures
        enc_will_prop_items(p).len() <= 6 * (3 + 0xFFFF),
{
    assert(enc_opt_u8p(PROP_PAYLOAD_FORMAT_INDICATOR, p.payload_format_indicator).len() <= 2);
    assert(enc_opt_u32(PROP_MESSAGE_EXPIRY_INTERVAL, p.message_expiry_interval).len() <= 5);
    assert(enc_opt_data(PROP_CONTENT_TYPE, p.content_type).len() <= 3 + 0xFFFF);
    assert(enc_opt_data(PROP_RESPONSE_TOPIC, p.response_topic).len() <= 3 + 0xFFFF);
    assert(enc_opt_data(PROP_CORRELATION_DATA, p.correlation_data).len() <= 3 + 0xFFFF);
    assert(enc_opt_u32(PROP_WILL_DELAY_INTERVAL, p.will_delay_interval).len() <= 5);
}

/// The encoded body of a well-formed Connect packet fits a Variable Byte
/// Integer.
#[verifier::spinoff_prover]
pub proof fn lemma_connect_body_bound(v: ConnectView)
    requires
        v.wf(),
    ensures
        v.body().len() <= crate::codec::VBI_MAX,
{
    lemma_connect_items_bound(connect_props_of(v));
    lemma_enc_vbi_len(enc_connect_prop_items(connect_props_of(v)).len() as u32);
    match v.will {
        Some(w) => {
            lemma_will_items_bound(will_props_of(w));
            lemma_enc_vbi_len(enc_will_prop_items(will_props_of(w)).len() as u32);
            assert(w.section().len() <= 4 + 6 * (3 + 0xFFFF) + 4 + 2 * 0xFFFF);
        },
        None => {},
    }
}

/// The connect-flags byte decodes back to its components.
pub proof fn lemma_connect_flags_roundtrip(v: ConnectView)
    ensures
        (connect_flags(v) as int / 2) % 2 == (if v.clean_start {
            1int
        } else {
            0int
        }),
        (connect_flags(v) as int / 4) % 2 == (if v.will is Some {
            1int
        } else {
            0int
        }),
        (connect_flags(v) as int / 8) % 4 == (match v.will {
            Some(w) => w.qos.as_byte() as int,
            None => 0int,
        }),
        (connect_flags(v) as int / 32) % 2 == (match v.will {
            Some(w) => if w.retain {
                1int
            } else {
                0int
            },
            None => 0int,
        }),
        (connect_flags(v) as int / 64) % 2 == (if v.password is Some {
            1int
        } else {
            0int
        }),
        (connect_flags(v) as int / 128) % 2 == (if v.username is Some {
            1int
        } else {
            0int
        }),
{
    match v.will {
        Some(w) => {
            assert(w.qos.as_byte() <= 2);
        },
        None => {},
    }
}

impl Will {
    pub fn new(
        topic: Vec<u8>,
        payload: Option<Vec<u8>>,
        qos: QoS,
        retain: bool,
        payload_format_indicator: u8,
        message_expiry_interval: Option<u32>,
        content_type: Option<Vec<u8>>,
        response_topic: Option<Vec<u8>>,
        correlation_data: Option<Vec<u8>>,
        will_delay_interval: u32,
    ) -> (r: Will)
        ensures
            r@ == (WillView {
                topic: topic@,
                payload: view_opt_bytes(payload),
                qos,
                retain,
                payload_format_indicator,
                message_expiry_interval,
                content_type: view_opt_bytes(content_type),
                response_topic: view_opt_bytes(response_topic),
                correlation_data: view_opt_bytes(correlation_data),
                will_delay_interval,
            }),
    {
        Will {
            topic,
            payload,
            qos,
            retain,
            payload_format_indicator,
            message_expiry_interval,
            content_type,
            response_topic,
            correlation_data,
            will_delay_interval,
        }
    }
}

/// Number of bytes of the will's part of the Connect payload.
pub fn will_section_size(w: &Will) -> (n: usize)
    requires
        w@.wf(),
    ensures
        n == w@.section().len(),
        n <= 4 + 6 * (3 + 0xFFFF) + 4 + 2 * 0xFFFF,
{
    let items = will_prop_items_size(w);
    proof {
        lemma_enc_vbi_len(items as u32);
    }
    let payload_len: usize = match &w.payload {
        Some(p) => p.len(),
        None => 0,
    };
    vbi_size(items as u32) + items + 2 + w.topic.len() + 2 + payload_len
}

/// Writes the will's part of the Connect payload.
#[verifier::spinoff_prover]
#[verifier::rlimit(100)]
pub fn write_will_section(buf: &mut Vec<u8>, pos: usize, w: &Will) -> (n: usize)
    requires
        w@.wf(),
        pos + w@.section().len() <= old(buf)@.len(),
    ensures
        final(buf)@ == spliced(old(buf)@, pos as int, w@.section()),
        final(buf)@.len() == old(buf)@.len(),
        n == w@.section().len(),
{
    // Binding the length teaches the prover that positions fit in usize.
    let buf_len: usize = buf.len();
    let pn = write_will_props(buf, pos, w);
    let ghost done = enc_will_props(will_props_of(w@));
    proof {
        lemma_spliced_concat(old(buf)@, pos as int, done, enc_data(w@.topic));
    }
    write_data(buf, pos + pn, w.topic.as_slice());
    let ghost done = done + enc_data(w@.topic);
    let t = pos + pn + 2 + w.topic.len();
    match &w.payload {
        Some(p) => {
            proof {
                lemma_spliced_concat(old(buf)@, pos as int, done, enc_data(p@));
            }
            write_data(buf, t, p.as_slice());
            proof {
                assert(done + enc_data(w@.payload_bytes()) =~= w@.section());
            }
            pn + 2 + w.topic.len() + 2 + p.len()
        },
        None => {
            proof {
                assert(enc_data(w@.payload_bytes()) =~= crate::codec::enc_u16(0));
                lemma_spliced_concat(old(buf)@, pos as int, done, crate::codec::enc_u16(0));
            }
            write_u16(buf, t, 0);
            proof {
                assert(done + crate::codec::enc_u16(0) =~= w@.section());
            }
            pn + 2 + w.topic.len() + 2
        },
    }
}

/// Parsing an encoded will section yields the will back, under the QoS and
/// retain bits of the connect-flags byte; an absent payload decodes as an
/// empty one.
#[verifier::spinoff_prover]
#[verifier::rlimit(100)]
pub proof fn lemma_parse_enc_will(s: Seq<u8>, i: int, w: WillView, cf: u8)
    requires
        w.wf(),
        w.payload is Some,
        0 <= i,
        i + w.section().len() <= s.len(),
        s.subrange(i, i + w.section().len()) == w.section(),
        QoS::spec_from(((cf as int / 8) % 4) as u8) == Some(w.qos),
        ((cf as int / 32) % 2 == 1) == w.retain,
    ensures
        parse_will(s, i, cf) == (Parsed::Found { val: w, next: i + w.section().len() }),
{
    let p = will_props_of(w);
    let a = enc_will_props(p);
    let b = enc_data(w.topic);
    let c = enc_data(w.payload_bytes());
    lemma_will_items_bound(p);
    lemma_enc_vbi_len(enc_will_prop_items(p).len() as u32);
    assert(w.section() =~= a + (b + c));
    lemma_subrange_split(s, i, a, b + c);
    lemma_parse_enc_will_props(s, i, p);
    let j = i + a.len();
    lemma_subrange_split(s, j, b, c);
    lemma_parse_enc_str(s, j, w.topic);
    let k = j + b.len();
    lemma_parse_enc_data(s, k, w.payload_bytes());
    assert(will_finalize(p, w.topic, w.payload_bytes(), w.qos, (cf as int / 32) % 2 == 1) =~= w);
}

/// Reads the will section, under the QoS and retain bits of the
/// connect-flags byte.
#[verifier::spinoff_prover]
#[verifier::rlimit(100)]
pub fn read_will(s: &[u8], pos: usize, cf: u8) -> (r: Result<(Will, usize), CodecError>)
    requires
        pos <= s@.len(),
    ensures
        (match parse_will(s@, pos as int, cf) {
            Parsed::Found { val, next } => r matches Ok(x) && x.0@ == val && x.1 == next && pos
                < next <= s@.len() && next <= usize::MAX,
            Parsed::Incomplete => r matches Err(e) && e == CodecError::InsufficientBytes,
            Parsed::Malformed => r matches Err(e) && e == CodecError::MalformedBytes,
        }),
{
    let (
        (
            payload_format_indicator,
            message_expiry_interval,
            content_type,
            response_topic,
            correlation_data,
            will_delay_interval,
        ),
        q0,
    ) = read_will_props(s, pos)?;
    let (topic, q1) = read_str(s, q0)?;
    let (payload, q2) = read_data(s, q1)?;
    let qos = QoS::new((cf / 8) % 4)?;
    Ok(
        (
            Will {
                topic,
                payload: Some(payload),
                qos,
                retain: (cf / 32) % 2 == 1,
                payload_format_indicator: match payload_format_indicator {
                    Some(x) => x,
                    None => 0,
                },
                message_expiry_interval,
                content_type,
                response_topic,
                correlation_data,
                will_delay_interval: match will_delay_interval {
                    Some(x) => x,
                    None => 0,
                },
            },
            q2,
        ),
    )
}

impl ConnectPacket {
    pub fn new(
        client_id: Vec<u8>,
        username: Option<Vec<u8>>,
        password: Option<Vec<u8>>,
        clean_start: bool,
        will: Option<Will>,
        keep_alive: u16,
        session_expiry_interval: u32,
        authentication_method: Option<Vec<u8>>,
        authentication_data: Option<Vec<u8>>,
        request_problem_information: bool,
        request_response_information: bool,
        receive_maximum: u16,
        topic_alias_maximum: u16,
        maximum_packet_size: Option<u32>,
    ) -> (r: ConnectPacket)
        ensures
            r@ == (ConnectView {
                client_id: client_id@,
                username: view_opt_bytes(username),
                password: view_opt_bytes(password),
                clean_start,
                will: match will {
                    Some(w) => Some(w@),
                    None => None,
                },
                keep_alive,
                session_expiry_interval,
                authentication_method: view_opt_bytes(authentication_method),
                authentication_data: view_opt_bytes(authentication_data),
                request_problem_information,
                request_response_information,
                receive_maximum,
                topic_alias_maximum,
                maximum_packet_size,
            }),
    {
        ConnectPacket {
            client_id,
            username,
            password,
            clean_start,
            will,
            keep_alive,
            session_expiry_interval,
            authentication_method,
            authentication_data,
            request_problem_information,
            request_response_information,
            receive_maximum,
            topic_alias_maximum,
            maximum_packet_size,
        }
    }

    /// Reads the variable header and payload, the cursor standing after the
    /// fixed header.
    #[verifier::spinoff_prover]
    #[verifier::rlimit(100)]
    pub fn read(s: &[u8], pos: usize, flags: u8, remaining_length: u32) -> (r: Result<
        (ConnectPacket, usize),
        CodecError,
    >)
        requires
            pos <= s@.len(),
        ensures
            (match parse_connect(s@, pos as int, flags, remaining_length) {
                Parsed::Found { val, next } => r matches Ok(x) && x.0@ == val && x.1 == next
                    && pos < next <= s@.len() && next <= usize::MAX,
                Parsed::Incomplete => r matches Err(e) && e == CodecError::InsufficientBytes,
                Parsed::Malformed => r matches Err(e) && e == CodecError::MalformedBytes,
            }),
    {
        if flags != 0x00 {
            return Err(CodecError::MalformedBytes);
        }
        let (pname, p0) = read_str(s, pos)?;
        if !(pname.len() == 4 && *vstd::slice::slice_index_get(pname.as_slice(), 0) == 0x4D
            && *vstd::slice::slice_index_get(pname.as_slice(), 1) == 0x51
            && *vstd::slice::slice_index_get(pname.as_slice(), 2) == 0x54
            && *vstd::slice::slice_index_get(pname.as_slice(), 3) == 0x54) {
            proof {
                assert(pname@ != mqtt_name());
            }
            return Err(CodecError::MalformedBytes);
        }
        proof {
            assert(pname@ =~= mqtt_name());
        }
        let (ver, p1) = read_u8(s, p0)?;
        if ver != PROTOCOL_VERSION {
            return Err(CodecError::MalformedBytes);
        }
        let (cf, p2) = read_u8(s, p1)?;
        let (keep_alive, p3) = read_u16(s, p2)?;
        let (
            (
                session_expiry_interval,
                authentication_method,
                authentication_data,
                request_problem_information,
                request_response_information,
                receive_maximum,
                topic_alias_maximum,
                maximum_packet_size,
            ),
            p4,
        ) = read_connect_props(s, p3)?;
        let (client_id, p5) = read_str(s, p4)?;
        let (will, p6) = if (cf / 4) % 2 == 1 {
            let (w, q2) = read_will(s, p5, cf)?;
            (Some(w), q2)
        } else {
            (None, p5)
        };
        let (username, p7) = if (cf / 128) % 2 == 1 {
            let (u, q) = read_str(s, p6)?;
            (Some(u), q)
        } else {
            (None, p6)
        };
        let (password, p8) = if (cf / 64) % 2 == 1 {
            let (u, q) = read_str(s, p7)?;
            (Some(u), q)
        } else {
            (None, p7)
        };
        Ok(
            (
                ConnectPacket {
                    client_id,
                    username,
                    password,
                    clean_start: (cf / 2) % 2 == 1,
                    will,
                    keep_alive,
                    session_expiry_interval: match session_expiry_interval {
                        Some(x) => x,
                        None => 0,
                    },
                    authentication_method,
                    authentication_data,
                    request_problem_information: match request_problem_information {
                        Some(x) => x,
                        None => true,
                    },
                    request_response_information: match request_response_information {
                        Some(x) => x,
                        None => false,
                    },
                    receive_maximum: match receive_maximum {
                        Some(x) => x,
                        None => 65535,
                    },
                    topic_alias_maximum: match topic_alias_maximum {
                        Some(x) => x,
                        None => 0,
                    },
                    maximum_packet_size,
                },
                p8,
            ),
        )
    }

    /// Serializes the packet into `buffer` at `index`; fails, touching
    /// nothing, exactly when the buffer is too short.
    #[verifier::spinoff_prover]
    #[verifier::rlimit(100)]
    pub fn write(&self, buffer: &mut Vec<u8>, index: usize) -> (r: Result<usize, CodecError>)
        requires
            self@.wf(),
            index <= old(buffer)@.len(),
        ensures
            (match r {
                Ok(n) => n == self@.bytes().len() && old(buffer)@.len() >= index
                    + self@.bytes().len() && final(buffer)@ == spliced(
                    old(buffer)@,
                    index as int,
                    self@.bytes(),
                ) && final(buffer)@.len() == old(buffer)@.len(),
                Err(e) => e == CodecError::InsufficientBytes && final(buffer)@ == old(buffer)@
                    && old(buffer)@.len() < index + self@.bytes().len(),
            }),
    {
        let nbytes = connect_body_size(self);
        proof {
            lemma_enc_vbi_len(nbytes as u32);
        }
        let rl_size = vbi_size(nbytes as u32);
        let total = 1 + rl_size + nbytes;
        if buffer.len() - index < total {
            return Err(CodecError::InsufficientBytes);
        }
        let mut w: usize = write_connect_head(buffer, index, self, nbytes as u32, rl_size);
        let ghost done = connect_head_bytes(self@, nbytes as u32);
        proof {
            assert(buffer@ == spliced(old(buffer)@, index as int, done));
            assert(w == done.len());
        }
        if let Some(wl) = &self.will {
            proof {
                lemma_spliced_concat(old(buffer)@, index as int, done, wl@.section());
            }
            let wn = write_will_section(buffer, index + w, wl);
            w = w + wn;
        }
        let ghost done = done + self@.will_section();
        proof {
            if self@.will is None {
                assert(done + self@.will_section() =~= done);
            }
            assert(buffer@ == spliced(old(buffer)@, index as int, done));
            assert(w == done.len());
        }
        if let Some(u) = &self.username {
            proof {
                lemma_spliced_concat(old(buffer)@, index as int, done, enc_data(u@));
            }
            write_data(buffer, index + w, u.as_slice());
            w = w + 2 + u.len();
        }
        let ghost done2 = done + self@.username_bytes();
        proof {
            if self@.username is None {
                assert(done2 =~= done);
            }
            assert(buffer@ == spliced(old(buffer)@, index as int, done2));
            assert(w == done2.len());
        }
        if let Some(u) = &self.password {
            proof {
                lemma_spliced_concat(old(buffer)@, index as int, done2, enc_data(u@));
            }
            write_data(buffer, index + w, u.as_slice());
            w = w + 2 + u.len();
        }
        let ghost done3 = done2 + self@.password_bytes();
        proof {
            if self@.password is None {
                assert(done3 =~= done2);
            }
            assert(buffer@ == spliced(old(buffer)@, index as int, done3));
            assert(done3 =~= self@.bytes());
        }
        Ok(total)
    }
}

/// The variable header of a Connect packet: the protocol name and version,
/// the connect-flags byte, the keep-alive and the properties.
pub open spec fn connect_vh_bytes(v: ConnectView) -> Seq<u8> {
    enc_data(mqtt_name()) + enc_u8(PROTOCOL_VERSION) + enc_u8(connect_flags(v)) + enc_u16(
        v.keep_alive,
    ) + enc_connect_props(connect_props_of(v))
}

/// Writes the variable header of a Connect packet.
#[verifier::spinoff_prover]
#[verifier::rlimit(100)]
fn write_connect_vh(buffer: &mut Vec<u8>, pos: usize, p: &ConnectPacket)
    requires
        p@.wf(),
        pos + connect_vh_bytes(p@).len() <= old(buffer)@.len(),
    ensures
        final(buffer)@ == spliced(old(buffer)@, pos as int, connect_vh_bytes(p@)),
        final(buffer)@.len() == old(buffer)@.len(),
{
    // Binding the length teaches the prover that positions fit in usize.
    let buf_len: usize = buffer.len();
    let mut name: Vec<u8> = Vec::new();
    name.push(0x4D);
    name.push(0x51);
    name.push(0x54);
    name.push(0x54);
    proof {
        assert(name@ =~= mqtt_name());
    }
    write_data(buffer, pos, name.as_slice());
    let ghost done = enc_data(mqtt_name());
    proof {
        lemma_spliced_concat(old(buffer)@, pos as int, done, enc_u8(PROTOCOL_VERSION));
    }
    write_u8(buffer, pos + 6, PROTOCOL_VERSION);
    let ghost done = done + enc_u8(PROTOCOL_VERSION);
    let mut cf: u8 = 0;
    if p.clean_start {
        cf = cf + 2;
    }
    if let Some(w) = &p.will {
        proof {
            assert(w@.qos.as_byte() <= 2);
        }
        cf = cf + 4 + w.qos.value() * 8;
        if w.retain {
            cf = cf + 32;
        }
    }
    if p.password.is_some() {
        cf = cf + 64;
    }
    if p.username.is_some() {
        cf = cf + 128;
    }
    proof {
        assert(cf == connect_flags(p@));
        lemma_spliced_concat(old(buffer)@, pos as int, done, enc_u8(connect_flags(p@)));
    }
    write_u8(buffer, pos + 7, cf);
    let ghost done = done + enc_u8(connect_flags(p@));
    proof {
        lemma_spliced_concat(old(buffer)@, pos as int, done, enc_u16(p@.keep_alive));
    }
    write_u16(buffer, pos + 8, p.keep_alive);
    let ghost done = done + enc_u16(p@.keep_alive);
    proof {
        lemma_spliced_concat(
            old(buffer)@,
            pos as int,
            done,
            enc_connect_props(connect_props_of(p@)),
        );
    }
    write_connect_props(buffer, pos + 10, p);
    proof {
        assert(done + enc_connect_props(connect_props_of(p@)) =~= connect_vh_bytes(p@));
    }
}

/// Number of bytes of everything after the fixed header.
#[verifier::spinoff_prover]
#[verifier::rlimit(100)]
pub fn connect_body_size(p: &ConnectPacket) -> (n: usize)
    requires
        p@.wf(),
    ensures
        n == p@.body().len(),
        n <= 0xFFFFFF,
{
    let items_len = connect_prop_items_size(p);
    proof {
        lemma_enc_vbi_len(items_len as u32);
    }
    let props_nbytes = vbi_size(items_len as u32) + items_len;
    let will_nbytes: usize = match &p.will {
        Some(w) => will_section_size(w),
        None => 0,
    };
    let user_nbytes: usize = match &p.username {
        Some(u) => 2 + u.len(),
        None => 0,
    };
    let pass_nbytes: usize = match &p.password {
        Some(u) => 2 + u.len(),
        None => 0,
    };
    let n = 6 + 1 + 1 + 2 + props_nbytes + 2 + p.client_id.len() + will_nbytes + user_nbytes
        + pass_nbytes;
    proof {
        assert(enc_data(mqtt_name()).len() == 6);
        assert(n == p@.body().len());
    }
    n
}

/// The fixed header, remaining length, variable header and client
/// identifier of an encoded Connect packet.
pub open spec fn connect_head_bytes(v: ConnectView, rl: u32) -> Seq<u8> {
    seq![0x10u8] + enc_vbi(rl) + connect_vh_bytes(v) + enc_data(v.client_id)
}

/// Writes everything up to and including the client identifier.
#[verifier::spinoff_prover]
#[verifier::rlimit(100)]
fn write_connect_head(
    buffer: &mut Vec<u8>,
    index: usize,
    p: &ConnectPacket,
    rl: u32,
    rl_size: usize,
) -> (w: usize)
    requires
        p@.wf(),
        rl <= VBI_MAX,
        rl_size == crate::codec::vbi_len(rl),
        index + connect_head_bytes(p@, rl).len() <= old(buffer)@.len(),
    ensures
        final(buffer)@ == spliced(old(buffer)@, index as int, connect_head_bytes(p@, rl)),
        final(buffer)@.len() == old(buffer)@.len(),
        w == connect_head_bytes(p@, rl).len(),
{
    // Binding the length teaches the prover that positions fit in usize.
    let buf_len: usize = buffer.len();
    proof {
        lemma_enc_vbi_len(rl);
    }
    write_u8(buffer, index, 0x10);
    proof {
        lemma_spliced_concat(old(buffer)@, index as int, seq![0x10u8], enc_vbi(rl));
    }
    write_vbi(buffer, index + 1, rl);
    let ghost done = seq![0x10u8] + enc_vbi(rl);
    proof {
        lemma_spliced_concat(old(buffer)@, index as int, done, connect_vh_bytes(p@));
    }
    write_connect_vh(buffer, index + 1 + rl_size, p);
    let ghost done = done + connect_vh_bytes(p@);
    let items_len = connect_prop_items_size(p);
    let pls = vbi_size(items_len as u32);
    proof {
        lemma_enc_vbi_len(items_len as u32);
        assert(done.len() == 1 + rl_size + 10 + pls + items_len);
        lemma_spliced_concat(old(buffer)@, index as int, done, enc_data(p@.client_id));
    }
    let w0 = 1 + rl_size + 10 + pls + items_len;
    write_data(buffer, index + w0, p.client_id.as_slice());
    proof {
        assert(done + enc_data(p@.client_id) =~= connect_head_bytes(p@, rl));
    }
    w0 + 2 + p.client_id.len()
}

/// Parsing the encoded properties and payload of a Connect packet yields the
/// packet back, for a packet whose will, if any, carries a payload.
#[verifier::spinoff_prover]
#[verifier::rlimit(100)]
proof fn lemma_parse_enc_connect_rest(s: Seq<u8>, i: int, v: ConnectView)
    requires
        v.wf(),
        v.will matches Some(w) ==> w.payload is Some,
        0 <= i,
        i + enc_connect_props(connect_props_of(v)).len() + 2 + v.client_id.len()
            + v.will_section().len() + v.username_bytes().len() + v.password_bytes().len()
            <= s.len(),
        s.subrange(
            i,
            i + enc_connect_props(connect_props_of(v)).len() + 2 + v.client_id.len()
                + v.will_section().len() + v.username_bytes().len() + v.password_bytes().len(),
        ) == enc_connect_props(connect_props_of(v)) + (enc_data(v.client_id) + (v.will_section()
            + (v.username_bytes() + v.password_bytes()))),
    ensures
        parse_connect_rest(s, i, connect_flags(v), v.keep_alive) == (Parsed::Found {
            val: v,
            next: i + enc_connect_props(connect_props_of(v)).len() + 2 + v.client_id.len()
                + v.will_section().len() + v.username_bytes().len() + v.password_bytes().len(),
        }),
{
    let cf = connect_flags(v);
    lemma_connect_flags_roundtrip(v);
    let e = enc_connect_props(connect_props_of(v));
    let f = enc_data(v.client_id);
    let g = v.will_section();
    let h = v.username_bytes();
    let q = v.password_bytes();
    lemma_connect_items_bound(connect_props_of(v));
    lemma_enc_vbi_len(enc_connect_prop_items(connect_props_of(v)).len() as u32);
    lemma_subrange_split(s, i, e, f + (g + (h + q)));
    lemma_parse_enc_connect_props(s, i, connect_props_of(v));
    let j5 = i + e.len();
    lemma_subrange_split(s, j5, f, g + (h + q));
    lemma_parse_enc_str(s, j5, v.client_id);
    let j6 = j5 + f.len();
    lemma_subrange_split(s, j6, g, h + q);
    let j7 = j6 + g.len();
    lemma_subrange_split(s, j7, h, q);
    let j8 = j7 + h.len();
    match v.will {
        Some(w) => {
            w.qos.lemma_round();
            lemma_parse_enc_will(s, j6, w, cf);
        },
        None => {},
    }
    match v.username {
        Some(u) => {
            lemma_parse_enc_str(s, j7, u);
        },
        None => {},
    }
    match v.password {
        Some(u) => {
            lemma_parse_enc_str(s, j8, u);
        },
        None => {},
    }
    assert(connect_finalize(
        connect_props_of(v),
        v.client_id,
        v.username,
        v.password,
        (cf as int / 2) % 2 == 1,
        v.will,
        v.keep_alive,
    ) =~= v);
}

/// Parsing an encoded Connect body yields the packet back, for a packet
/// whose will, if any, carries a payload.
#[verifier::spinoff_prover]
#[verifier::rlimit(100)]
pub proof fn lemma_parse_enc_connect(s: Seq<u8>, i: int, v: ConnectView)
    requires
        v.wf(),
        v.will matches Some(w) ==> w.payload is Some,
        0 <= i,
        i + v.body().len() <= s.len(),
        s.subrange(i, i + v.body().len()) == v.body(),
    ensures
        parse_connect(s, i, 0x00, v.body().len() as u32) == (Parsed::Found {
            val: v,
            next: i + v.body().len(),
        }),
{
    let a = enc_data(mqtt_name());
    let b = enc_u8(PROTOCOL_VERSION);
    let c = enc_u8(connect_flags(v));
    let d = enc_u16(v.keep_alive);
    let e = enc_connect_props(connect_props_of(v));
    let f = enc_data(v.client_id);
    let g = v.will_section();
    let h = v.username_bytes();
    let q = v.password_bytes();
    let rest = e + (f + (g + (h + q)));
    assert(v.body() =~= a + (b + (c + (d + rest))));
    lemma_subrange_split(s, i, a, b + (c + (d + rest)));
    lemma_mqtt_name_valid_utf8();
    lemma_parse_enc_str(s, i, mqtt_name());
    let j0 = i + 6;
    lemma_subrange_split(s, j0, b, c + (d + rest));
    assert(s.subrange(j0, j0 + 1)[0] == s[j0]);
    let j1 = j0 + 1;
    lemma_subrange_split(s, j1, c, d + rest);
    assert(s.subrange(j1, j1 + 1)[0] == s[j1]);
    let j2 = j1 + 1;
    lemma_subrange_split(s, j2, d, rest);
    lemma_parse_enc_u16(s, j2, v.keep_alive);
    let j3 = j2 + 2;
    lemma_parse_enc_connect_rest(s, j3, v);
}


} // verus!
