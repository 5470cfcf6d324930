//! The ConnAck packet: the server's answer to a Connect.  A flags byte
//! whose reserved bits must be zero carries the session-present bit; a
//! reason code follows, then the largest property set of the protocol, many
//! members of which have protocol-mandated defaults applied when absent.

use crate::codec::{
    enc_u16, enc_u8, enc_vbi, lemma_enc_vbi_len, lemma_parse_enc_data, lemma_parse_enc_str,
    lemma_parse_enc_u16, lemma_parse_enc_u32, lemma_parse_enc_vbi, lemma_spliced_concat,
    lemma_subrange_split, parse_bool, parse_data, parse_str, parse_u16, parse_u32, parse_u8,
    parse_vbi, read_bool, read_data, read_str, read_u16, read_u32, read_u8, read_vbi, rem,
    spliced, vbi_size, view_opt_bytes, wf_opt_data, wf_opt_str, write_u8, write_vbi, CodecError,
    Parsed, VBI_MAX,
};
use crate::props::{
    enc_opt_bool, enc_opt_data, enc_opt_qos, enc_opt_u16, enc_opt_u32, write_prop_bool,
    write_prop_data, write_prop_u16, write_prop_u32, write_prop_u8, PROP_ASSIGNED_CLIENT_ID,
    PROP_AUTHENTICATION_DATA, PROP_AUTHENTICATION_METHOD, PROP_MAXIMUM_PACKET_SIZE,
    PROP_MAXIMUM_QOS, PROP_REASON_STRING, PROP_RECEIVE_MAXIMUM, PROP_RESPONSE_INFORMATION,
    PROP_RETAIN_AVAILABLE, PROP_SERVER_KEEP_ALIVE, PROP_SERVER_REFERENCE,
    PROP_SESSION_EXPIRY_INTERVAL, PROP_SHARED_SUBSCRIPTION_AVAILABLE,
    PROP_SUBSCRIPTION_ID_AVAILABLE, PROP_TOPIC_ALIAS_MAXIMUM,
    PROP_WILDCARD_SUBSCRIPTION_AVAILABLE,
};
use crate::reason_codes::ConnAckReasonCode;
use crate::types::QoS;
use vstd::prelude::*;

verus! {

/// The server's answer to a connection request.
#[derive(Clone, Debug, PartialEq, Eq)]
pub struct ConnAckPacket {
    pub session_present: bool,
    pub reason_code: ConnAckReasonCode,
    pub session_expiry_interval: Option<u32>,
    pub assigned_client_id: Option<Vec<u8>>,
    pub server_keep_alive: Option<u16>,
    pub authentication_method: Option<Vec<u8>>,
    pub authentication_data: Option<Vec<u8>>,
    pub response_information: Option<Vec<u8>>,
    pub server_reference: Option<Vec<u8>>,
    pub reason_string: Option<Vec<u8>>,
    pub receive_maximum: u16,
    pub topic_alias_maximum: u16,
    pub maximum_qos: QoS,
    pub retain_available: bool,
    pub maximum_packet_size: Option<u32>,
    pub wildcard_subscription_available: bool,
    pub subscription_id_available: bool,
    pub shared_subscription_available: bool,
}

/// The mathematical value of a ConnAck packet.
#[verifier::ext_equal]
pub ghost struct ConnAckView {
    pub session_present: bool,
    pub reason_code: ConnAckReasonCode,
    pub session_expiry_interval: Option<u32>,
    pub assigned_client_id: Option<Seq<u8>>,
    pub server_keep_alive: Option<u16>,
    pub authentication_method: Option<Seq<u8>>,
    pub authentication_data: Option<Seq<u8>>,
    pub response_information: Option<Seq<u8>>,
    pub server_reference: Option<Seq<u8>>,
    pub reason_string: Option<Seq<u8>>,
    pub receive_maximum: u16,
    pub topic_alias_maximum: u16,
    pub maximum_qos: QoS,
    pub retain_available: bool,
    pub maximum_packet_size: Option<u32>,
    pub wildcard_subscription_available: bool,
    pub subscription_id_available: bool,
    pub shared_subscription_available: bool,
}

impl View for ConnAckPacket {
    type V = ConnAckView;

    open spec fn view(&self) -> ConnAckView {
        ConnAckView {
            session_present: self.session_present,
            reason_code: self.reason_code,
            session_expiry_interval: self.session_expiry_interval,
            assigned_client_id: view_opt_bytes(self.assigned_client_id),
            server_keep_alive: self.server_keep_alive,
            authentication_method: view_opt_bytes(self.authentication_method),
            authentication_data: view_opt_bytes(self.authentication_data),
            response_information: view_opt_bytes(self.response_information),
            server_reference: view_opt_bytes(self.server_reference),
            reason_string: view_opt_bytes(self.reason_string),
            receive_maximum: self.receive_maximum,
            topic_alias_maximum: self.topic_alias_maximum,
            maximum_qos: self.maximum_qos,
            retain_available: self.retain_available,
            maximum_packet_size: self.maximum_packet_size,
            wildcard_subscription_available: self.wildcard_subscription_available,
            subscription_id_available: self.subscription_id_available,
            shared_subscription_available: self.shared_subscription_available,
        }
    }
}

/// The property fields of a ConnAck packet, while being accumulated.
#[verifier::ext_equal]
pub ghost struct ConnAckProps {
    pub session_expiry_interval: Option<u32>,
    pub assigned_client_id: Option<Seq<u8>>,
    pub server_keep_alive: Option<u16>,
    pub authentication_method: Option<Seq<u8>>,
    pub authentication_data: Option<Seq<u8>>,
    pub response_information: Option<Seq<u8>>,
    pub server_reference: Option<Seq<u8>>,
    pub reason_string: Option<Seq<u8>>,
    pub receive_maximum: Option<u16>,
    pub topic_alias_maximum: Option<u16>,
    pub maximum_qos: Option<QoS>,
    pub retain_available: Option<bool>,
    pub maximum_packet_size: Option<u32>,
    pub wildcard_subscription_available: Option<bool>,
    pub subscription_id_available: Option<bool>,
    pub shared_subscription_available: Option<bool>,
}

pub open spec fn connack_props_none() -> ConnAckProps {
    ConnAckProps {
        session_expiry_interval: None,
        assigned_client_id: None,
        server_keep_alive: None,
        authentication_method: None,
        authentication_data: None,
        response_information: None,
        server_reference: None,
        reason_string: None,
        receive_maximum: None,
        topic_alias_maximum: None,
        maximum_qos: None,
        retain_available: None,
        maximum_packet_size: None,
        wildcard_subscription_available: None,
        subscription_id_available: None,
        shared_subscription_available: None,
    }
}

/// The property loop of a ConnAck packet.
pub open spec fn parse_connack_prop_items(s: Seq<u8>, i: int, end: int, acc: ConnAckProps) -> Parsed<ConnAckProps>
    decreases rem(i, end),
{
    if i >= end {
        Parsed::Found { val: acc, next: i }
    } else {
        match parse_u8(s, i) {
            Parsed::Found { val: id, next: j } => {
                if id == PROP_SESSION_EXPIRY_INTERVAL {
                    match parse_u32(s, j) {
                        Parsed::Found { val: v, next: kk } => {
                            if acc.session_expiry_interval is Some {
                                Parsed::Malformed
                            } else {
                                parse_connack_prop_items(s, kk, end, ConnAckProps { session_expiry_interval: Some(v), ..acc })
                            }
                        },
                        Parsed::Incomplete => Parsed::Incomplete,
                        Parsed::Malformed => Parsed::Malformed,
                    }
                } else if id == PROP_ASSIGNED_CLIENT_ID {
                    match parse_str(s, j) {
                        Parsed::Found { val: v, next: kk } => {
                            if acc.assigned_client_id is Some {
                                Parsed::Malformed
                            } else {
                                parse_connack_prop_items(s, kk, end, ConnAckProps { assigned_client_id: Some(v), ..acc })
                            }
                        },
                        Parsed::Incomplete => Parsed::Incomplete,
                        Parsed::Malformed => Parsed::Malformed,
                    }
                } else if id == PROP_SERVER_KEEP_ALIVE {
                    match parse_u16(s, j) {
                        Parsed::Found { val: v, next: kk } => {
                            if acc.server_keep_alive is Some {
                                Parsed::Malformed
                            } else {
                                parse_connack_prop_items(s, kk, end, ConnAckProps { server_keep_alive: Some(v), ..acc })
                            }
                        },
                        Parsed::Incomplete => Parsed::Incomplete,
                        Parsed::Malformed => Parsed::Malformed,
                    }
                } else if id == PROP_AUTHENTICATION_METHOD {
                    match parse_str(s, j) {
                        Parsed::Found { val: v, next: kk } => {
                            if acc.authentication_method is Some {
                                Parsed::Malformed
                            } else {
                                parse_connack_prop_items(s, kk, end, ConnAckProps { authentication_method: Some(v), ..acc })
                            }
                        },
                        Parsed::Incomplete => Parsed::Incomplete,
                        Parsed::Malformed => Parsed::Malformed,
                    }
                } else if id == PROP_AUTHENTICATION_DATA {
                    match parse_data(s, j) {
                        Parsed::Found { val: v, next: kk } => {
                            if acc.authentication_data is Some {
                                Parsed::Malformed
                            } else {
                                parse_connack_prop_items(s, kk, end, ConnAckProps { authentication_data: Some(v), ..acc })
                            }
                        },
                        Parsed::Incomplete => Parsed::Incomplete,
                        Parsed::Malformed => Parsed::Malformed,
                    }
                } else if id == PROP_RESPONSE_INFORMATION {
                    match parse_str(s, j) {
                        Parsed::Found { val: v, next: kk } => {
                            if acc.response_information is Some {
                                Parsed::Malformed
                            } else {
                                parse_connack_prop_items(s, kk, end, ConnAckProps { response_information: Some(v), ..acc })
                            }
                        },
                        Parsed::Incomplete => Parsed::Incomplete,
                        Parsed::Malformed => Parsed::Malformed,
                    }
                } else if id == PROP_SERVER_REFERENCE {
                    match parse_str(s, j) {
                        Parsed::Found { val: v, next: kk } => {
                            if acc.server_reference is Some {
                                Parsed::Malformed
                            } else {
                                parse_connack_prop_items(s, kk, end, ConnAckProps { server_reference: Some(v), ..acc })
                            }
                        },
                        Parsed::Incomplete => Parsed::Incomplete,
                        Parsed::Malformed => Parsed::Malformed,
                    }
                } else if id == PROP_REASON_STRING {
                    match parse_str(s, j) {
                        Parsed::Found { val: v, next: kk } => {
                            if acc.reason_string is Some {
                                Parsed::Malformed
                            } else {
                                parse_connack_prop_items(s, kk, end, ConnAckProps { reason_string: Some(v), ..acc })
                            }
                        },
                        Parsed::Incomplete => Parsed::Incomplete,
                        Parsed::Malformed => Parsed::Malformed,
                    }
                } else if id == PROP_RECEIVE_MAXIMUM {
                    match parse_u16(s, j) {
                        Parsed::Found { val: v, next: kk } => {
                            if acc.receive_maximum is Some {
                                Parsed::Malformed
                            } else {
                                parse_connack_prop_items(s, kk, end, ConnAckProps { receive_maximum: Some(v), ..acc })
                            }
                        },
                        Parsed::Incomplete => Parsed::Incomplete,
                        Parsed::Malformed => Parsed::Malformed,
                    }
                } else if id == PROP_TOPIC_ALIAS_MAXIMUM {
                    match parse_u16(s, j) {
                        Parsed::Found { val: v, next: kk } => {
                            if acc.topic_alias_maximum is Some {
                                Parsed::Malformed
                            } else {
                                parse_connack_prop_items(s, kk, end, ConnAckProps { topic_alias_maximum: Some(v), ..acc })
                            }
                        },
                        Parsed::Incomplete => Parsed::Incomplete,
                        Parsed::Malformed => Parsed::Malformed,
                    }
                } else if id == PROP_MAXIMUM_QOS {
                    match parse_u8(s, j) {
                        Parsed::Found { val: b, next: kk } => match QoS::spec_from(b) {
                            Some(q) => {
                                if acc.maximum_qos is Some {
                                    Parsed::Malformed
                                } else {
                                    parse_connack_prop_items(s, kk, end, ConnAckProps { maximum_qos: Some(q), ..acc })
                                }
                            },
                            None => Parsed::Malformed,
                        },
                        _ => Parsed::Incomplete,
                    }
                } else if id == PROP_RETAIN_AVAILABLE {
                    match parse_bool(s, j) {
                        Parsed::Found { val: v, next: kk } => {
                            if acc.retain_available is Some {
                                Parsed::Malformed
                            } else {
                                parse_connack_prop_items(s, kk, end, ConnAckProps { retain_available: Some(v), ..acc })
                            }
                        },
                        Parsed::Incomplete => Parsed::Incomplete,
                        Parsed::Malformed => Parsed::Malformed,
                    }
                } else if id == PROP_MAXIMUM_PACKET_SIZE {
                    match parse_u32(s, j) {
                        Parsed::Found { val: v, next: kk } => {
                            if acc.maximum_packet_size is Some {
                                Parsed::Malformed
                            } else {
                                parse_connack_prop_items(s, kk, end, ConnAckProps { maximum_packet_size: Some(v), ..acc })
                            }
                        },
                        Parsed::Incomplete => Parsed::Incomplete,
                        Parsed::Malformed => Parsed::Malformed,
                    }
                } else if id == PROP_WILDCARD_SUBSCRIPTION_AVAILABLE {
                    match parse_bool(s, j) {
                        Parsed::Found { val: v, next: kk } => {
                            if acc.wildcard_subscription_available is Some {
                                Parsed::Malformed
                            } else {
                                parse_connack_prop_items(s, kk, end, ConnAckProps { wildcard_subscription_available: Some(v), ..acc })
                            }
                        },
                        Parsed::Incomplete => Parsed::Incomplete,
                        Parsed::Malformed => Parsed::Malformed,
                    }
                } else if id == PROP_SUBSCRIPTION_ID_AVAILABLE {
                    match parse_bool(s, j) {
                        Parsed::Found { val: v, next: kk } => {
                            if acc.subscription_id_available is Some {
                                Parsed::Malformed
                            } else {
                                parse_connack_prop_items(s, kk, end, ConnAckProps { subscription_id_available: Some(v), ..acc })
                            }
                        },
                        Parsed::Incomplete => Parsed::Incomplete,
                        Parsed::Malformed => Parsed::Malformed,
                    }
                } else if id == PROP_SHARED_SUBSCRIPTION_AVAILABLE {
                    match parse_bool(s, j) {
                        Parsed::Found { val: v, next: kk } => {
                            if acc.shared_subscription_available is Some {
                                Parsed::Malformed
                            } else {
                                parse_connack_prop_items(s, kk, end, ConnAckProps { shared_subscription_available: Some(v), ..acc })
                            }
                        },
                        Parsed::Incomplete => Parsed::Incomplete,
                        Parsed::Malformed => Parsed::Malformed,
                    }
                } else {
                    Parsed::Malformed
                }
            },
            _ => Parsed::Incomplete,
        }
    }
}

/// The property region of a ConnAck packet.
pub open spec fn parse_connack_props(s: Seq<u8>, i: int) -> Parsed<ConnAckProps> {
    match parse_vbi(s, i) {
        Parsed::Found { val: len, next: j } => parse_connack_prop_items(s, j, j + len, connack_props_none()),
        Parsed::Incomplete => Parsed::Incomplete,
        Parsed::Malformed => Parsed::Malformed,
    }
}

/// Segment of the encoded property items.
pub open spec fn enc_connack_items_a(p: ConnAckProps) -> Seq<u8> {
    enc_opt_u32(PROP_SESSION_EXPIRY_INTERVAL, p.session_expiry_interval) + enc_opt_data(PROP_ASSIGNED_CLIENT_ID, p.assigned_client_id) + enc_opt_u16(PROP_SERVER_KEEP_ALIVE, p.server_keep_alive) + enc_opt_data(PROP_AUTHENTICATION_METHOD, p.authentication_method)
}

/// Segment of the encoded property items.
pub open spec fn enc_connack_items_b(p: ConnAckProps) -> Seq<u8> {
    enc_opt_data(PROP_AUTHENTICATION_DATA, p.authentication_data) + enc_opt_data(PROP_RESPONSE_INFORMATION, p.response_information) + enc_opt_data(PROP_SERVER_REFERENCE, p.server_reference) + enc_opt_data(PROP_REASON_STRING, p.reason_string)
}

/// Segment of the encoded property items.
pub open spec fn enc_connack_items_c(p: ConnAckProps) -> Seq<u8> {
    enc_opt_u16(PROP_RECEIVE_MAXIMUM, p.receive_maximum) + enc_opt_u16(PROP_TOPIC_ALIAS_MAXIMUM, p.topic_alias_maximum) + enc_opt_qos(PROP_MAXIMUM_QOS, p.maximum_qos) + enc_opt_bool(PROP_RETAIN_AVAILABLE, p.retain_available)
}

/// Segment of the encoded property items.
pub open spec fn enc_connack_items_d(p: ConnAckProps) -> Seq<u8> {
    enc_opt_u32(PROP_MAXIMUM_PACKET_SIZE, p.maximum_packet_size) + enc_opt_bool(PROP_WILDCARD_SUBSCRIPTION_AVAILABLE, p.wildcard_subscription_available) + enc_opt_bool(PROP_SUBSCRIPTION_ID_AVAILABLE, p.subscription_id_available) + enc_opt_bool(PROP_SHARED_SUBSCRIPTION_AVAILABLE, p.shared_subscription_available)
}

pub open spec fn enc_connack_prop_items(p: ConnAckProps) -> Seq<u8> {
    enc_connack_items_a(p) + enc_connack_items_b(p) + enc_connack_items_c(p) + enc_connack_items_d(p)
}

pub open spec fn enc_connack_props(p: ConnAckProps) -> Seq<u8> {
    enc_vbi(enc_connack_prop_items(p).len() as u32) + enc_connack_prop_items(p)
}

pub open spec fn wf_connack_props(p: ConnAckProps) -> bool {
    wf_opt_str(p.assigned_client_id) && wf_opt_str(p.authentication_method) && wf_opt_str(p.response_information) && wf_opt_str(p.server_reference) && wf_opt_str(p.reason_string) && wf_opt_data(p.authentication_data)
}

/// One property-loop step over the encoded `session_expiry_interval` property.
proof fn lemma_connack_step_session_expiry_interval(s: Seq<u8>, i: int, end: int, acc: ConnAckProps, ov: Option<u32>)
    requires
        0 <= i,
        i + enc_opt_u32(PROP_SESSION_EXPIRY_INTERVAL, ov).len() <= s.len(),
        i + enc_opt_u32(PROP_SESSION_EXPIRY_INTERVAL, ov).len() <= end,
        s.subrange(i, i + enc_opt_u32(PROP_SESSION_EXPIRY_INTERVAL, ov).len()) == enc_opt_u32(PROP_SESSION_EXPIRY_INTERVAL, ov),
        acc.session_expiry_interval is None,
    ensures
        parse_connack_prop_items(s, i, end, acc) == parse_connack_prop_items(
            s,
            i + enc_opt_u32(PROP_SESSION_EXPIRY_INTERVAL, ov).len(),
            end,
            (ConnAckProps { session_expiry_interval: ov, ..acc }),
        ),
{
    if ov is Some {
        let v = ov.unwrap();
        lemma_subrange_split(s, i, seq![PROP_SESSION_EXPIRY_INTERVAL], crate::codec::enc_u32(v));
        assert(s.subrange(i, i + 1)[0] == s[i]);
        lemma_parse_enc_u32(s, i + 1, v);
    }
}

/// One property-loop step over the encoded `assigned_client_id` property.
proof fn lemma_connack_step_assigned_client_id(s: Seq<u8>, i: int, end: int, acc: ConnAckProps, ov: Option<Seq<u8>>)
    requires
        wf_opt_str(ov),
        0 <= i,
        i + enc_opt_data(PROP_ASSIGNED_CLIENT_ID, ov).len() <= s.len(),
        i + enc_opt_data(PROP_ASSIGNED_CLIENT_ID, ov).len() <= end,
        s.subrange(i, i + enc_opt_data(PROP_ASSIGNED_CLIENT_ID, ov).len()) == enc_opt_data(PROP_ASSIGNED_CLIENT_ID, ov),
        acc.assigned_client_id is None,
    ensures
        parse_connack_prop_items(s, i, end, acc) == parse_connack_prop_items(
            s,
            i + enc_opt_data(PROP_ASSIGNED_CLIENT_ID, ov).len(),
            end,
            (ConnAckProps { assigned_client_id: ov, ..acc }),
        ),
{
    if ov is Some {
        let v = ov.unwrap();
        lemma_subrange_split(s, i, seq![PROP_ASSIGNED_CLIENT_ID], crate::codec::enc_data(v));
        assert(s.subrange(i, i + 1)[0] == s[i]);
        lemma_parse_enc_str(s, i + 1, v);
    }
}

/// One property-loop step over the encoded `server_keep_alive` property.
proof fn lemma_connack_step_server_keep_alive(s: Seq<u8>, i: int, end: int, acc: ConnAckProps, ov: Option<u16>)
    requires
        0 <= i,
        i + enc_opt_u16(PROP_SERVER_KEEP_ALIVE, ov).len() <= s.len(),
        i + enc_opt_u16(PROP_SERVER_KEEP_ALIVE, ov).len() <= end,
        s.subrange(i, i + enc_opt_u16(PROP_SERVER_KEEP_ALIVE, ov).len()) == enc_opt_u16(PROP_SERVER_KEEP_ALIVE, ov),
        acc.server_keep_alive is None,
    ensures
        parse_connack_prop_items(s, i, end, acc) == parse_connack_prop_items(
            s,
            i + enc_opt_u16(PROP_SERVER_KEEP_ALIVE, ov).len(),
            end,
            (ConnAckProps { server_keep_alive: ov, ..acc }),
        ),
{
    if ov is Some {
        let v = ov.unwrap();
        lemma_subrange_split(s, i, seq![PROP_SERVER_KEEP_ALIVE], crate::codec::enc_u16(v));
        assert(s.subrange(i, i + 1)[0] == s[i]);
        lemma_parse_enc_u16(s, i + 1, v);
    }
}

/// One property-loop step over the encoded `authentication_method` property.
proof fn lemma_connack_step_authentication_method(s: Seq<u8>, i: int, end: int, acc: ConnAckProps, ov: Option<Seq<u8>>)
    requires
        wf_opt_str(ov),
        0 <= i,
        i + enc_opt_data(PROP_AUTHENTICATION_METHOD, ov).len() <= s.len(),
        i + enc_opt_data(PROP_AUTHENTICATION_METHOD, ov).len() <= end,
        s.subrange(i, i + enc_opt_data(PROP_AUTHENTICATION_METHOD, ov).len()) == enc_opt_data(PROP_AUTHENTICATION_METHOD, ov),
        acc.authentication_method is None,
    ensures
        parse_connack_prop_items(s, i, end, acc) == parse_connack_prop_items(
            s,
            i + enc_opt_data(PROP_AUTHENTICATION_METHOD, ov).len(),
            end,
            (ConnAckProps { authentication_method: ov, ..acc }),
        ),
{
    if ov is Some {
        let v = ov.unwrap();
        lemma_subrange_split(s, i, seq![PROP_AUTHENTICATION_METHOD], crate::codec::enc_data(v));
        assert(s.subrange(i, i + 1)[0] == s[i]);
        lemma_parse_enc_str(s, i + 1, v);
    }
}

/// One property-loop step over the encoded `authentication_data` property.
proof fn lemma_connack_step_authentication_data(s: Seq<u8>, i: int, end: int, acc: ConnAckProps, ov: Option<Seq<u8>>)
    requires
        wf_opt_data(ov),
        0 <= i,
        i + enc_opt_data(PROP_AUTHENTICATION_DATA, ov).len() <= s.len(),
        i + enc_opt_data(PROP_AUTHENTICATION_DATA, ov).len() <= end,
        s.subrange(i, i + enc_opt_data(PROP_AUTHENTICATION_DATA, ov).len()) == enc_opt_data(PROP_AUTHENTICATION_DATA, ov),
        acc.authentication_data is None,
    ensures
        parse_connack_prop_items(s, i, end, acc) == parse_connack_prop_items(
            s,
            i + enc_opt_data(PROP_AUTHENTICATION_DATA, ov).len(),
            end,
            (ConnAckProps { authentication_data: ov, ..acc }),
        ),
{
    if ov is Some {
        let v = ov.unwrap();
        lemma_subrange_split(s, i, seq![PROP_AUTHENTICATION_DATA], crate::codec::enc_data(v));
        assert(s.subrange(i, i + 1)[0] == s[i]);
        lemma_parse_enc_data(s, i + 1, v);
    }
}

/// One property-loop step over the encoded `response_information` property.
proof fn lemma_connack_step_response_information(s: Seq<u8>, i: int, end: int, acc: ConnAckProps, ov: Option<Seq<u8>>)
    requires
        wf_opt_str(ov),
        0 <= i,
        i + enc_opt_data(PROP_RESPONSE_INFORMATION, ov).len() <= s.len(),
        i + enc_opt_data(PROP_RESPONSE_INFORMATION, ov).len() <= end,
        s.subrange(i, i + enc_opt_data(PROP_RESPONSE_INFORMATION, ov).len()) == enc_opt_data(PROP_RESPONSE_INFORMATION, ov),
        acc.response_information is None,
    ensures
        parse_connack_prop_items(s, i, end, acc) == parse_connack_prop_items(
            s,
            i + enc_opt_data(PROP_RESPONSE_INFORMATION, ov).len(),
            end,
            (ConnAckProps { response_information: ov, ..acc }),
        ),
{
    if ov is Some {
        let v = ov.unwrap();
        lemma_subrange_split(s, i, seq![PROP_RESPONSE_INFORMATION], crate::codec::enc_data(v));
        assert(s.subrange(i, i + 1)[0] == s[i]);
        lemma_parse_enc_str(s, i + 1, v);
    }
}

/// One property-loop step over the encoded `server_reference` property.
proof fn lemma_connack_step_server_reference(s: Seq<u8>, i: int, end: int, acc: ConnAckProps, ov: Option<Seq<u8>>)
    requires
        wf_opt_str(ov),
        0 <= i,
        i + enc_opt_data(PROP_SERVER_REFERENCE, ov).len() <= s.len(),
        i + enc_opt_data(PROP_SERVER_REFERENCE, ov).len() <= end,
        s.subrange(i, i + enc_opt_data(PROP_SERVER_REFERENCE, ov).len()) == enc_opt_data(PROP_SERVER_REFERENCE, ov),
        acc.server_reference is None,
    ensures
        parse_connack_prop_items(s, i, end, acc) == parse_connack_prop_items(
            s,
            i + enc_opt_data(PROP_SERVER_REFERENCE, ov).len(),
            end,
            (ConnAckProps { server_reference: ov, ..acc }),
        ),
{
    if ov is Some {
        let v = ov.unwrap();
        lemma_subrange_split(s, i, seq![PROP_SERVER_REFERENCE], crate::codec::enc_data(v));
        assert(s.subrange(i, i + 1)[0] == s[i]);
        lemma_parse_enc_str(s, i + 1, v);
    }
}

/// One property-loop step over the encoded `reason_string` property.
proof fn lemma_connack_step_reason_string(s: Seq<u8>, i: int, end: int, acc: ConnAckProps, ov: Option<Seq<u8>>)
    requires
        wf_opt_str(ov),
        0 <= i,
        i + enc_opt_data(PROP_REASON_STRING, ov).len() <= s.len(),
        i + enc_opt_data(PROP_REASON_STRING, ov).len() <= end,
        s.subrange(i, i + enc_opt_data(PROP_REASON_STRING, ov).len()) == enc_opt_data(PROP_REASON_STRING, ov),
        acc.reason_string is None,
    ensures
        parse_connack_prop_items(s, i, end, acc) == parse_connack_prop_items(
            s,
            i + enc_opt_data(PROP_REASON_STRING, ov).len(),
            end,
            (ConnAckProps { reason_string: ov, ..acc }),
        ),
{
    if ov is Some {
        let v = ov.unwrap();
        lemma_subrange_split(s, i, seq![PROP_REASON_STRING], crate::codec::enc_data(v));
        assert(s.subrange(i, i + 1)[0] == s[i]);
        lemma_parse_enc_str(s, i + 1, v);
    }
}

/// One property-loop step over the encoded `receive_maximum` property.
proof fn lemma_connack_step_receive_maximum(s: Seq<u8>, i: int, end: int, acc: ConnAckProps, ov: Option<u16>)
    requires
        0 <= i,
        i + enc_opt_u16(PROP_RECEIVE_MAXIMUM, ov).len() <= s.len(),
        i + enc_opt_u16(PROP_RECEIVE_MAXIMUM, ov).len() <= end,
        s.subrange(i, i + enc_opt_u16(PROP_RECEIVE_MAXIMUM, ov).len()) == enc_opt_u16(PROP_RECEIVE_MAXIMUM, ov),
        acc.receive_maximum is None,
    ensures
        parse_connack_prop_items(s, i, end, acc) == parse_connack_prop_items(
            s,
            i + enc_opt_u16(PROP_RECEIVE_MAXIMUM, ov).len(),
            end,
            (ConnAckProps { receive_maximum: ov, ..acc }),
        ),
{
    if ov is Some {
        let v = ov.unwrap();
        lemma_subrange_split(s, i, seq![PROP_RECEIVE_MAXIMUM], crate::codec::enc_u16(v));
        assert(s.subrange(i, i + 1)[0] == s[i]);
        lemma_parse_enc_u16(s, i + 1, v);
    }
}

/// One property-loop step over the encoded `topic_alias_maximum` property.
proof fn lemma_connack_step_topic_alias_maximum(s: Seq<u8>, i: int, end: int, acc: ConnAckProps, ov: Option<u16>)
    requires
        0 <= i,
        i + enc_opt_u16(PROP_TOPIC_ALIAS_MAXIMUM, ov).len() <= s.len(),
        i + enc_opt_u16(PROP_TOPIC_ALIAS_MAXIMUM, ov).len() <= end,
        s.subrange(i, i + enc_opt_u16(PROP_TOPIC_ALIAS_MAXIMUM, ov).len()) == enc_opt_u16(PROP_TOPIC_ALIAS_MAXIMUM, ov),
        acc.topic_alias_maximum is None,
    ensures
        parse_connack_prop_items(s, i, end, acc) == parse_connack_prop_items(
            s,
            i + enc_opt_u16(PROP_TOPIC_ALIAS_MAXIMUM, ov).len(),
            end,
            (ConnAckProps { topic_alias_maximum: ov, ..acc }),
        ),
{
    if ov is Some {
        let v = ov.unwrap();
        lemma_subrange_split(s, i, seq![PROP_TOPIC_ALIAS_MAXIMUM], crate::codec::enc_u16(v));
        assert(s.subrange(i, i + 1)[0] == s[i]);
        lemma_parse_enc_u16(s, i + 1, v);
    }
}

/// One property-loop step over the encoded `maximum_qos` property.
proof fn lemma_connack_step_maximum_qos(s: Seq<u8>, i: int, end: int, acc: ConnAckProps, ov: Option<QoS>)
    requires
        0 <= i,
        i + enc_opt_qos(PROP_MAXIMUM_QOS, ov).len() <= s.len(),
        i + enc_opt_qos(PROP_MAXIMUM_QOS, ov).len() <= end,
        s.subrange(i, i + enc_opt_qos(PROP_MAXIMUM_QOS, ov).len()) == enc_opt_qos(PROP_MAXIMUM_QOS, ov),
        acc.maximum_qos is None,
    ensures
        parse_connack_prop_items(s, i, end, acc) == parse_connack_prop_items(
            s,
            i + enc_opt_qos(PROP_MAXIMUM_QOS, ov).len(),
            end,
            (ConnAckProps { maximum_qos: ov, ..acc }),
        ),
{
    if ov is Some {
        let v = ov.unwrap();
        assert(s.subrange(i, i + 2)[0] == s[i]);
        assert(s.subrange(i, i + 2)[1] == s[i + 1]);
        v.lemma_round();
    }
}

/// One property-loop step over the encoded `retain_available` property.
proof fn lemma_connack_step_retain_available(s: Seq<u8>, i: int, end: int, acc: ConnAckProps, ov: Option<bool>)
    requires
        0 <= i,
        i + enc_opt_bool(PROP_RETAIN_AVAILABLE, ov).len() <= s.len(),
        i + enc_opt_bool(PROP_RETAIN_AVAILABLE, ov).len() <= end,
        s.subrange(i, i + enc_opt_bool(PROP_RETAIN_AVAILABLE, ov).len()) == enc_opt_bool(PROP_RETAIN_AVAILABLE, ov),
        acc.retain_available is None,
    ensures
        parse_connack_prop_items(s, i, end, acc) == parse_connack_prop_items(
            s,
            i + enc_opt_bool(PROP_RETAIN_AVAILABLE, ov).len(),
            end,
            (ConnAckProps { retain_available: ov, ..acc }),
        ),
{
    if ov is Some {
        let v = ov.unwrap();
        lemma_subrange_split(s, i, seq![PROP_RETAIN_AVAILABLE], crate::codec::enc_bool(v));
        assert(s.subrange(i, i + 1)[0] == s[i]);
        assert(s.subrange(i + 1, i + 2)[0] == s[i + 1]);
    }
}

/// One property-loop step over the encoded `maximum_packet_size` property.
proof fn lemma_connack_step_maximum_packet_size(s: Seq<u8>, i: int, end: int, acc: ConnAckProps, ov: Option<u32>)
    requires
        0 <= i,
        i + enc_opt_u32(PROP_MAXIMUM_PACKET_SIZE, ov).len() <= s.len(),
        i + enc_opt_u32(PROP_MAXIMUM_PACKET_SIZE, ov).len() <= end,
        s.subrange(i, i + enc_opt_u32(PROP_MAXIMUM_PACKET_SIZE, ov).len()) == enc_opt_u32(PROP_MAXIMUM_PACKET_SIZE, ov),
        acc.maximum_packet_size is None,
    ensures
        parse_connack_prop_items(s, i, end, acc) == parse_connack_prop_items(
            s,
            i + enc_opt_u32(PROP_MAXIMUM_PACKET_SIZE, ov).len(),
            end,
            (ConnAckProps { maximum_packet_size: ov, ..acc }),
        ),
{
    if ov is Some {
        let v = ov.unwrap();
        lemma_subrange_split(s, i, seq![PROP_MAXIMUM_PACKET_SIZE], crate::codec::enc_u32(v));
        assert(s.subrange(i, i + 1)[0] == s[i]);
        lemma_parse_enc_u32(s, i + 1, v);
    }
}

/// One property-loop step over the encoded `wildcard_subscription_available` property.
proof fn lemma_connack_step_wildcard_subscription_available(s: Seq<u8>, i: int, end: int, acc: ConnAckProps, ov: Option<bool>)
    requires
        0 <= i,
        i + enc_opt_bool(PROP_WILDCARD_SUBSCRIPTION_AVAILABLE, ov).len() <= s.len(),
        i + enc_opt_bool(PROP_WILDCARD_SUBSCRIPTION_AVAILABLE, ov).len() <= end,
        s.subrange(i, i + enc_opt_bool(PROP_WILDCARD_SUBSCRIPTION_AVAILABLE, ov).len()) == enc_opt_bool(PROP_WILDCARD_SUBSCRIPTION_AVAILABLE, ov),
        acc.wildcard_subscription_available is None,
    ensures
        parse_connack_prop_items(s, i, end, acc) == parse_connack_prop_items(
            s,
            i + enc_opt_bool(PROP_WILDCARD_SUBSCRIPTION_AVAILABLE, ov).len(),
            end,
            (ConnAckProps { wildcard_subscription_available: ov, ..acc }),
        ),
{
    if ov is Some {
        let v = ov.unwrap();
        lemma_subrange_split(s, i, seq![PROP_WILDCARD_SUBSCRIPTION_AVAILABLE], crate::codec::enc_bool(v));
        assert(s.subrange(i, i + 1)[0] == s[i]);
        assert(s.subrange(i + 1, i + 2)[0] == s[i + 1]);
    }
}

/// One property-loop step over the encoded `subscription_id_available` property.
proof fn lemma_connack_step_subscription_id_available(s: Seq<u8>, i: int, end: int, acc: ConnAckProps, ov: Option<bool>)
    requires
        0 <= i,
        i + enc_opt_bool(PROP_SUBSCRIPTION_ID_AVAILABLE, ov).len() <= s.len(),
        i + enc_opt_bool(PROP_SUBSCRIPTION_ID_AVAILABLE, ov).len() <= end,
        s.subrange(i, i + enc_opt_bool(PROP_SUBSCRIPTION_ID_AVAILABLE, ov).len()) == enc_opt_bool(PROP_SUBSCRIPTION_ID_AVAILABLE, ov),
        acc.subscription_id_available is None,
    ensures
        parse_connack_prop_items(s, i, end, acc) == parse_connack_prop_items(
            s,
            i + enc_opt_bool(PROP_SUBSCRIPTION_ID_AVAILABLE, ov).len(),
            end,
            (ConnAckProps { subscription_id_available: ov, ..acc }),
        ),
{
    if ov is Some {
        let v = ov.unwrap();
        lemma_subrange_split(s, i, seq![PROP_SUBSCRIPTION_ID_AVAILABLE], crate::codec::enc_bool(v));
        assert(s.subrange(i, i + 1)[0] == s[i]);
        assert(s.subrange(i + 1, i + 2)[0] == s[i + 1]);
    }
}

/// One property-loop step over the encoded `shared_subscription_available` property.
proof fn lemma_connack_step_shared_subscription_available(s: Seq<u8>, i: int, end: int, acc: ConnAckProps, ov: Option<bool>)
    requires
        0 <= i,
        i + enc_opt_bool(PROP_SHARED_SUBSCRIPTION_AVAILABLE, ov).len() <= s.len(),
        i + enc_opt_bool(PROP_SHARED_SUBSCRIPTION_AVAILABLE, ov).len() <= end,
        s.subrange(i, i + enc_opt_bool(PROP_SHARED_SUBSCRIPTION_AVAILABLE, ov).len()) == enc_opt_bool(PROP_SHARED_SUBSCRIPTION_AVAILABLE, ov),
        acc.shared_subscription_available is None,
    ensures
        parse_connack_prop_items(s, i, end, acc) == parse_connack_prop_items(
            s,
            i + enc_opt_bool(PROP_SHARED_SUBSCRIPTION_AVAILABLE, ov).len(),
            end,
            (ConnAckProps { shared_subscription_available: ov, ..acc }),
        ),
{
    if ov is Some {
        let v = ov.unwrap();
        lemma_subrange_split(s, i, seq![PROP_SHARED_SUBSCRIPTION_AVAILABLE], crate::codec::enc_bool(v));
        assert(s.subrange(i, i + 1)[0] == s[i]);
        assert(s.subrange(i + 1, i + 2)[0] == s[i + 1]);
    }
}

/// The accumulator after the first 4 properties are consumed.
pub open spec fn connack_acc_1(p: ConnAckProps) -> ConnAckProps {
    ConnAckProps {
        session_expiry_interval: p.session_expiry_interval,
        assigned_client_id: p.assigned_client_id,
        server_keep_alive: p.server_keep_alive,
        authentication_method: p.authentication_method,
        authentication_data: None,
        response_information: None,
        server_reference: None,
        reason_string: None,
        receive_maximum: None,
        topic_alias_maximum: None,
        maximum_qos: None,
        retain_available: None,
        maximum_packet_size: None,
        wildcard_subscription_available: None,
        subscription_id_available: None,
        shared_subscription_available: None,
    }
}

/// Walking the property loop over one encoded segment.
#[verifier::spinoff_prover]
#[verifier::rlimit(100)]
proof fn lemma_connack_chain_a(s: Seq<u8>, i: int, end: int, p: ConnAckProps)
    requires
        wf_connack_props(p),
        0 <= i,
        i + enc_connack_items_a(p).len() <= s.len(),
        i + enc_connack_items_a(p).len() <= end,
        s.subrange(i, i + enc_connack_items_a(p).len()) == enc_connack_items_a(p),
    ensures
        parse_connack_prop_items(s, i, end, connack_props_none()) == parse_connack_prop_items(
            s,
            i + enc_connack_items_a(p).len(),
            end,
            connack_acc_1(p),
        ),
{
    assert(enc_connack_items_a(p) =~= enc_opt_u32(PROP_SESSION_EXPIRY_INTERVAL, p.session_expiry_interval) + (enc_opt_data(PROP_ASSIGNED_CLIENT_ID, p.assigned_client_id) + (enc_opt_u16(PROP_SERVER_KEEP_ALIVE, p.server_keep_alive) + (enc_opt_data(PROP_AUTHENTICATION_METHOD, p.authentication_method)))));
    lemma_subrange_split(s, i, enc_opt_u32(PROP_SESSION_EXPIRY_INTERVAL, p.session_expiry_interval), enc_opt_data(PROP_ASSIGNED_CLIENT_ID, p.assigned_client_id) + (enc_opt_u16(PROP_SERVER_KEEP_ALIVE, p.server_keep_alive) + (enc_opt_data(PROP_AUTHENTICATION_METHOD, p.authentication_method))));
    let j0 = i + enc_opt_u32(PROP_SESSION_EXPIRY_INTERVAL, p.session_expiry_interval).len();
    lemma_subrange_split(s, j0, enc_opt_data(PROP_ASSIGNED_CLIENT_ID, p.assigned_client_id), enc_opt_u16(PROP_SERVER_KEEP_ALIVE, p.server_keep_alive) + (enc_opt_data(PROP_AUTHENTICATION_METHOD, p.authentication_method)));
    let j1 = j0 + enc_opt_data(PROP_ASSIGNED_CLIENT_ID, p.assigned_client_id).len();
    lemma_subrange_split(s, j1, enc_opt_u16(PROP_SERVER_KEEP_ALIVE, p.server_keep_alive), enc_opt_data(PROP_AUTHENTICATION_METHOD, p.authentication_method));
    let j2 = j1 + enc_opt_u16(PROP_SERVER_KEEP_ALIVE, p.server_keep_alive).len();
    let j3 = j2 + enc_opt_data(PROP_AUTHENTICATION_METHOD, p.authentication_method).len();
    let acc0 = connack_props_none();
    lemma_connack_step_session_expiry_interval(s, i, end, acc0, p.session_expiry_interval);
    let acc1 = ConnAckProps { session_expiry_interval: p.session_expiry_interval, ..acc0 };
    lemma_connack_step_assigned_client_id(s, j0, end, acc1, p.assigned_client_id);
    let acc2 = ConnAckProps { assigned_client_id: p.assigned_client_id, ..acc1 };
    lemma_connack_step_server_keep_alive(s, j1, end, acc2, p.server_keep_alive);
    let acc3 = ConnAckProps { server_keep_alive: p.server_keep_alive, ..acc2 };
    lemma_connack_step_authentication_method(s, j2, end, acc3, p.authentication_method);
    let acc4 = ConnAckProps { authentication_method: p.authentication_method, ..acc3 };
    assert(acc4 =~= connack_acc_1(p));
}

/// The accumulator after the first 8 properties are consumed.
pub open spec fn connack_acc_2(p: ConnAckProps) -> ConnAckProps {
    ConnAckProps {
        session_expiry_interval: p.session_expiry_interval,
        assigned_client_id: p.assigned_client_id,
        server_keep_alive: p.server_keep_alive,
        authentication_method: p.authentication_method,
        authentication_data: p.authentication_data,
        response_information: p.response_information,
        server_reference: p.server_reference,
        reason_string: p.reason_string,
        receive_maximum: None,
        topic_alias_maximum: None,
        maximum_qos: None,
        retain_available: None,
        maximum_packet_size: None,
        wildcard_subscription_available: None,
        subscription_id_available: None,
        shared_subscription_available: None,
    }
}

/// Walking the property loop over one encoded segment.
#[verifier::spinoff_prover]
#[verifier::rlimit(100)]
proof fn lemma_connack_chain_b(s: Seq<u8>, i: int, end: int, p: ConnAckProps)
    requires
        wf_connack_props(p),
        0 <= i,
        i + enc_connack_items_b(p).len() <= s.len(),
        i + enc_connack_items_b(p).len() <= end,
        s.subrange(i, i + enc_connack_items_b(p).len()) == enc_connack_items_b(p),
    ensures
        parse_connack_prop_items(s, i, end, connack_acc_1(p)) == parse_connack_prop_items(
            s,
            i + enc_connack_items_b(p).len(),
            end,
            connack_acc_2(p),
        ),
{
    assert(enc_connack_items_b(p) =~= enc_opt_data(PROP_AUTHENTICATION_DATA, p.authentication_data) + (enc_opt_data(PROP_RESPONSE_INFORMATION, p.response_information) + (enc_opt_data(PROP_SERVER_REFERENCE, p.server_reference) + (enc_opt_data(PROP_REASON_STRING, p.reason_string)))));
    lemma_subrange_split(s, i, enc_opt_data(PROP_AUTHENTICATION_DATA, p.authentication_data), enc_opt_data(PROP_RESPONSE_INFORMATION, p.response_information) + (enc_opt_data(PROP_SERVER_REFERENCE, p.server_reference) + (enc_opt_data(PROP_REASON_STRING, p.reason_string))));
    let j0 = i + enc_opt_data(PROP_AUTHENTICATION_DATA, p.authentication_data).len();
    lemma_subrange_split(s, j0, enc_opt_data(PROP_RESPONSE_INFORMATION, p.response_information), enc_opt_data(PROP_SERVER_REFERENCE, p.server_reference) + (enc_opt_data(PROP_REASON_STRING, p.reason_string)));
    let j1 = j0 + enc_opt_data(PROP_RESPONSE_INFORMATION, p.response_information).len();
    lemma_subrange_split(s, j1, enc_opt_data(PROP_SERVER_REFERENCE, p.server_reference), enc_opt_data(PROP_REASON_STRING, p.reason_string));
    let j2 = j1 + enc_opt_data(PROP_SERVER_REFERENCE, p.server_reference).len();
    let j3 = j2 + enc_opt_data(PROP_REASON_STRING, p.reason_string).len();
    let acc0 = connack_acc_1(p);
    lemma_connack_step_authentication_data(s, i, end, acc0, p.authentication_data);
    let acc1 = ConnAckProps { authentication_data: p.authentication_data, ..acc0 };
    lemma_connack_step_response_information(s, j0, end, acc1, p.response_information);
    let acc2 = ConnAckProps { response_information: p.response_information, ..acc1 };
    lemma_connack_step_server_reference(s, j1, end, acc2, p.server_reference);
    let acc3 = ConnAckProps { server_reference: p.server_reference, ..acc2 };
    lemma_connack_step_reason_string(s, j2, end, acc3, p.reason_string);
    let acc4 = ConnAckProps { reason_string: p.reason_string, ..acc3 };
    assert(acc4 =~= connack_acc_2(p));
}

/// The accumulator after the first 12 properties are consumed.
pub open spec fn connack_acc_3(p: ConnAckProps) -> ConnAckProps {
    ConnAckProps {
        session_expiry_interval: p.session_expiry_interval,
        assigned_client_id: p.assigned_client_id,
        server_keep_alive: p.server_keep_alive,
        authentication_method: p.authentication_method,
        authentication_data: p.authentication_data,
        response_information: p.response_information,
        server_reference: p.server_reference,
        reason_string: p.reason_string,
        receive_maximum: p.receive_maximum,
        topic_alias_maximum: p.topic_alias_maximum,
        maximum_qos: p.maximum_qos,
        retain_available: p.retain_available,
        maximum_packet_size: None,
        wildcard_subscription_available: None,
        subscription_id_available: None,
        shared_subscription_available: None,
    }
}

/// Walking the property loop over one encoded segment.
#[verifier::spinoff_prover]
#[verifier::rlimit(100)]
proof fn lemma_connack_chain_c(s: Seq<u8>, i: int, end: int, p: ConnAckProps)
    requires
        wf_connack_props(p),
        0 <= i,
        i + enc_connack_items_c(p).len() <= s.len(),
        i + enc_connack_items_c(p).len() <= end,
        s.subrange(i, i + enc_connack_items_c(p).len()) == enc_connack_items_c(p),
    ensures
        parse_connack_prop_items(s, i, end, connack_acc_2(p)) == parse_connack_prop_items(
            s,
            i + enc_connack_items_c(p).len(),
            end,
            connack_acc_3(p),
        ),
{
    assert(enc_connack_items_c(p) =~= enc_opt_u16(PROP_RECEIVE_MAXIMUM, p.receive_maximum) + (enc_opt_u16(PROP_TOPIC_ALIAS_MAXIMUM, p.topic_alias_maximum) + (enc_opt_qos(PROP_MAXIMUM_QOS, p.maximum_qos) + (enc_opt_bool(PROP_RETAIN_AVAILABLE, p.retain_available)))));
    lemma_subrange_split(s, i, enc_opt_u16(PROP_RECEIVE_MAXIMUM, p.receive_maximum), enc_opt_u16(PROP_TOPIC_ALIAS_MAXIMUM, p.topic_alias_maximum) + (enc_opt_qos(PROP_MAXIMUM_QOS, p.maximum_qos) + (enc_opt_bool(PROP_RETAIN_AVAILABLE, p.retain_available))));
    let j0 = i + enc_opt_u16(PROP_RECEIVE_MAXIMUM, p.receive_maximum).len();
    lemma_subrange_split(s, j0, enc_opt_u16(PROP_TOPIC_ALIAS_MAXIMUM, p.topic_alias_maximum), enc_opt_qos(PROP_MAXIMUM_QOS, p.maximum_qos) + (enc_opt_bool(PROP_RETAIN_AVAILABLE, p.retain_available)));
    let j1 = j0 + enc_opt_u16(PROP_TOPIC_ALIAS_MAXIMUM, p.topic_alias_maximum).len();
    lemma_subrange_split(s, j1, enc_opt_qos(PROP_MAXIMUM_QOS, p.maximum_qos), enc_opt_bool(PROP_RETAIN_AVAILABLE, p.retain_available));
    let j2 = j1 + enc_opt_qos(PROP_MAXIMUM_QOS, p.maximum_qos).len();
    let j3 = j2 + enc_opt_bool(PROP_RETAIN_AVAILABLE, p.retain_available).len();
    let acc0 = connack_acc_2(p);
    lemma_connack_step_receive_maximum(s, i, end, acc0, p.receive_maximum);
    let acc1 = ConnAckProps { receive_maximum: p.receive_maximum, ..acc0 };
    lemma_connack_step_topic_alias_maximum(s, j0, end, acc1, p.topic_alias_maximum);
    let acc2 = ConnAckProps { topic_alias_maximum: p.topic_alias_maximum, ..acc1 };
    lemma_connack_step_maximum_qos(s, j1, end, acc2, p.maximum_qos);
    let acc3 = ConnAckProps { maximum_qos: p.maximum_qos, ..acc2 };
    lemma_connack_step_retain_available(s, j2, end, acc3, p.retain_available);
    let acc4 = ConnAckProps { retain_available: p.retain_available, ..acc3 };
    assert(acc4 =~= connack_acc_3(p));
}

/// The accumulator after the first 16 properties are consumed.
pub open spec fn connack_acc_4(p: ConnAckProps) -> ConnAckProps {
    ConnAckProps {
        session_expiry_interval: p.session_expiry_interval,
        assigned_client_id: p.assigned_client_id,
        server_keep_alive: p.server_keep_alive,
        authentication_method: p.authentication_method,
        authentication_data: p.authentication_data,
        response_information: p.response_information,
        server_reference: p.server_reference,
        reason_string: p.reason_string,
        receive_maximum: p.receive_maximum,
        topic_alias_maximum: p.topic_alias_maximum,
        maximum_qos: p.maximum_qos,
        retain_available: p.retain_available,
        maximum_packet_size: p.maximum_packet_size,
        wildcard_subscription_available: p.wildcard_subscription_available,
        subscription_id_available: p.subscription_id_available,
        shared_subscription_available: p.shared_subscription_available,
    }
}

/// Walking the property loop over one encoded segment.
#[verifier::spinoff_prover]
#[verifier::rlimit(100)]
proof fn lemma_connack_chain_d(s: Seq<u8>, i: int, end: int, p: ConnAckProps)
    requires
        wf_connack_props(p),
        0 <= i,
        i + enc_connack_items_d(p).len() <= s.len(),
        i + enc_connack_items_d(p).len() <= end,
        s.subrange(i, i + enc_connack_items_d(p).len()) == enc_connack_items_d(p),
    ensures
        parse_connack_prop_items(s, i, end, connack_acc_3(p)) == parse_connack_prop_items(
            s,
            i + enc_connack_items_d(p).len(),
            end,
            connack_acc_4(p),
        ),
{
    assert(enc_connack_items_d(p) =~= enc_opt_u32(PROP_MAXIMUM_PACKET_SIZE, p.maximum_packet_size) + (enc_opt_bool(PROP_WILDCARD_SUBSCRIPTION_AVAILABLE, p.wildcard_subscription_available) + (enc_opt_bool(PROP_SUBSCRIPTION_ID_AVAILABLE, p.subscription_id_available) + (enc_opt_bool(PROP_SHARED_SUBSCRIPTION_AVAILABLE, p.shared_subscription_available)))));
    lemma_subrange_split(s, i, enc_opt_u32(PROP_MAXIMUM_PACKET_SIZE, p.maximum_packet_size), enc_opt_bool(PROP_WILDCARD_SUBSCRIPTION_AVAILABLE, p.wildcard_subscription_available) + (enc_opt_bool(PROP_SUBSCRIPTION_ID_AVAILABLE, p.subscription_id_available) + (enc_opt_bool(PROP_SHARED_SUBSCRIPTION_AVAILABLE, p.shared_subscription_available))));
    let j0 = i + enc_opt_u32(PROP_MAXIMUM_PACKET_SIZE, p.maximum_packet_size).len();
    lemma_subrange_split(s, j0, enc_opt_bool(PROP_WILDCARD_SUBSCRIPTION_AVAILABLE, p.wildcard_subscription_available), enc_opt_bool(PROP_SUBSCRIPTION_ID_AVAILABLE, p.subscription_id_available) + (enc_opt_bool(PROP_SHARED_SUBSCRIPTION_AVAILABLE, p.shared_subscription_available)));
    let j1 = j0 + enc_opt_bool(PROP_WILDCARD_SUBSCRIPTION_AVAILABLE, p.wildcard_subscription_available).len();
    lemma_subrange_split(s, j1, enc_opt_bool(PROP_SUBSCRIPTION_ID_AVAILABLE, p.subscription_id_available), enc_opt_bool(PROP_SHARED_SUBSCRIPTION_AVAILABLE, p.shared_subscription_available));
    let j2 = j1 + enc_opt_bool(PROP_SUBSCRIPTION_ID_AVAILABLE, p.subscription_id_available).len();
    let j3 = j2 + enc_opt_bool(PROP_SHARED_SUBSCRIPTION_AVAILABLE, p.shared_subscription_available).len();
    let acc0 = connack_acc_3(p);
    lemma_connack_step_maximum_packet_size(s, i, end, acc0, p.maximum_packet_size);
    let acc1 = ConnAckProps { maximum_packet_size: p.maximum_packet_size, ..acc0 };
    lemma_connack_step_wildcard_subscription_available(s, j0, end, acc1, p.wildcard_subscription_available);
    let acc2 = ConnAckProps { wildcard_subscription_available: p.wildcard_subscription_available, ..acc1 };
    lemma_connack_step_subscription_id_available(s, j1, end, acc2, p.subscription_id_available);
    let acc3 = ConnAckProps { subscription_id_available: p.subscription_id_available, ..acc2 };
    lemma_connack_step_shared_subscription_available(s, j2, end, acc3, p.shared_subscription_available);
    let acc4 = ConnAckProps { shared_subscription_available: p.shared_subscription_available, ..acc3 };
    assert(acc4 =~= connack_acc_4(p));
}

/// Parsing an encoded ConnAck property region yields the fields back.
#[verifier::spinoff_prover]
#[verifier::rlimit(100)]
pub proof fn lemma_parse_enc_connack_props(s: Seq<u8>, i: int, p: ConnAckProps)
    requires
        wf_connack_props(p),
        enc_connack_prop_items(p).len() <= VBI_MAX,
        0 <= i,
        i + enc_connack_props(p).len() <= s.len(),
        s.subrange(i, i + enc_connack_props(p).len()) == enc_connack_props(p),
    ensures
        parse_connack_props(s, i) == (Parsed::Found {
            val: p,
            next: i + enc_connack_props(p).len(),
        }),
{
    let items = enc_connack_prop_items(p);
    let lenb = enc_vbi(items.len() as u32);
    lemma_enc_vbi_len(items.len() as u32);
    lemma_subrange_split(s, i, lenb, items);
    lemma_parse_enc_vbi(s, i, items.len() as u32);
    let j0 = i + lenb.len();
    let end = j0 + items.len();
    assert(items =~= enc_connack_items_a(p) + (enc_connack_items_b(p) + (enc_connack_items_c(p) + (enc_connack_items_d(p)))));
    lemma_subrange_split(s, j0, enc_connack_items_a(p), enc_connack_items_b(p) + (enc_connack_items_c(p) + (enc_connack_items_d(p))));
    lemma_connack_chain_a(s, j0, end, p);
    let k0 = j0 + enc_connack_items_a(p).len();
    lemma_subrange_split(s, k0, enc_connack_items_b(p), enc_connack_items_c(p) + (enc_connack_items_d(p)));
    lemma_connack_chain_b(s, k0, end, p);
    let k1 = k0 + enc_connack_items_b(p).len();
    lemma_subrange_split(s, k1, enc_connack_items_c(p), enc_connack_items_d(p));
    lemma_connack_chain_c(s, k1, end, p);
    let k2 = k1 + enc_connack_items_c(p).len();
    lemma_connack_chain_d(s, k2, end, p);
    let k3 = k2 + enc_connack_items_d(p).len();
    assert(parse_connack_prop_items(s, k3, end, connack_acc_4(p)) == (Parsed::Found {
        val: connack_acc_4(p),
        next: end,
    }));
    assert(connack_acc_4(p) =~= p);
}

/// Reads a ConnAck property region.
#[verifier::spinoff_prover]
#[verifier::rlimit(100)]
pub fn read_connack_props(s: &[u8], pos: usize) -> (r: Result<((Option<u32>, Option<Vec<u8>>, Option<u16>, Option<Vec<u8>>, Option<Vec<u8>>, Option<Vec<u8>>, Option<Vec<u8>>, Option<Vec<u8>>, Option<u16>, Option<u16>, Option<QoS>, Option<bool>, Option<u32>, Option<bool>, Option<bool>, Option<bool>), usize), CodecError>)
    requires
        pos <= s@.len(),
    ensures
        (match parse_connack_props(s@, pos as int) {
            Parsed::Found { val, next } => r matches Ok(x) && x.0.0 == val.session_expiry_interval
                && view_opt_bytes(x.0.1) == val.assigned_client_id
                && x.0.2 == val.server_keep_alive
                && view_opt_bytes(x.0.3) == val.authentication_method
                && view_opt_bytes(x.0.4) == val.authentication_data
                && view_opt_bytes(x.0.5) == val.response_information
                && view_opt_bytes(x.0.6) == val.server_reference
                && view_opt_bytes(x.0.7) == val.reason_string
                && x.0.8 == val.receive_maximum
                && x.0.9 == val.topic_alias_maximum
                && x.0.10 == val.maximum_qos
                && x.0.11 == val.retain_available
                && x.0.12 == val.maximum_packet_size
                && x.0.13 == val.wildcard_subscription_available
                && x.0.14 == val.subscription_id_available
                && x.0.15 == val.shared_subscription_available
                && x.1 == next && pos < next <= s@.len() && next <= usize::MAX,
            Parsed::Incomplete => r matches Err(e) && e == CodecError::InsufficientBytes,
            Parsed::Malformed => r matches Err(e) && e == CodecError::MalformedBytes,
        }),
{
    let (plen, p0) = read_vbi(s, pos)?;
    let ghost end = p0 as int + plen as int;
    let mut session_expiry_interval: Option<u32> = None;
    let mut assigned_client_id: Option<Vec<u8>> = None;
    let mut server_keep_alive: Option<u16> = None;
    let mut authentication_method: Option<Vec<u8>> = None;
    let mut authentication_data: Option<Vec<u8>> = None;
    let mut response_information: Option<Vec<u8>> = None;
    let mut server_reference: Option<Vec<u8>> = None;
    let mut reason_string: Option<Vec<u8>> = None;
    let mut receive_maximum: Option<u16> = None;
    let mut topic_alias_maximum: Option<u16> = None;
    let mut maximum_qos: Option<QoS> = None;
    let mut retain_available: Option<bool> = None;
    let mut maximum_packet_size: Option<u32> = None;
    let mut wildcard_subscription_available: Option<bool> = None;
    let mut subscription_id_available: Option<bool> = None;
    let mut shared_subscription_available: Option<bool> = None;
    let mut cur: usize = p0;
    while cur - p0 < plen as usize
        invariant
            pos < p0 <= cur <= s@.len(),
            end == p0 as int + plen as int,
            parse_connack_props(s@, pos as int) == parse_connack_prop_items(
                s@,
                cur as int,
                end,
                ConnAckProps {
                    session_expiry_interval: session_expiry_interval,
                    assigned_client_id: view_opt_bytes(assigned_client_id),
                    server_keep_alive: server_keep_alive,
                    authentication_method: view_opt_bytes(authentication_method),
                    authentication_data: view_opt_bytes(authentication_data),
                    response_information: view_opt_bytes(response_information),
                    server_reference: view_opt_bytes(server_reference),
                    reason_string: view_opt_bytes(reason_string),
                    receive_maximum: receive_maximum,
                    topic_alias_maximum: topic_alias_maximum,
                    maximum_qos: maximum_qos,
                    retain_available: retain_available,
                    maximum_packet_size: maximum_packet_size,
                    wildcard_subscription_available: wildcard_subscription_available,
                    subscription_id_available: subscription_id_available,
                    shared_subscription_available: shared_subscription_available,
                },
            ),
        decreases rem(cur as int, end),
    {
        let (id, p1) = read_u8(s, cur)?;
        if id == PROP_SESSION_EXPIRY_INTERVAL {
            let (v, p2) = read_u32(s, p1)?;
            if session_expiry_interval.is_some() {
                return Err(CodecError::MalformedBytes);
            }
            session_expiry_interval = Some(v);
            cur = p2;
        } else if id == PROP_ASSIGNED_CLIENT_ID {
            let (v, p2) = read_str(s, p1)?;
            if assigned_client_id.is_some() {
                return Err(CodecError::MalformedBytes);
            }
            assigned_client_id = Some(v);
            cur = p2;
        } else if id == PROP_SERVER_KEEP_ALIVE {
            let (v, p2) = read_u16(s, p1)?;
            if server_keep_alive.is_some() {
                return Err(CodecError::MalformedBytes);
            }
            server_keep_alive = Some(v);
            cur = p2;
        } else if id == PROP_AUTHENTICATION_METHOD {
            let (v, p2) = read_str(s, p1)?;
            if authentication_method.is_some() {
                return Err(CodecError::MalformedBytes);
            }
            authentication_method = Some(v);
            cur = p2;
        } else if id == PROP_AUTHENTICATION_DATA {
            let (v, p2) = read_data(s, p1)?;
            if authentication_data.is_some() {
                return Err(CodecError::MalformedBytes);
            }
            authentication_data = Some(v);
            cur = p2;
        } else if id == PROP_RESPONSE_INFORMATION {
            let (v, p2) = read_str(s, p1)?;
            if response_information.is_some() {
                return Err(CodecError::MalformedBytes);
            }
            response_information = Some(v);
            cur = p2;
        } else if id == PROP_SERVER_REFERENCE {
            let (v, p2) = read_str(s, p1)?;
            if server_reference.is_some() {
                return Err(CodecError::MalformedBytes);
            }
            server_reference = Some(v);
            cur = p2;
        } else if id == PROP_REASON_STRING {
            let (v, p2) = read_str(s, p1)?;
            if reason_string.is_some() {
                return Err(CodecError::MalformedBytes);
            }
            reason_string = Some(v);
            cur = p2;
        } else if id == PROP_RECEIVE_MAXIMUM {
            let (v, p2) = read_u16(s, p1)?;
            if receive_maximum.is_some() {
                return Err(CodecError::MalformedBytes);
            }
            receive_maximum = Some(v);
            cur = p2;
        } else if id == PROP_TOPIC_ALIAS_MAXIMUM {
            let (v, p2) = read_u16(s, p1)?;
            if topic_alias_maximum.is_some() {
                return Err(CodecError::MalformedBytes);
            }
            topic_alias_maximum = Some(v);
            cur = p2;
        } else if id == PROP_MAXIMUM_QOS {
            let (b, p2) = read_u8(s, p1)?;
            let q = QoS::new(b)?;
            if maximum_qos.is_some() {
                return Err(CodecError::MalformedBytes);
            }
            maximum_qos = Some(q);
            cur = p2;
        } else if id == PROP_RETAIN_AVAILABLE {
            let (v, p2) = read_bool(s, p1)?;
            if retain_available.is_some() {
                return Err(CodecError::MalformedBytes);
            }
            retain_available = Some(v);
            cur = p2;
        } else if id == PROP_MAXIMUM_PACKET_SIZE {
            let (v, p2) = read_u32(s, p1)?;
            if maximum_packet_size.is_some() {
                return Err(CodecError::MalformedBytes);
            }
            maximum_packet_size = Some(v);
            cur = p2;
        } else if id == PROP_WILDCARD_SUBSCRIPTION_AVAILABLE {
            let (v, p2) = read_bool(s, p1)?;
            if wildcard_subscription_available.is_some() {
                return Err(CodecError::MalformedBytes);
            }
            wildcard_subscription_available = Some(v);
            cur = p2;
        } else if id == PROP_SUBSCRIPTION_ID_AVAILABLE {
            let (v, p2) = read_bool(s, p1)?;
            if subscription_id_available.is_some() {
                return Err(CodecError::MalformedBytes);
            }
            subscription_id_available = Some(v);
            cur = p2;
        } else if id == PROP_SHARED_SUBSCRIPTION_AVAILABLE {
            let (v, p2) = read_bool(s, p1)?;
            if shared_subscription_available.is_some() {
                return Err(CodecError::MalformedBytes);
            }
            shared_subscription_available = Some(v);
            cur = p2;
        } else {
            return Err(CodecError::MalformedBytes);
        }
    }
    Ok(
        (
            (
                session_expiry_interval,
                assigned_client_id,
                server_keep_alive,
                authentication_method,
                authentication_data,
                response_information,
                server_reference,
                reason_string,
                receive_maximum,
                topic_alias_maximum,
                maximum_qos,
                retain_available,
                maximum_packet_size,
                wildcard_subscription_available,
                subscription_id_available,
                shared_subscription_available,
            ),
            cur,
        ),
    )
}

/// The property fields of the packet, written only when they differ
/// from their protocol defaults.
pub open spec fn connack_props_of(v: ConnAckView) -> ConnAckProps {
    ConnAckProps {
        session_expiry_interval: v.session_expiry_interval,
        assigned_client_id: v.assigned_client_id,
        server_keep_alive: v.server_keep_alive,
        authentication_method: v.authentication_method,
        authentication_data: v.authentication_data,
        response_information: v.response_information,
        server_reference: v.server_reference,
        reason_string: v.reason_string,
        receive_maximum: if v.receive_maximum != 65535 {
            Some(v.receive_maximum)
        } else {
            None
        },
        topic_alias_maximum: if v.topic_alias_maximum != 0 {
            Some(v.topic_alias_maximum)
        } else {
            None
        },
        maximum_qos: if v.maximum_qos != QoS::ExactlyOnce {
            Some(v.maximum_qos)
        } else {
            None
        },
        retain_available: if v.retain_available != true {
            Some(v.retain_available)
        } else {
            None
        },
        maximum_packet_size: v.maximum_packet_size,
        wildcard_subscription_available: if v.wildcard_subscription_available != true {
            Some(v.wildcard_subscription_available)
        } else {
            None
        },
        subscription_id_available: if v.subscription_id_available != true {
            Some(v.subscription_id_available)
        } else {
            None
        },
        shared_subscription_available: if v.shared_subscription_available != true {
            Some(v.shared_subscription_available)
        } else {
            None
        },
    }
}

/// Number of bytes of one segment of the encoded property items.
#[verifier::spinoff_prover]
#[verifier::rlimit(100)]
fn connack_items_size_a(p: &ConnAckPacket) -> (n: usize)
    requires
        p@.wf(),
    ensures
        n == enc_connack_items_a(connack_props_of(p@)).len(),
        n <= 4 * (3 + 0xFFFF),
{
    let mut items_len: usize = 0;
    if p.session_expiry_interval.is_some() {
        items_len = items_len + 5;
    }
    if let Some(v) = &p.assigned_client_id {
        items_len = items_len + 3 + v.len();
    }
    if p.server_keep_alive.is_some() {
        items_len = items_len + 3;
    }
    if let Some(v) = &p.authentication_method {
        items_len = items_len + 3 + v.len();
    }
    items_len
}

/// Number of bytes of one segment of the encoded property items.
#[verifier::spinoff_prover]
#[verifier::rlimit(100)]
fn connack_items_size_b(p: &ConnAckPacket) -> (n: usize)
    requires
        p@.wf(),
    ensures
        n == enc_connack_items_b(connack_props_of(p@)).len(),
        n <= 4 * (3 + 0xFFFF),
{
    let mut items_len: usize = 0;
    if let Some(v) = &p.authentication_data {
        items_len = items_len + 3 + v.len();
    }
    if let Some(v) = &p.response_information {
        items_len = items_len + 3 + v.len();
    }
    if let Some(v) = &p.server_reference {
        items_len = items_len + 3 + v.len();
    }
    if let Some(v) = &p.reason_string {
        items_len = items_len + 3 + v.len();
    }
    items_len
}

/// Number of bytes of one segment of the encoded property items.
#[verifier::spinoff_prover]
#[verifier::rlimit(100)]
fn connack_items_size_c(p: &ConnAckPacket) -> (n: usize)
    requires
        p@.wf(),
    ensures
        n == enc_connack_items_c(connack_props_of(p@)).len(),
        n <= 4 * (3 + 0xFFFF),
{
    let mut items_len: usize = 0;
    if p.receive_maximum != 65535 {
        items_len = items_len + 3;
    }
    if p.topic_alias_maximum != 0 {
        items_len = items_len + 3;
    }
    if !matches!(p.maximum_qos, QoS::ExactlyOnce) {
        items_len = items_len + 2;
    }
    if p.retain_available != true {
        items_len = items_len + 2;
    }
    items_len
}

/// Number of bytes of one segment of the encoded property items.
#[verifier::spinoff_prover]
#[verifier::rlimit(100)]
fn connack_items_size_d(p: &ConnAckPacket) -> (n: usize)
    requires
        p@.wf(),
    ensures
        n == enc_connack_items_d(connack_props_of(p@)).len(),
        n <= 4 * (3 + 0xFFFF),
{
    let mut items_len: usize = 0;
    if p.maximum_packet_size.is_some() {
        items_len = items_len + 5;
    }
    if p.wildcard_subscription_available != true {
        items_len = items_len + 2;
    }
    if p.subscription_id_available != true {
        items_len = items_len + 2;
    }
    if p.shared_subscription_available != true {
        items_len = items_len + 2;
    }
    items_len
}

/// Number of bytes of the encoded ConnAck property items, without the
/// length prefix.
pub fn connack_prop_items_size(p: &ConnAckPacket) -> (n: usize)
    requires
        p@.wf(),
    ensures
        n == enc_connack_prop_items(connack_props_of(p@)).len(),
        n <= 16 * (3 + 0xFFFF),
{
    connack_items_size_a(p) + connack_items_size_b(p) + connack_items_size_c(p)
        + connack_items_size_d(p)
}

/// Writes one segment of the property items.
#[verifier::spinoff_prover]
#[verifier::rlimit(100)]
fn write_connack_items_a(buf: &mut Vec<u8>, pos: usize, p: &ConnAckPacket) -> (n: usize)
    requires
        p@.wf(),
        pos + enc_connack_items_a(connack_props_of(p@)).len() <= old(buf)@.len(),
    ensures
        final(buf)@ == spliced(old(buf)@, pos as int, enc_connack_items_a(connack_props_of(p@))),
        final(buf)@.len() == old(buf)@.len(),
        n == enc_connack_items_a(connack_props_of(p@)).len(),
{
    let ghost pr = connack_props_of(p@);
    // Binding the length teaches the prover that positions fit in usize.
    let buf_len: usize = buf.len();
    let mut w: usize = 0;
    proof {
        crate::codec::lemma_spliced_empty(old(buf)@, pos as int);
    }
    let ghost done = Seq::<u8>::empty();
    if let Some(x) = p.session_expiry_interval {
        proof {
            lemma_spliced_concat(old(buf)@, pos as int, done, seq![PROP_SESSION_EXPIRY_INTERVAL] + crate::codec::enc_u32(x));
        }
        write_prop_u32(buf, pos + w, PROP_SESSION_EXPIRY_INTERVAL, x);
        w = w + 5;
    }
    let ghost done1 = done + enc_opt_u32(PROP_SESSION_EXPIRY_INTERVAL, pr.session_expiry_interval);
    proof {
        if pr.session_expiry_interval is None {
            assert(done1 =~= done);
        }
        assert(buf@ == spliced(old(buf)@, pos as int, done1));
        assert(w == done1.len());
    }
    if let Some(v) = &p.assigned_client_id {
        proof {
            lemma_spliced_concat(old(buf)@, pos as int, done1, seq![PROP_ASSIGNED_CLIENT_ID] + crate::codec::enc_data(v@));
        }
        write_prop_data(buf, pos + w, PROP_ASSIGNED_CLIENT_ID, v.as_slice());
        w = w + 3 + v.len();
    }
    let ghost done2 = done1 + enc_opt_data(PROP_ASSIGNED_CLIENT_ID, pr.assigned_client_id);
    proof {
        if pr.assigned_client_id is None {
            assert(done2 =~= done1);
        }
        assert(buf@ == spliced(old(buf)@, pos as int, done2));
        assert(w == done2.len());
    }
    if let Some(x) = p.server_keep_alive {
        proof {
            lemma_spliced_concat(old(buf)@, pos as int, done2, seq![PROP_SERVER_KEEP_ALIVE] + crate::codec::enc_u16(x));
        }
        write_prop_u16(buf, pos + w, PROP_SERVER_KEEP_ALIVE, x);
        w = w + 3;
    }
    let ghost done3 = done2 + enc_opt_u16(PROP_SERVER_KEEP_ALIVE, pr.server_keep_alive);
    proof {
        if pr.server_keep_alive is None {
            assert(done3 =~= done2);
        }
        assert(buf@ == spliced(old(buf)@, pos as int, done3));
        assert(w == done3.len());
    }
    if let Some(v) = &p.authentication_method {
        proof {
            lemma_spliced_concat(old(buf)@, pos as int, done3, seq![PROP_AUTHENTICATION_METHOD] + crate::codec::enc_data(v@));
        }
        write_prop_data(buf, pos + w, PROP_AUTHENTICATION_METHOD, v.as_slice());
        w = w + 3 + v.len();
    }
    let ghost done4 = done3 + enc_opt_data(PROP_AUTHENTICATION_METHOD, pr.authentication_method);
    proof {
        if pr.authentication_method is None {
            assert(done4 =~= done3);
        }
        assert(buf@ == spliced(old(buf)@, pos as int, done4));
        assert(w == done4.len());
    }
    proof {
        assert(done4 =~= enc_connack_items_a(pr));
    }
    w
}

/// Writes one segment of the property items.
#[verifier::spinoff_prover]
#[verifier::rlimit(100)]
fn write_connack_items_b(buf: &mut Vec<u8>, pos: usize, p: &ConnAckPacket) -> (n: usize)
    requires
        p@.wf(),
        pos + enc_connack_items_b(connack_props_of(p@)).len() <= old(buf)@.len(),
    ensures
        final(buf)@ == spliced(old(buf)@, pos as int, enc_connack_items_b(connack_props_of(p@))),
        final(buf)@.len() == old(buf)@.len(),
        n == enc_connack_items_b(connack_props_of(p@)).len(),
{
    let ghost pr = connack_props_of(p@);
    // Binding the length teaches the prover that positions fit in usize.
    let buf_len: usize = buf.len();
    let mut w: usize = 0;
    proof {
        crate::codec::lemma_spliced_empty(old(buf)@, pos as int);
    }
    let ghost done = Seq::<u8>::empty();
    if let Some(v) = &p.authentication_data {
        proof {
            lemma_spliced_concat(old(buf)@, pos as int, done, seq![PROP_AUTHENTICATION_DATA] + crate::codec::enc_data(v@));
        }
        write_prop_data(buf, pos + w, PROP_AUTHENTICATION_DATA, v.as_slice());
        w = w + 3 + v.len();
    }
    let ghost done1 = done + enc_opt_data(PROP_AUTHENTICATION_DATA, pr.authentication_data);
    proof {
        if pr.authentication_data is None {
            assert(done1 =~= done);
        }
        assert(buf@ == spliced(old(buf)@, pos as int, done1));
        assert(w == done1.len());
    }
    if let Some(v) = &p.response_information {
        proof {
            lemma_spliced_concat(old(buf)@, pos as int, done1, seq![PROP_RESPONSE_INFORMATION] + crate::codec::enc_data(v@));
        }
        write_prop_data(buf, pos + w, PROP_RESPONSE_INFORMATION, v.as_slice());
        w = w + 3 + v.len();
    }
    let ghost done2 = done1 + enc_opt_data(PROP_RESPONSE_INFORMATION, pr.response_information);
    proof {
        if pr.response_information is None {
            assert(done2 =~= done1);
        }
        assert(buf@ == spliced(old(buf)@, pos as int, done2));
        assert(w == done2.len());
    }
    if let Some(v) = &p.server_reference {
        proof {
            lemma_spliced_concat(old(buf)@, pos as int, done2, seq![PROP_SERVER_REFERENCE] + crate::codec::enc_data(v@));
        }
        write_prop_data(buf, pos + w, PROP_SERVER_REFERENCE, v.as_slice());
        w = w + 3 + v.len();
    }
    let ghost done3 = done2 + enc_opt_data(PROP_SERVER_REFERENCE, pr.server_reference);
    proof {
        if pr.server_reference is None {
            assert(done3 =~= done2);
        }
        assert(buf@ == spliced(old(buf)@, pos as int, done3));
        assert(w == done3.len());
    }
    if let Some(v) = &p.reason_string {
        proof {
            lemma_spliced_concat(old(buf)@, pos as int, done3, seq![PROP_REASON_STRING] + crate::codec::enc_data(v@));
        }
        write_prop_data(buf, pos + w, PROP_REASON_STRING, v.as_slice());
        w = w + 3 + v.len();
    }
    let ghost done4 = done3 + enc_opt_data(PROP_REASON_STRING, pr.reason_string);
    proof {
        if pr.reason_string is None {
            assert(done4 =~= done3);
        }
        assert(buf@ == spliced(old(buf)@, pos as int, done4));
        assert(w == done4.len());
    }
    proof {
        assert(done4 =~= enc_connack_items_b(pr));
    }
    w
}

/// Writes one segment of the property items.
#[verifier::spinoff_prover]
#[verifier::rlimit(100)]
fn write_connack_items_c(buf: &mut Vec<u8>, pos: usize, p: &ConnAckPacket) -> (n: usize)
    requires
        p@.wf(),
        pos + enc_connack_items_c(connack_props_of(p@)).len() <= old(buf)@.len(),
    ensures
        final(buf)@ == spliced(old(buf)@, pos as int, enc_connack_items_c(connack_props_of(p@))),
        final(buf)@.len() == old(buf)@.len(),
        n == enc_connack_items_c(connack_props_of(p@)).len(),
{
    let ghost pr = connack_props_of(p@);
    // Binding the length teaches the prover that positions fit in usize.
    let buf_len: usize = buf.len();
    let mut w: usize = 0;
    proof {
        crate::codec::lemma_spliced_empty(old(buf)@, pos as int);
    }
    let ghost done = Seq::<u8>::empty();
    if p.receive_maximum != 65535 {
        let x = p.receive_maximum;
        proof {
            lemma_spliced_concat(old(buf)@, pos as int, done, seq![PROP_RECEIVE_MAXIMUM] + crate::codec::enc_u16(x));
        }
        write_prop_u16(buf, pos + w, PROP_RECEIVE_MAXIMUM, x);
        w = w + 3;
    }
    let ghost done1 = done + enc_opt_u16(PROP_RECEIVE_MAXIMUM, pr.receive_maximum);
    proof {
        if pr.receive_maximum is None {
            assert(done1 =~= done);
        }
        assert(buf@ == spliced(old(buf)@, pos as int, done1));
        assert(w == done1.len());
    }
    if p.topic_alias_maximum != 0 {
        let x = p.topic_alias_maximum;
        proof {
            lemma_spliced_concat(old(buf)@, pos as int, done1, seq![PROP_TOPIC_ALIAS_MAXIMUM] + crate::codec::enc_u16(x));
        }
        write_prop_u16(buf, pos + w, PROP_TOPIC_ALIAS_MAXIMUM, x);
        w = w + 3;
    }
    let ghost done2 = done1 + enc_opt_u16(PROP_TOPIC_ALIAS_MAXIMUM, pr.topic_alias_maximum);
    proof {
        if pr.topic_alias_maximum is None {
            assert(done2 =~= done1);
        }
        assert(buf@ == spliced(old(buf)@, pos as int, done2));
        assert(w == done2.len());
    }
    if !matches!(p.maximum_qos, QoS::ExactlyOnce) {
        let b = p.maximum_qos.value();
        proof {
            lemma_spliced_concat(old(buf)@, pos as int, done2, seq![PROP_MAXIMUM_QOS, p@.maximum_qos.as_byte()]);
        }
        write_prop_u8(buf, pos + w, PROP_MAXIMUM_QOS, b);
        w = w + 2;
    }
    let ghost done3 = done2 + enc_opt_qos(PROP_MAXIMUM_QOS, pr.maximum_qos);
    proof {
        if pr.maximum_qos is None {
            assert(done3 =~= done2);
        }
        assert(buf@ == spliced(old(buf)@, pos as int, done3));
        assert(w == done3.len());
    }
    if p.retain_available != true {
        proof {
            lemma_spliced_concat(old(buf)@, pos as int, done3, seq![PROP_RETAIN_AVAILABLE] + crate::codec::enc_bool(p.retain_available));
        }
        write_prop_bool(buf, pos + w, PROP_RETAIN_AVAILABLE, p.retain_available);
        w = w + 2;
    }
    let ghost done4 = done3 + enc_opt_bool(PROP_RETAIN_AVAILABLE, pr.retain_available);
    proof {
        if pr.retain_available is None {
            assert(done4 =~= done3);
        }
        assert(buf@ == spliced(old(buf)@, pos as int, done4));
        assert(w == done4.len());
    }
    proof {
        assert(done4 =~= enc_connack_items_c(pr));
    }
    w
}

/// Writes one segment of the property items.
#[verifier::spinoff_prover]
#[verifier::rlimit(100)]
fn write_connack_items_d(buf: &mut Vec<u8>, pos: usize, p: &ConnAckPacket) -> (n: usize)
    requires
        p@.wf(),
        pos + enc_connack_items_d(connack_props_of(p@)).len() <= old(buf)@.len(),
    ensures
        final(buf)@ == spliced(old(buf)@, pos as int, enc_connack_items_d(connack_props_of(p@))),
        final(buf)@.len() == old(buf)@.len(),
        n == enc_connack_items_d(connack_props_of(p@)).len(),
{
    let ghost pr = connack_props_of(p@);
    // Binding the length teaches the prover that positions fit in usize.
    let buf_len: usize = buf.len();
    let mut w: usize = 0;
    proof {
        crate::codec::lemma_spliced_empty(old(buf)@, pos as int);
    }
    let ghost done = Seq::<u8>::empty();
    if let Some(x) = p.maximum_packet_size {
        proof {
            lemma_spliced_concat(old(buf)@, pos as int, done, seq![PROP_MAXIMUM_PACKET_SIZE] + crate::codec::enc_u32(x));
        }
        write_prop_u32(buf, pos + w, PROP_MAXIMUM_PACKET_SIZE, x);
        w = w + 5;
    }
    let ghost done1 = done + enc_opt_u32(PROP_MAXIMUM_PACKET_SIZE, pr.maximum_packet_size);
    proof {
        if pr.maximum_packet_size is None {
            assert(done1 =~= done);
        }
        assert(buf@ == spliced(old(buf)@, pos as int, done1));
        assert(w == done1.len());
    }
    if p.wildcard_subscription_available != true {
        proof {
            lemma_spliced_concat(old(buf)@, pos as int, done1, seq![PROP_WILDCARD_SUBSCRIPTION_AVAILABLE] + crate::codec::enc_bool(p.wildcard_subscription_available));
        }
        write_prop_bool(buf, pos + w, PROP_WILDCARD_SUBSCRIPTION_AVAILABLE, p.wildcard_subscription_available);
        w = w + 2;
    }
    let ghost done2 = done1 + enc_opt_bool(PROP_WILDCARD_SUBSCRIPTION_AVAILABLE, pr.wildcard_subscription_available);
    proof {
        if pr.wildcard_subscription_available is None {
            assert(done2 =~= done1);
        }
        assert(buf@ == spliced(old(buf)@, pos as int, done2));
        assert(w == done2.len());
    }
    if p.subscription_id_available != true {
        proof {
            lemma_spliced_concat(old(buf)@, pos as int, done2, seq![PROP_SUBSCRIPTION_ID_AVAILABLE] + crate::codec::enc_bool(p.subscription_id_available));
        }
        write_prop_bool(buf, pos + w, PROP_SUBSCRIPTION_ID_AVAILABLE, p.subscription_id_available);
        w = w + 2;
    }
    let ghost done3 = done2 + enc_opt_bool(PROP_SUBSCRIPTION_ID_AVAILABLE, pr.subscription_id_available);
    proof {
        if pr.subscription_id_available is None {
            assert(done3 =~= done2);
        }
        assert(buf@ == spliced(old(buf)@, pos as int, done3));
        assert(w == done3.len());
    }
    if p.shared_subscription_available != true {
        proof {
            lemma_spliced_concat(old(buf)@, pos as int, done3, seq![PROP_SHARED_SUBSCRIPTION_AVAILABLE] + crate::codec::enc_bool(p.shared_subscription_available));
        }
        write_prop_bool(buf, pos + w, PROP_SHARED_SUBSCRIPTION_AVAILABLE, p.shared_subscription_available);
        w = w + 2;
    }
    let ghost done4 = done3 + enc_opt_bool(PROP_SHARED_SUBSCRIPTION_AVAILABLE, pr.shared_subscription_available);
    proof {
        if pr.shared_subscription_available is None {
            assert(done4 =~= done3);
        }
        assert(buf@ == spliced(old(buf)@, pos as int, done4));
        assert(w == done4.len());
    }
    proof {
        assert(done4 =~= enc_connack_items_d(pr));
    }
    w
}

/// Writes a ConnAck property region.
#[verifier::spinoff_prover]
#[verifier::rlimit(100)]
pub fn write_connack_props(buf: &mut Vec<u8>, pos: usize, p: &ConnAckPacket) -> (n: usize)
    requires
        p@.wf(),
        pos + enc_connack_props(connack_props_of(p@)).len() <= old(buf)@.len(),
    ensures
        final(buf)@ == spliced(old(buf)@, pos as int, enc_connack_props(connack_props_of(p@))),
        final(buf)@.len() == old(buf)@.len(),
        n == enc_connack_props(connack_props_of(p@)).len(),
{
    let ghost pr = connack_props_of(p@);
    // Binding the length teaches the prover that positions fit in usize.
    let buf_len: usize = buf.len();
    let items_len = connack_prop_items_size(p);
    proof {
        lemma_enc_vbi_len(items_len as u32);
    }
    let mut w = write_vbi(buf, pos, items_len as u32);
    let ghost done0 = enc_vbi(items_len as u32);
    proof {
        lemma_spliced_concat(old(buf)@, pos as int, done0, enc_connack_items_a(pr));
    }
    let n0 = write_connack_items_a(buf, pos + w, p);
    w = w + n0;
    let ghost done1 = done0 + enc_connack_items_a(pr);
    proof {
        lemma_spliced_concat(old(buf)@, pos as int, done1, enc_connack_items_b(pr));
    }
    let n1 = write_connack_items_b(buf, pos + w, p);
    w = w + n1;
    let ghost done2 = done1 + enc_connack_items_b(pr);
    proof {
        lemma_spliced_concat(old(buf)@, pos as int, done2, enc_connack_items_c(pr));
    }
    let n2 = write_connack_items_c(buf, pos + w, p);
    w = w + n2;
    let ghost done3 = done2 + enc_connack_items_c(pr);
    proof {
        lemma_spliced_concat(old(buf)@, pos as int, done3, enc_connack_items_d(pr));
    }
    let n3 = write_connack_items_d(buf, pos + w, p);
    w = w + n3;
    let ghost done4 = done3 + enc_connack_items_d(pr);
    proof {
        assert(done4 =~= enc_connack_props(pr));
    }
    w
}

/// The variable header of a ConnAck packet: an acknowledge-flags byte whose
/// reserved bits must be zero, the reason code, then the properties.
pub open spec fn parse_connack(s: Seq<u8>, i: int, flags: u8, rl: u32) -> Parsed<ConnAckView> {
    if flags != 0x00 {
        Parsed::Malformed
    } else {
        match parse_u8(s, i) {
            Parsed::Found { val: af, next: j } => {
                if af > 1 {
                    Parsed::Malformed
                } else {
                    match parse_u8(s, j) {
                        Parsed::Found { val: b, next: k } => {
                            match ConnAckReasonCode::spec_from(b) {
                                Some(reason_code) => {
                                    match parse_connack_props(s, k) {
                                        Parsed::Found { val: p, next: m } => Parsed::Found {
                                            val: connack_finalize(af == 1, reason_code, p),
                                            next: m,
                                        },
                                        Parsed::Incomplete => Parsed::Incomplete,
                                        Parsed::Malformed => Parsed::Malformed,
                                    }
                                },
                                None => Parsed::Malformed,
                            }
                        },
                        _ => Parsed::Incomplete,
                    }
                }
            },
            _ => Parsed::Incomplete,
        }
    }
}

/// The packet value a parsed property set denotes, defaults applied.
pub open spec fn connack_finalize(
    session_present: bool,
    reason_code: ConnAckReasonCode,
    p: ConnAckProps,
) -> ConnAckView {
    ConnAckView {
        session_present,
        reason_code,
        session_expiry_interval: p.session_expiry_interval,
        assigned_client_id: p.assigned_client_id,
        server_keep_alive: p.server_keep_alive,
        authentication_method: p.authentication_method,
        authentication_data: p.authentication_data,
        response_information: p.response_information,
        server_reference: p.server_reference,
        reason_string: p.reason_string,
        receive_maximum: match p.receive_maximum {
            Some(x) => x,
            None => 65535,
        },
        topic_alias_maximum: match p.topic_alias_maximum {
            Some(x) => x,
            None => 0,
        },
        maximum_qos: match p.maximum_qos {
            Some(x) => x,
            None => QoS::ExactlyOnce,
        },
        retain_available: match p.retain_available {
            Some(x) => x,
            None => true,
        },
        maximum_packet_size: p.maximum_packet_size,
        wildcard_subscription_available: match p.wildcard_subscription_available {
            Some(x) => x,
            None => true,
        },
        subscription_id_available: match p.subscription_id_available {
            Some(x) => x,
            None => true,
        },
        shared_subscription_available: match p.shared_subscription_available {
            Some(x) => x,
            None => true,
        },
    }
}

impl ConnAckView {
    pub open spec fn wf(self) -> bool {
        wf_connack_props(connack_props_of(self))
    }

    /// Everything after the fixed header.
    pub open spec fn body(self) -> Seq<u8> {
        enc_u8(
            if self.session_present {
                1u8
            } else {
                0u8
            },
        ) + enc_u8(self.reason_code.as_byte()) + enc_connack_props(connack_props_of(self))
    }

    /// The complete wire form.
    pub open spec fn bytes(self) -> Seq<u8> {
        seq![0x20u8] + enc_vbi(self.body().len() as u32) + self.body()
    }
}

/// Minimality of the encoding, field by field: the property items are the
/// per-field segments in fixed table order; the segment of a field at its
/// protocol default (or of an absent optional field) is empty, and the
/// segment of any other field is exactly its identifier byte followed by
/// its value.  Changing one defaulted field away from its default therefore
/// adds exactly that property and no other.
#[verifier::spinoff_prover]
#[verifier::rlimit(100)]
pub proof fn lemma_connack_props_selective(v: ConnAckView)
    ensures
        enc_connack_prop_items(connack_props_of(v)) == enc_opt_u32(
            PROP_SESSION_EXPIRY_INTERVAL,
            connack_props_of(v).session_expiry_interval,
        ) + enc_opt_data(PROP_ASSIGNED_CLIENT_ID, connack_props_of(v).assigned_client_id)
            + enc_opt_u16(PROP_SERVER_KEEP_ALIVE, connack_props_of(v).server_keep_alive)
            + enc_opt_data(PROP_AUTHENTICATION_METHOD, connack_props_of(v).authentication_method)
            + enc_opt_data(PROP_AUTHENTICATION_DATA, connack_props_of(v).authentication_data)
            + enc_opt_data(PROP_RESPONSE_INFORMATION, connack_props_of(v).response_information)
            + enc_opt_data(PROP_SERVER_REFERENCE, connack_props_of(v).server_reference)
            + enc_opt_data(PROP_REASON_STRING, connack_props_of(v).reason_string)
            + enc_opt_u16(PROP_RECEIVE_MAXIMUM, connack_props_of(v).receive_maximum)
            + enc_opt_u16(PROP_TOPIC_ALIAS_MAXIMUM, connack_props_of(v).topic_alias_maximum)
            + enc_opt_qos(PROP_MAXIMUM_QOS, connack_props_of(v).maximum_qos)
            + enc_opt_bool(PROP_RETAIN_AVAILABLE, connack_props_of(v).retain_available)
            + enc_opt_u32(PROP_MAXIMUM_PACKET_SIZE, connack_props_of(v).maximum_packet_size)
            + enc_opt_bool(
            PROP_WILDCARD_SUBSCRIPTION_AVAILABLE,
            connack_props_of(v).wildcard_subscription_available,
        ) + enc_opt_bool(
            PROP_SUBSCRIPTION_ID_AVAILABLE,
            connack_props_of(v).subscription_id_available,
        ) + enc_opt_bool(
            PROP_SHARED_SUBSCRIPTION_AVAILABLE,
            connack_props_of(v).shared_subscription_available,
        ),
        enc_opt_u32(PROP_SESSION_EXPIRY_INTERVAL, connack_props_of(v).session_expiry_interval)
            == Seq::<u8>::empty() <==> v.session_expiry_interval is None,
        enc_opt_data(PROP_ASSIGNED_CLIENT_ID, connack_props_of(v).assigned_client_id)
            == Seq::<u8>::empty() <==> v.assigned_client_id is None,
        enc_opt_u16(PROP_SERVER_KEEP_ALIVE, connack_props_of(v).server_keep_alive)
            == Seq::<u8>::empty() <==> v.server_keep_alive is None,
        enc_opt_data(PROP_AUTHENTICATION_METHOD, connack_props_of(v).authentication_method)
            == Seq::<u8>::empty() <==> v.authentication_method is None,
        enc_opt_data(PROP_AUTHENTICATION_DATA, connack_props_of(v).authentication_data)
            == Seq::<u8>::empty() <==> v.authentication_data is None,
        enc_opt_data(PROP_RESPONSE_INFORMATION, connack_props_of(v).response_information)
            == Seq::<u8>::empty() <==> v.response_information is None,
        enc_opt_data(PROP_SERVER_REFERENCE, connack_props_of(v).server_reference)
            == Seq::<u8>::empty() <==> v.server_reference is None,
        enc_opt_data(PROP_REASON_STRING, connack_props_of(v).reason_string) == Seq::<u8>::empty()
            <==> v.reason_string is None,
        enc_opt_u16(PROP_RECEIVE_MAXIMUM, connack_props_of(v).receive_maximum)
            == Seq::<u8>::empty() <==> v.receive_maximum == 65535,
        v.receive_maximum != 65535 ==> enc_opt_u16(
            PROP_RECEIVE_MAXIMUM,
            connack_props_of(v).receive_maximum,
        ) == seq![PROP_RECEIVE_MAXIMUM] + enc_u16(v.receive_maximum),
        enc_opt_u16(PROP_TOPIC_ALIAS_MAXIMUM, connack_props_of(v).topic_alias_maximum)
            == Seq::<u8>::empty() <==> v.topic_alias_maximum == 0,
        v.topic_alias_maximum != 0 ==> enc_opt_u16(
            PROP_TOPIC_ALIAS_MAXIMUM,
            connack_props_of(v).topic_alias_maximum,
        ) == seq![PROP_TOPIC_ALIAS_MAXIMUM] + enc_u16(v.topic_alias_maximum),
        enc_opt_qos(PROP_MAXIMUM_QOS, connack_props_of(v).maximum_qos) == Seq::<u8>::empty()
            <==> v.maximum_qos == QoS::ExactlyOnce,
        v.maximum_qos != QoS::ExactlyOnce ==> enc_opt_qos(
            PROP_MAXIMUM_QOS,
            connack_props_of(v).maximum_qos,
        ) == seq![PROP_MAXIMUM_QOS, v.maximum_qos.as_byte()],
        enc_opt_bool(PROP_RETAIN_AVAILABLE, connack_props_of(v).retain_available)
            == Seq::<u8>::empty() <==> v.retain_available,
        !v.retain_available ==> enc_opt_bool(
            PROP_RETAIN_AVAILABLE,
            connack_props_of(v).retain_available,
        ) == seq![PROP_RETAIN_AVAILABLE, 0u8],
        enc_opt_u32(PROP_MAXIMUM_PACKET_SIZE, connack_props_of(v).maximum_packet_size)
            == Seq::<u8>::empty() <==> v.maximum_packet_size is None,
        enc_opt_bool(
            PROP_WILDCARD_SUBSCRIPTION_AVAILABLE,
            connack_props_of(v).wildcard_subscription_available,
        ) == Seq::<u8>::empty() <==> v.wildcard_subscription_available,
        enc_opt_bool(
            PROP_SUBSCRIPTION_ID_AVAILABLE,
            connack_props_of(v).subscription_id_available,
        ) == Seq::<u8>::empty() <==> v.subscription_id_available,
        enc_opt_bool(
            PROP_SHARED_SUBSCRIPTION_AVAILABLE,
            connack_props_of(v).shared_subscription_available,
        ) == Seq::<u8>::empty() <==> v.shared_subscription_available,
{
    let p = connack_props_of(v);
    assert(enc_connack_prop_items(p) =~= enc_opt_u32(
        PROP_SESSION_EXPIRY_INTERVAL,
        p.session_expiry_interval,
    ) + enc_opt_data(PROP_ASSIGNED_CLIENT_ID, p.assigned_client_id) + enc_opt_u16(
        PROP_SERVER_KEEP_ALIVE,
        p.server_keep_alive,
    ) + enc_opt_data(PROP_AUTHENTICATION_METHOD, p.authentication_method) + enc_opt_data(
        PROP_AUTHENTICATION_DATA,
        p.authentication_data,
    ) + enc_opt_data(PROP_RESPONSE_INFORMATION, p.response_information) + enc_opt_data(
        PROP_SERVER_REFERENCE,
        p.server_reference,
    ) + enc_opt_data(PROP_REASON_STRING, p.reason_string) + enc_opt_u16(
        PROP_RECEIVE_MAXIMUM,
        p.receive_maximum,
    ) + enc_opt_u16(PROP_TOPIC_ALIAS_MAXIMUM, p.topic_alias_maximum) + enc_opt_qos(
        PROP_MAXIMUM_QOS,
        p.maximum_qos,
    ) + enc_opt_bool(PROP_RETAIN_AVAILABLE, p.retain_available) + enc_opt_u32(
        PROP_MAXIMUM_PACKET_SIZE,
        p.maximum_packet_size,
    ) + enc_opt_bool(
        PROP_WILDCARD_SUBSCRIPTION_AVAILABLE,
        p.wildcard_subscription_available,
    ) + enc_opt_bool(PROP_SUBSCRIPTION_ID_AVAILABLE, p.subscription_id_available) + enc_opt_bool(
        PROP_SHARED_SUBSCRIPTION_AVAILABLE,
        p.shared_subscription_available,
    ));
}

/// Each property of the first segment fits a small constant.
proof fn lemma_connack_items_bound_a(p: ConnAckProps)
    requires
        wf_connack_props(p),
    ensures
        enc_connack_items_a(p).len() <= 4 * (3 + 0xFFFF),
{
    assert(enc_opt_u32(PROP_SESSION_EXPIRY_INTERVAL, p.session_expiry_interval).len() <= 5);
    assert(enc_opt_data(PROP_ASSIGNED_CLIENT_ID, p.assigned_client_id).len() <= 3 + 0xFFFF);
    assert(enc_opt_u16(PROP_SERVER_KEEP_ALIVE, p.server_keep_alive).len() <= 3);
    assert(enc_opt_data(PROP_AUTHENTICATION_METHOD, p.authentication_method).len() <= 3 + 0xFFFF);
}

/// Each property of the second segment fits a small constant.
proof fn lemma_connack_items_bound_b(p: ConnAckProps)
    requires
        wf_connack_props(p),
    ensures
        enc_connack_items_b(p).len() <= 4 * (3 + 0xFFFF),
{
    assert(enc_opt_data(PROP_AUTHENTICATION_DATA, p.authentication_data).len() <= 3 + 0xFFFF);
    assert(enc_opt_data(PROP_RESPONSE_INFORMATION, p.response_information).len() <= 3 + 0xFFFF);
    assert(enc_opt_data(PROP_SERVER_REFERENCE, p.server_reference).len() <= 3 + 0xFFFF);
    assert(enc_opt_data(PROP_REASON_STRING, p.reason_string).len() <= 3 + 0xFFFF);
}

/// Each property of the third and fourth segments fits a small constant.
proof fn lemma_connack_items_bound_cd(p: ConnAckProps)
    ensures
        enc_connack_items_c(p).len() <= 4 * (3 + 0xFFFF),
        enc_connack_items_d(p).len() <= 4 * (3 + 0xFFFF),
{
    assert(enc_opt_u16(PROP_RECEIVE_MAXIMUM, p.receive_maximum).len() <= 3);
    assert(enc_opt_u16(PROP_TOPIC_ALIAS_MAXIMUM, p.topic_alias_maximum).len() <= 3);
    assert(enc_opt_qos(PROP_MAXIMUM_QOS, p.maximum_qos).len() <= 2);
    assert(enc_opt_bool(PROP_RETAIN_AVAILABLE, p.retain_available).len() <= 2);
    assert(enc_opt_u32(PROP_MAXIMUM_PACKET_SIZE, p.maximum_packet_size).len() <= 5);
    assert(enc_opt_bool(
        PROP_WILDCARD_SUBSCRIPTION_AVAILABLE,
        p.wildcard_subscription_available,
    ).len() <= 2);
    assert(enc_opt_bool(PROP_SUBSCRIPTION_ID_AVAILABLE, p.subscription_id_available).len() <= 2);
    assert(enc_opt_bool(
        PROP_SHARED_SUBSCRIPTION_AVAILABLE,
        p.shared_subscription_available,
    ).len() <= 2);
}

/// Each encoded ConnAck property fits a small constant; the whole item
/// region is far below the Variable Byte Integer maximum.
#[verifier::spinoff_prover]
pub proof fn lemma_connack_items_bound(p: ConnAckProps)
    requires
        wf_connack_props(p),
    ensures
        enc_connack_prop_items(p).len() <= 16 * (3 + 0xFFFF),
{
    lemma_connack_items_bound_a(p);
    lemma_connack_items_bound_b(p);
    lemma_connack_items_bound_cd(p);
}

/// Minimality of the encoding: a ConnAck whose fields all stand at their
/// protocol defaults has an empty property region, a single zero length
/// byte.
pub proof fn lemma_connack_default_props_minimal(v: ConnAckView)
    requires
        !v.session_present,
        v.session_expiry_interval is None,
        v.assigned_client_id is None,
        v.server_keep_alive is None,
        v.authentication_method is None,
        v.authentication_data is None,
        v.response_information is None,
        v.server_reference is None,
        v.reason_string is None,
        v.receive_maximum == 65535,
        v.topic_alias_maximum == 0,
        v.maximum_qos == QoS::ExactlyOnce,
        v.retain_available,
        v.maximum_packet_size is None,
        v.wildcard_subscription_available,
        v.subscription_id_available,
        v.shared_subscription_available,
    ensures
        enc_connack_props(connack_props_of(v)) == seq![0x00u8],
        v.bytes() == seq![0x20u8, 0x03u8, 0x00u8, v.reason_code.as_byte(), 0x00u8],
{
    assert(enc_connack_prop_items(connack_props_of(v)) =~= Seq::<u8>::empty());
    assert(enc_connack_props(connack_props_of(v)) =~= seq![0x00u8]);
    assert(v.body() =~= seq![
        if v.session_present {
            1u8
        } else {
            0u8
        },
        v.reason_code.as_byte(),
        0x00u8,
    ]);
    assert(v.bytes() =~= seq![0x20u8, 0x03u8, 0x00u8, v.reason_code.as_byte(), 0x00u8]);
}

impl ConnAckPacket {
    pub fn new(
        session_present: bool,
        reason_code: ConnAckReasonCode,
        session_expiry_interval: Option<u32>,
        assigned_client_id: Option<Vec<u8>>,
        server_keep_alive: Option<u16>,
        authentication_method: Option<Vec<u8>>,
        authentication_data: Option<Vec<u8>>,
        response_information: Option<Vec<u8>>,
        server_reference: Option<Vec<u8>>,
        reason_string: Option<Vec<u8>>,
        receive_maximum: u16,
        topic_alias_maximum: u16,
        maximum_qos: QoS,
        retain_available: bool,
        maximum_packet_size: Option<u32>,
        wildcard_subscription_available: bool,
        subscription_id_available: bool,
        shared_subscription_available: bool,
    ) -> (r: ConnAckPacket)
        ensures
            r@ == (ConnAckView {
                session_present,
                reason_code,
                session_expiry_interval,
                assigned_client_id: view_opt_bytes(assigned_client_id),
                server_keep_alive,
                authentication_method: view_opt_bytes(authentication_method),
                authentication_data: view_opt_bytes(authentication_data),
                response_information: view_opt_bytes(response_information),
                server_reference: view_opt_bytes(server_reference),
                reason_string: view_opt_bytes(reason_string),
                receive_maximum,
                topic_alias_maximum,
                maximum_qos,
                retain_available,
                maximum_packet_size,
                wildcard_subscription_available,
                subscription_id_available,
                shared_subscription_available,
            }),
    {
        ConnAckPacket {
            session_present,
            reason_code,
            session_expiry_interval,
            assigned_client_id,
            server_keep_alive,
            authentication_method,
            authentication_data,
            response_information,
            server_reference,
            reason_string,
            receive_maximum,
            topic_alias_maximum,
            maximum_qos,
            retain_available,
            maximum_packet_size,
            wildcard_subscription_available,
            subscription_id_available,
            shared_subscription_available,
        }
    }

    /// Reads the variable header, the cursor standing after the fixed
    /// header.
    pub fn read(s: &[u8], pos: usize, flags: u8, remaining_length: u32) -> (r: Result<
        (ConnAckPacket, usize),
        CodecError,
    >)
        requires
            pos <= s@.len(),
        ensures
            (match parse_connack(s@, pos as int, flags, remaining_length) {
                Parsed::Found { val, next } => r matches Ok(x) && x.0@ == val && x.1 == next
                    && pos < next <= s@.len() && next <= usize::MAX,
                Parsed::Incomplete => r matches Err(e) && e == CodecError::InsufficientBytes,
                Parsed::Malformed => r matches Err(e) && e == CodecError::MalformedBytes,
            }),
    {
        if flags != 0x00 {
            return Err(CodecError::MalformedBytes);
        }
        let (af, p1) = read_u8(s, pos)?;
        if af > 1 {
            return Err(CodecError::MalformedBytes);
        }
        let (b, p2) = read_u8(s, p1)?;
        let reason_code = ConnAckReasonCode::new(b)?;
        let (
            (
                session_expiry_interval,
                assigned_client_id,
                server_keep_alive,
                authentication_method,
                authentication_data,
                response_information,
                server_reference,
                reason_string,
                receive_maximum,
                topic_alias_maximum,
                maximum_qos,
                retain_available,
                maximum_packet_size,
                wildcard_subscription_available,
                subscription_id_available,
                shared_subscription_available,
            ),
            p3,
        ) = read_connack_props(s, p2)?;
        Ok(
            (
                ConnAckPacket {
                    session_present: af == 1,
                    reason_code,
                    session_expiry_interval,
                    assigned_client_id,
                    server_keep_alive,
                    authentication_method,
                    authentication_data,
                    response_information,
                    server_reference,
                    reason_string,
                    receive_maximum: match receive_maximum {
                        Some(x) => x,
                        None => 65535,
                    },
                    topic_alias_maximum: match topic_alias_maximum {
                        Some(x) => x,
                        None => 0,
                    },
                    maximum_qos: match maximum_qos {
                        Some(x) => x,
                        None => QoS::ExactlyOnce,
                    },
                    retain_available: match retain_available {
                        Some(x) => x,
                        None => true,
                    },
                    maximum_packet_size,
                    wildcard_subscription_available: match wildcard_subscription_available {
                        Some(x) => x,
                        None => true,
                    },
                    subscription_id_available: match subscription_id_available {
                        Some(x) => x,
                        None => true,
                    },
                    shared_subscription_available: match shared_subscription_available {
                        Some(x) => x,
                        None => true,
                    },
                },
                p3,
            ),
        )
    }

    /// Serializes the packet into `buffer` at `index`; fails, touching
    /// nothing, exactly when the buffer is too short.
    #[verifier::spinoff_prover]
    #[verifier::rlimit(100)]
    pub fn write(&self, buffer: &mut Vec<u8>, index: usize) -> (r: Result<usize, CodecError>)
        requires
            self@.wf(),
            index <= old(buffer)@.len(),
        ensures
            (match r {
                Ok(n) => n == self@.bytes().len() && old(buffer)@.len() >= index
                    + self@.bytes().len() && final(buffer)@ == spliced(
                    old(buffer)@,
                    index as int,
                    self@.bytes(),
                ) && final(buffer)@.len() == old(buffer)@.len(),
                Err(e) => e == CodecError::InsufficientBytes && final(buffer)@ == old(buffer)@
                    && old(buffer)@.len() < index + self@.bytes().len(),
            }),
    {
        let items_len = connack_prop_items_size(self);
        proof {
            lemma_enc_vbi_len(items_len as u32);
        }
        let props_nbytes = vbi_size(items_len as u32) + items_len;
        let nbytes = 1 + 1 + props_nbytes;
        proof {
            assert(nbytes == self@.body().len());
            lemma_enc_vbi_len(nbytes as u32);
        }
        let rl_size = vbi_size(nbytes as u32);
        let total = 1 + rl_size + nbytes;
        if buffer.len() - index < total {
            return Err(CodecError::InsufficientBytes);
        }
        write_u8(buffer, index, 0x20);
        proof {
            lemma_spliced_concat(old(buffer)@, index as int, seq![0x20u8], enc_vbi(nbytes as u32));
        }
        write_vbi(buffer, index + 1, nbytes as u32);
        let af: u8 = if self.session_present {
            1
        } else {
            0
        };
        proof {
            lemma_spliced_concat(
                old(buffer)@,
                index as int,
                seq![0x20u8] + enc_vbi(nbytes as u32),
                enc_u8(af),
            );
        }
        write_u8(buffer, index + 1 + rl_size, af);
        proof {
            lemma_spliced_concat(
                old(buffer)@,
                index as int,
                seq![0x20u8] + enc_vbi(nbytes as u32) + enc_u8(af),
                enc_u8(self@.reason_code.as_byte()),
            );
        }
        let rc = self.reason_code.value();
        write_u8(buffer, index + 1 + rl_size + 1, rc);
        proof {
            lemma_spliced_concat(
                old(buffer)@,
                index as int,
                seq![0x20u8] + enc_vbi(nbytes as u32) + enc_u8(af) + enc_u8(
                    self@.reason_code.as_byte(),
                ),
                enc_connack_props(connack_props_of(self@)),
            );
        }
        write_connack_props(buffer, index + 1 + rl_size + 2, self);
        proof {
            assert(seq![0x20u8] + enc_vbi(nbytes as u32) + enc_u8(af) + enc_u8(
                self@.reason_code.as_byte(),
            ) + enc_connack_props(connack_props_of(self@)) =~= self@.bytes());
        }
        Ok(total)
    }
}

/// Parsing an encoded ConnAck body yields the packet back.
#[verifier::spinoff_prover]
#[verifier::rlimit(100)]
pub proof fn lemma_parse_enc_connack(s: Seq<u8>, i: int, v: ConnAckView)
    requires
        v.wf(),
        0 <= i,
        i + v.body().len() <= s.len(),
        s.subrange(i, i + v.body().len()) == v.body(),
    ensures
        parse_connack(s, i, 0x00, v.body().len() as u32) == (Parsed::Found {
            val: v,
            next: i + v.body().len(),
        }),
{
    let af: u8 = if v.session_present {
        1u8
    } else {
        0u8
    };
    let a = enc_u8(af);
    let b = enc_u8(v.reason_code.as_byte());
    let c = enc_connack_props(connack_props_of(v));
    lemma_connack_items_bound(connack_props_of(v));
    lemma_enc_vbi_len(enc_connack_prop_items(connack_props_of(v)).len() as u32);
    assert(v.body() =~= a + (b + c));
    lemma_subrange_split(s, i, a, b + c);
    assert(s.subrange(i, i + 1)[0] == s[i]);
    lemma_subrange_split(s, i + 1, b, c);
    assert(s.subrange(i + 1, i + 2)[0] == s[i + 1]);
    assert(s[i + 1] == v.reason_code.as_byte());
    v.reason_code.lemma_round();
    lemma_parse_enc_connack_props(s, i + 2, connack_props_of(v));
    assert(connack_finalize(af == 1, v.reason_code, connack_props_of(v)) =~= v);
}


} // verus!
