//! Round trips: every packet type, with optional fields both present and
//! absent, encodes and decodes back to itself, and the known scenarios hit
//! their exact wire bytes.

use mqtt5::acks::{PubAckPacket, PubCompPacket, PubRecPacket, PubRelPacket};
use mqtt5::auth::AuthPacket;
use mqtt5::codec::VariableByteInteger;
use mqtt5::connack::ConnAckPacket;
use mqtt5::connect::{ConnectPacket, Will};
use mqtt5::disconnect::DisconnectPacket;
use mqtt5::ping::{PingReqPacket, PingRespPacket};
use mqtt5::publish::PublishPacket;
use mqtt5::reason_codes::{
    AuthReasonCode, ConnAckReasonCode, DisconnectReasonCode, PubAckReasonCode, PubCompReasonCode,
    PubRecReasonCode, PubRelReasonCode, SubAckReasonCode, UnsubAckReasonCode,
};
use mqtt5::suback::SubAckPacket;
use mqtt5::subscribe::{SubscribePacket, Subscription};
use mqtt5::types::{QoS, RetainHandling};
use mqtt5::unsuback::UnsubAckPacket;
use mqtt5::unsubscribe::UnsubscribePacket;
use mqtt5::{read, Packet};

fn round_trip(p: Packet) -> Vec<u8> {
    let mut buf = vec![0u8; 4096];
    let n = p.write(&mut buf, 0).unwrap();
    let (back, consumed) = read(&buf, 0).unwrap();
    assert_eq!(consumed, n);
    assert_eq!(back, p);
    buf[0..n].to_vec()
}

#[test]
fn pingreq_wire_bytes() {
    let bytes = round_trip(Packet::PingReq(PingReqPacket::new()));
    assert_eq!(bytes, vec![0xC0, 0x00]);
    let (p, consumed) = read(&bytes, 0).unwrap();
    assert!(matches!(p, Packet::PingReq(_)));
    assert_eq!(consumed, 2);
}

#[test]
fn pingresp_wire_bytes() {
    let bytes = round_trip(Packet::PingResp(PingRespPacket::new()));
    assert_eq!(bytes, vec![0xD0, 0x00]);
}

#[test]
fn puback_default_wire_bytes() {
    let p = PubAckPacket::new(42, PubAckReasonCode::Success, None);
    let bytes = round_trip(Packet::PubAck(p));
    assert_eq!(bytes, vec![0x40, 0x02, 0x00, 0x2A]);
    let (back, _) = read(&bytes, 0).unwrap();
    match back {
        Packet::PubAck(q) => {
            assert_eq!(q.packet_id, 42);
            assert_eq!(q.reason_code, PubAckReasonCode::Success);
            assert_eq!(q.reason_string, None);
        },
        _ => panic!("wrong packet type"),
    }
}

#[test]
fn puback_full_round_trip() {
    let p = PubAckPacket::new(7, PubAckReasonCode::QuotaExceeded, Some(b"busy".to_vec()));
    round_trip(Packet::PubAck(p));
}

#[test]
fn pubrec_pubrel_pubcomp_round_trip() {
    round_trip(Packet::PubRec(PubRecPacket::new(1, PubRecReasonCode::NotAuthorized, None)));
    round_trip(Packet::PubRel(PubRelPacket::new(2, PubRelReasonCode::PacketIdNotFound, None)));
    round_trip(
        Packet::PubComp(PubCompPacket::new(3, PubCompReasonCode::Success, Some(b"ok".to_vec()))),
    );
    round_trip(Packet::PubRel(PubRelPacket::new(4, PubRelReasonCode::Success, None)));
}

#[test]
fn pubrel_uses_reserved_flags() {
    let p = PubRelPacket::new(9, PubRelReasonCode::Success, None);
    let mut buf = vec![0u8; 64];
    let n = p.write(&mut buf, 0).unwrap();
    assert_eq!(buf[0], 0x62);
    assert_eq!(n, 4);
}

#[test]
fn connack_default_is_minimal() {
    let p = ConnAckPacket::new(
        false,
        ConnAckReasonCode::Success,
        None,
        None,
        None,
        None,
        None,
        None,
        None,
        None,
        65535,
        0,
        QoS::ExactlyOnce,
        true,
        None,
        true,
        true,
        true,
    );
    let bytes = round_trip(Packet::ConnAck(p));
    assert_eq!(bytes, vec![0x20, 0x03, 0x00, 0x00, 0x00]);
}

#[test]
fn connack_single_changed_default_appears() {
    let p = ConnAckPacket::new(
        false,
        ConnAckReasonCode::Success,
        None,
        None,
        None,
        None,
        None,
        None,
        None,
        None,
        100,
        0,
        QoS::ExactlyOnce,
        true,
        None,
        true,
        true,
        true,
    );
    let bytes = round_trip(Packet::ConnAck(p));
    assert_eq!(bytes, vec![0x20, 0x06, 0x00, 0x00, 0x03, 0x21, 0x00, 0x64]);
}

#[test]
fn connack_full_round_trip() {
    let p = ConnAckPacket::new(
        true,
        ConnAckReasonCode::NotAuthorized,
        Some(120),
        Some(b"client-7".to_vec()),
        Some(30),
        Some(b"method".to_vec()),
        Some(vec![1, 2, 3]),
        Some(b"info".to_vec()),
        Some(b"elsewhere".to_vec()),
        Some(b"because".to_vec()),
        10,
        5,
        QoS::AtLeastOnce,
        false,
        Some(4096),
        false,
        false,
        false,
    );
    round_trip(Packet::ConnAck(p));
}

#[test]
fn connect_minimal_round_trip() {
    let p = ConnectPacket::new(
        b"cid".to_vec(),
        None,
        None,
        false,
        None,
        0,
        0,
        None,
        None,
        true,
        false,
        65535,
        0,
        None,
    );
    let bytes = round_trip(Packet::Connect(p));
    assert_eq!(
        bytes,
        vec![0x10, 0x10, 0x00, 0x04, 0x4D, 0x51, 0x54, 0x54, 0x05, 0x00, 0x00, 0x00, 0x00, 0x00,
            0x03, 0x63, 0x69, 0x64],
    );
}

#[test]
fn connect_full_round_trip() {
    let will = Will::new(
        b"will/topic".to_vec(),
        Some(b"gone".to_vec()),
        QoS::AtLeastOnce,
        true,
        1,
        Some(60),
        Some(b"text/plain".to_vec()),
        Some(b"resp/topic".to_vec()),
        Some(vec![9, 9]),
        15,
    );
    let p = ConnectPacket::new(
        b"client".to_vec(),
        Some(b"user".to_vec()),
        Some(b"pass".to_vec()),
        true,
        Some(will),
        30,
        3600,
        Some(b"method".to_vec()),
        Some(vec![4, 5]),
        false,
        true,
        20,
        9,
        Some(1024),
    );
    round_trip(Packet::Connect(p));
}

#[test]
fn publish_qos0_round_trip() {
    let p = PublishPacket::new(
        b"a/b".to_vec(),
        Some(b"hello".to_vec()),
        QoS::AtMostOnce,
        false,
        None,
        false,
        0,
        None,
        None,
        None,
        None,
        vec![],
        None,
    )
    .unwrap();
    round_trip(Packet::Publish(p));
}

#[test]
fn publish_full_round_trip() {
    let p = PublishPacket::new(
        b"a/b/c".to_vec(),
        Some(b"payload".to_vec()),
        QoS::ExactlyOnce,
        true,
        Some(99),
        true,
        1,
        Some(500),
        Some(b"text".to_vec()),
        Some(b"reply/here".to_vec()),
        Some(vec![0xDE, 0xAD]),
        vec![1, 200, 70000],
        Some(12),
    )
    .unwrap();
    round_trip(Packet::Publish(p));
}

#[test]
fn publish_empty_payload_round_trip() {
    let p = PublishPacket::new(
        b"t".to_vec(),
        Some(vec![]),
        QoS::AtLeastOnce,
        false,
        Some(1),
        false,
        0,
        None,
        None,
        None,
        None,
        vec![],
        None,
    )
    .unwrap();
    round_trip(Packet::Publish(p));
}

#[test]
fn subscribe_round_trip() {
    let subs = vec![
        Subscription::new(b"a/#".to_vec(), QoS::AtLeastOnce, true, false, RetainHandling::SendNever),
        Subscription::new(
            b"b/+/c".to_vec(),
            QoS::ExactlyOnce,
            false,
            true,
            RetainHandling::SendAlways,
        ),
    ];
    let p = SubscribePacket::new(77, subs, Some(VariableByteInteger::new(300).unwrap()));
    let bytes = round_trip(Packet::Subscribe(p));
    assert_eq!(bytes[0], 0x82);
    let q = SubscribePacket::new(78, vec![], None);
    round_trip(Packet::Subscribe(q));
}

#[test]
fn suback_round_trip() {
    let p = SubAckPacket::new(
        5,
        vec![SubAckReasonCode::GrantedQosAtLeastOnce, SubAckReasonCode::UnspecifiedError],
        Some(b"partial".to_vec()),
    );
    round_trip(Packet::SubAck(p));
}

#[test]
fn unsubscribe_round_trip() {
    let p = UnsubscribePacket::new(6, vec![b"x/y".to_vec(), b"z".to_vec()]);
    let bytes = round_trip(Packet::Unsubscribe(p));
    assert_eq!(bytes[0], 0xA2);
}

#[test]
fn unsuback_round_trip() {
    let p = UnsubAckPacket::new(
        8,
        vec![UnsubAckReasonCode::Success, UnsubAckReasonCode::NoSubscriptionExisted],
        None,
    );
    round_trip(Packet::UnsubAck(p));
}

#[test]
fn disconnect_round_trip() {
    round_trip(
        Packet::Disconnect(DisconnectPacket::new(
            DisconnectReasonCode::NormalDisconnection,
            None,
            None,
            None,
        )),
    );
    round_trip(
        Packet::Disconnect(DisconnectPacket::new(
            DisconnectReasonCode::ServerBusy,
            Some(10),
            Some(b"other".to_vec()),
            Some(b"load".to_vec()),
        )),
    );
}

#[test]
fn auth_round_trip() {
    round_trip(
        Packet::Auth(AuthPacket::new(
            AuthReasonCode::ContinueAuthentication,
            Some(b"SCRAM".to_vec()),
            Some(vec![1, 2, 3, 4]),
            Some(b"go on".to_vec()),
        )),
    );
    round_trip(Packet::Auth(AuthPacket::new(AuthReasonCode::Success, None, None, None)));
}

#[test]
fn read_respects_start_index() {
    let p = PubAckPacket::new(1, PubAckReasonCode::Success, None);
    let mut buf = vec![0u8; 64];
    let n = p.write(&mut buf, 10).unwrap();
    let (back, consumed) = read(&buf, 10).unwrap();
    assert_eq!(consumed, n);
    assert!(matches!(back, Packet::PubAck(_)));
}

#[test]
fn consumed_count_supports_streaming() {
    // Two packets back to back: the consumed count advances past the first.
    let mut buf = vec![0u8; 64];
    let n1 = Packet::PingReq(PingReqPacket::new()).write(&mut buf, 0).unwrap();
    let p = PubAckPacket::new(3, PubAckReasonCode::Success, None);
    let n2 = Packet::PubAck(p).write(&mut buf, n1).unwrap();
    let (first, c1) = read(&buf, 0).unwrap();
    assert!(matches!(first, Packet::PingReq(_)));
    assert_eq!(c1, n1);
    let (second, c2) = read(&buf, c1).unwrap();
    assert!(matches!(second, Packet::PubAck(_)));
    assert_eq!(c2, n2);
}

#[test]
fn subscription_options_byte_round_trips() {
    let sub = Subscription::new(
        b"t/#".to_vec(),
        QoS::AtLeastOnce,
        true,
        false,
        RetainHandling::SendIfSubscriptionNotExists,
    );
    let p = SubscribePacket::new(11, vec![sub.clone()], None);
    let mut buf = vec![0u8; 64];
    let n = Packet::Subscribe(p).write(&mut buf, 0).unwrap();
    // The options byte packs QoS 1, no-local, and retain handling 1.
    assert_eq!(buf[n - 1], 0x01 | 0x04 | 0x10);
    let (back, _) = read(&buf, 0).unwrap();
    match back {
        Packet::Subscribe(q) => assert_eq!(q.subscriptions, vec![sub]),
        _ => panic!("wrong packet type"),
    }
}

#[test]
fn disconnect_default_wire_bytes() {
    // A normal disconnection with no properties takes the minimal form.
    let p = DisconnectPacket::new(DisconnectReasonCode::NormalDisconnection, None, None, None);
    let bytes = round_trip(Packet::Disconnect(p));
    assert_eq!(bytes, vec![0xE0, 0x00]);
}

#[test]
fn disconnect_non_default_reason_code_wire_bytes() {
    // Any other reason code brings the full form back.
    let p = DisconnectPacket::new(DisconnectReasonCode::ServerShuttingDown, None, None, None);
    let bytes = round_trip(Packet::Disconnect(p));
    assert_eq!(bytes, vec![0xE0, 0x02, 0x8B, 0x00]);
}

#[test]
fn auth_default_wire_bytes() {
    // A successful exchange with no properties takes the minimal form.
    let p = AuthPacket::new(AuthReasonCode::Success, None, None, None);
    let bytes = round_trip(Packet::Auth(p));
    assert_eq!(bytes, vec![0xF0, 0x00]);
}

#[test]
fn auth_non_default_reason_code_wire_bytes() {
    let p = AuthPacket::new(AuthReasonCode::ReAuthenticate, None, None, None);
    let bytes = round_trip(Packet::Auth(p));
    assert_eq!(bytes, vec![0xF0, 0x02, 0x19, 0x00]);
}
