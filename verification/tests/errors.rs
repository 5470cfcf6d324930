//! Rejection behavior: the two error kinds are distinguished, validation
//! rules fire on construction, and truncated acknowledgements decode
//! progressively.

use mqtt5::codec::CodecError;
use mqtt5::connect::ConnectPacket;
use mqtt5::publish::PublishPacket;
use mqtt5::reason_codes::PubAckReasonCode;
use mqtt5::types::{PacketType, PropertyType, QoS};
use mqtt5::{read, Packet};

#[test]
fn truncated_connect_is_insufficient_not_malformed() {
    let p = ConnectPacket::new(
        b"client".to_vec(),
        None,
        None,
        true,
        None,
        30,
        0,
        None,
        None,
        true,
        false,
        65535,
        0,
        None,
    );
    let mut buf = vec![0u8; 256];
    let n = Packet::Connect(p).write(&mut buf, 0).unwrap();
    let truncated = &buf[0..n - 3];
    assert_eq!(read(truncated, 0), Err(CodecError::InsufficientBytes));
}

#[test]
fn remaining_length_beyond_buffer_is_insufficient() {
    // A Connect fixed header that claims ten more bytes than the buffer has.
    let bytes = [0x10u8, 0x0A, 0x00, 0x04];
    assert_eq!(read(&bytes, 0), Err(CodecError::InsufficientBytes));
}

#[test]
fn bad_protocol_name_is_malformed() {
    let bytes = [0x10u8, 0x08, 0x00, 0x04, 0x4D, 0x51, 0x54, 0x51, 0x05, 0x00];
    assert_eq!(read(&bytes, 0), Err(CodecError::MalformedBytes));
}

#[test]
fn bad_protocol_version_is_malformed() {
    let bytes = [0x10u8, 0x08, 0x00, 0x04, 0x4D, 0x51, 0x54, 0x54, 0x04, 0x00];
    assert_eq!(read(&bytes, 0), Err(CodecError::MalformedBytes));
}

#[test]
fn publish_packet_id_must_match_qos() {
    // A packet identifier with QoS AtMostOnce fails validation.
    let r = PublishPacket::new(
        b"t".to_vec(),
        None,
        QoS::AtMostOnce,
        false,
        Some(1),
        false,
        0,
        None,
        None,
        None,
        None,
        vec![],
        None,
    );
    assert!(r.is_err());
    // No packet identifier with QoS AtLeastOnce or ExactlyOnce fails too.
    let r = PublishPacket::new(
        b"t".to_vec(),
        None,
        QoS::AtLeastOnce,
        false,
        None,
        false,
        0,
        None,
        None,
        None,
        None,
        vec![],
        None,
    );
    assert!(r.is_err());
    let r = PublishPacket::new(
        b"t".to_vec(),
        None,
        QoS::ExactlyOnce,
        false,
        None,
        false,
        0,
        None,
        None,
        None,
        None,
        vec![],
        None,
    );
    assert!(r.is_err());
    let r = PublishPacket::new(
        b"t".to_vec(),
        None,
        QoS::ExactlyOnce,
        false,
        Some(2),
        false,
        0,
        None,
        None,
        None,
        None,
        vec![],
        None,
    );
    assert!(r.is_ok());
}

#[test]
fn puback_progressive_truncation() {
    // Two remaining bytes: reason code implied success, no properties.
    let (p, consumed) = read(&[0x40u8, 0x02, 0x00, 0x2A], 0).unwrap();
    match p {
        Packet::PubAck(q) => {
            assert_eq!(q.packet_id, 42);
            assert_eq!(q.reason_code, PubAckReasonCode::Success);
            assert_eq!(q.reason_string, None);
        },
        _ => panic!("wrong packet type"),
    }
    assert_eq!(consumed, 4);
    // Three remaining bytes: an explicit reason code, no properties.
    let (p, _) = read(&[0x40u8, 0x03, 0x00, 0x2A, 0x10], 0).unwrap();
    match p {
        Packet::PubAck(q) => {
            assert_eq!(q.reason_code, PubAckReasonCode::NoMatchingSubscribers);
            assert_eq!(q.reason_string, None);
        },
        _ => panic!("wrong packet type"),
    }
    // Four or more: the property region too.
    let (p, _) = read(&[0x40u8, 0x08, 0x00, 0x2A, 0x10, 0x04, 0x1F, 0x00, 0x01, 0x78], 0).unwrap();
    match p {
        Packet::PubAck(q) => {
            assert_eq!(q.reason_code, PubAckReasonCode::NoMatchingSubscribers);
            assert_eq!(q.reason_string, Some(b"x".to_vec()));
        },
        _ => panic!("wrong packet type"),
    }
}

#[test]
fn disconnect_progressive_truncation() {
    // Zero remaining bytes: a normal disconnection.
    let (p, consumed) = read(&[0xE0u8, 0x00], 0).unwrap();
    match p {
        Packet::Disconnect(q) => {
            assert_eq!(
                q.reason_code,
                mqtt5::reason_codes::DisconnectReasonCode::NormalDisconnection,
            );
            assert_eq!(q.reason_string, None);
        },
        _ => panic!("wrong packet type"),
    }
    assert_eq!(consumed, 2);
    // One remaining byte: the reason code alone.
    let (p, _) = read(&[0xE0u8, 0x01, 0x89], 0).unwrap();
    match p {
        Packet::Disconnect(q) => {
            assert_eq!(q.reason_code, mqtt5::reason_codes::DisconnectReasonCode::ServerBusy);
        },
        _ => panic!("wrong packet type"),
    }
}

#[test]
fn unknown_reason_code_is_malformed() {
    // 0x42 is not a PubAck reason code.
    assert_eq!(
        read(&[0x40u8, 0x03, 0x00, 0x2A, 0x42], 0),
        Err(CodecError::MalformedBytes),
    );
}

#[test]
fn unknown_property_id_is_malformed() {
    // Property 0x01 is not allowed on a PubAck.
    assert_eq!(
        read(&[0x40u8, 0x06, 0x00, 0x2A, 0x00, 0x02, 0x01, 0x01], 0),
        Err(CodecError::MalformedBytes),
    );
}

#[test]
fn duplicate_property_is_malformed() {
    // The session-expiry-interval property twice within one Disconnect.
    let bytes = [0xE0u8, 0x0C, 0x00, 0x0A, 0x11, 0, 0, 0, 1, 0x11, 0, 0, 0, 2];
    assert_eq!(read(&bytes, 0), Err(CodecError::MalformedBytes));
}

#[test]
fn invalid_utf8_topic_is_malformed() {
    // A Publish whose topic bytes are not valid UTF-8.
    let bytes = [0x30u8, 0x05, 0x00, 0x02, 0xC3, 0x28, 0x00];
    assert_eq!(read(&bytes, 0), Err(CodecError::MalformedBytes));
}

#[test]
fn valid_utf8_topic_is_accepted() {
    // The same shape with a valid two-byte UTF-8 sequence decodes.
    let bytes = [0x30u8, 0x05, 0x00, 0x02, 0xC3, 0xA9, 0x00];
    let (p, _) = read(&bytes, 0).unwrap();
    match p {
        Packet::Publish(q) => assert_eq!(q.topic, vec![0xC3, 0xA9]),
        _ => panic!("wrong packet type"),
    }
}

#[test]
fn ping_with_nonzero_remaining_length_is_malformed() {
    assert_eq!(read(&[0xC0u8, 0x01, 0x00], 0), Err(CodecError::MalformedBytes));
    assert_eq!(read(&[0xD0u8, 0x01, 0x00], 0), Err(CodecError::MalformedBytes));
}

#[test]
fn reserved_flag_bits_are_checked() {
    // PubAck flags must be zero.
    assert_eq!(read(&[0x41u8, 0x02, 0x00, 0x01], 0), Err(CodecError::MalformedBytes));
    // Subscribe flags must be exactly the reserved pattern 0x02.
    assert_eq!(read(&[0x80u8, 0x05, 0x00, 0x01, 0x00, 0x00, 0x00], 0), Err(CodecError::MalformedBytes));
    // ConnAck acknowledge flags admit only the session-present bit.
    assert_eq!(read(&[0x20u8, 0x03, 0x02, 0x00, 0x00], 0), Err(CodecError::MalformedBytes));
}

#[test]
fn packet_type_zero_is_malformed() {
    assert_eq!(read(&[0x00u8, 0x00], 0), Err(CodecError::MalformedBytes));
}

#[test]
fn empty_buffer_is_insufficient() {
    assert_eq!(read(&[], 0), Err(CodecError::InsufficientBytes));
}

#[test]
fn write_into_short_buffer_fails_untouched() {
    let p = mqtt5::acks::PubAckPacket::new(1, PubAckReasonCode::Success, None);
    let mut buf = vec![0xEEu8; 3];
    assert_eq!(Packet::PubAck(p).write(&mut buf, 0), Err(CodecError::InsufficientBytes));
    assert_eq!(buf, vec![0xEE, 0xEE, 0xEE]);
}

#[test]
fn type_enums_validate_their_bytes() {
    assert!(PacketType::new(0).is_err());
    assert!(PacketType::new(16).is_err());
    assert_eq!(PacketType::new(12).unwrap(), PacketType::PingReq);
    assert!(PropertyType::new(0x04).is_err());
    assert_eq!(PropertyType::new(0x1F).unwrap(), PropertyType::ReasonStr);
    assert!(QoS::new(3).is_err());
    assert_eq!(QoS::new(2).unwrap(), QoS::ExactlyOnce);
}
