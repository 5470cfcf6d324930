//! Small closed enumerations of the protocol: packet types, property
//! identifiers, quality-of-service levels and retain-handling modes.

use crate::codec::CodecError;
use vstd::prelude::*;

verus! {

/// Quality of Service level of a Publish delivery.
#[derive(Clone, Copy, Debug, PartialEq, Eq, Structural)]
pub enum QoS {
    AtMostOnce,
    AtLeastOnce,
    ExactlyOnce,
}

impl QoS {
    /// The wire byte of this value.
    pub open spec fn as_byte(self) -> u8 {
        match self {
            QoS::AtMostOnce => 0,
            QoS::AtLeastOnce => 1,
            QoS::ExactlyOnce => 2,
        }
    }

    /// The value a wire byte denotes, if any.
    pub open spec fn spec_from(b: u8) -> Option<QoS> {
        if b == 0 {
            Some(QoS::AtMostOnce)
        } else if b == 1 {
            Some(QoS::AtLeastOnce)
        } else if b == 2 {
            Some(QoS::ExactlyOnce)
        } else {
            None
        }
    }

    pub fn new(value: u8) -> (r: Result<QoS, CodecError>)
        ensures
            Self::spec_from(value) matches Some(c) ==> r == Ok::<QoS, CodecError>(c),
            Self::spec_from(value) is None ==> r == Err::<QoS, CodecError>(
                CodecError::MalformedBytes,
            ),
    {
        match value {
            0 => Ok(QoS::AtMostOnce),
            1 => Ok(QoS::AtLeastOnce),
            2 => Ok(QoS::ExactlyOnce),
            _ => Err(CodecError::MalformedBytes),
        }
    }

    pub fn value(self) -> (b: u8)
        ensures
            b == self.as_byte(),
    {
        match self {
            QoS::AtMostOnce => 0,
            QoS::AtLeastOnce => 1,
            QoS::ExactlyOnce => 2,
        }
    }

    /// The wire byte of a value always decodes back to it.
    pub proof fn lemma_round(self)
        ensures
            Self::spec_from(self.as_byte()) == Some(self),
    {
    }
}

/// Retain-handling mode of a Subscription.
#[derive(Clone, Copy, Debug, PartialEq, Eq, Structural)]
pub enum RetainHandling {
    SendAlways,
    SendIfSubscriptionNotExists,
    SendNever,
}

impl RetainHandling {
    /// The wire byte of this value.
    pub open spec fn as_byte(self) -> u8 {
        match self {
            RetainHandling::SendAlways => 0,
            RetainHandling::SendIfSubscriptionNotExists => 1,
            RetainHandling::SendNever => 2,
        }
    }

    /// The value a wire byte denotes, if any.
    pub open spec fn spec_from(b: u8) -> Option<RetainHandling> {
        if b == 0 {
            Some(RetainHandling::SendAlways)
        } else if b == 1 {
            Some(RetainHandling::SendIfSubscriptionNotExists)
        } else if b == 2 {
            Some(RetainHandling::SendNever)
        } else {
            None
        }
    }

    pub fn new(value: u8) -> (r: Result<RetainHandling, CodecError>)
        ensures
            Self::spec_from(value) matches Some(c) ==> r == Ok::<RetainHandling, CodecError>(c),
            Self::spec_from(value) is None ==> r == Err::<RetainHandling, CodecError>(
                CodecError::MalformedBytes,
            ),
    {
        match value {
            0 => Ok(RetainHandling::SendAlways),
            1 => Ok(RetainHandling::SendIfSubscriptionNotExists),
            2 => Ok(RetainHandling::SendNever),
            _ => Err(CodecError::MalformedBytes),
        }
    }

    pub fn value(self) -> (b: u8)
        ensures
            b == self.as_byte(),
    {
        match self {
            RetainHandling::SendAlways => 0,
            RetainHandling::SendIfSubscriptionNotExists => 1,
            RetainHandling::SendNever => 2,
        }
    }

    /// The wire byte of a value always decodes back to it.
    pub proof fn lemma_round(self)
        ensures
            Self::spec_from(self.as_byte()) == Some(self),
    {
    }
}

/// The fifteen control-packet types, as the top nibble of the first header byte.
#[derive(Clone, Copy, Debug, PartialEq, Eq, Structural)]
pub enum PacketType {
    Connect,
    ConnAck,
    Publish,
    PubAck,
    PubRec,
    PubRel,
    PubComp,
    Subscribe,
    SubAck,
    Unsubscribe,
    UnsubAck,
    PingReq,
    PingResp,
    Disconnect,
    Auth,
}

impl PacketType {
    /// The wire byte of this value.
    pub open spec fn as_byte(self) -> u8 {
        match self {
            PacketType::Connect => 1,
            PacketType::ConnAck => 2,
            PacketType::Publish => 3,
            PacketType::PubAck => 4,
            PacketType::PubRec => 5,
            PacketType::PubRel => 6,
            PacketType::PubComp => 7,
            PacketType::Subscribe => 8,
            PacketType::SubAck => 9,
            PacketType::Unsubscribe => 10,
            PacketType::UnsubAck => 11,
            PacketType::PingReq => 12,
            PacketType::PingResp => 13,
            PacketType::Disconnect => 14,
            PacketType::Auth => 15,
        }
    }

    /// The value a wire byte denotes, if any.
    pub open spec fn spec_from(b: u8) -> Option<PacketType> {
        if b == 1 {
            Some(PacketType::Connect)
        } else if b == 2 {
            Some(PacketType::ConnAck)
        } else if b == 3 {
            Some(PacketType::Publish)
        } else if b == 4 {
            Some(PacketType::PubAck)
        } else if b == 5 {
            Some(PacketType::PubRec)
        } else if b == 6 {
            Some(PacketType::PubRel)
        } else if b == 7 {
            Some(PacketType::PubComp)
        } else if b == 8 {
            Some(PacketType::Subscribe)
        } else if b == 9 {
            Some(PacketType::SubAck)
        } else if b == 10 {
            Some(PacketType::Unsubscribe)
        } else if b == 11 {
            Some(PacketType::UnsubAck)
        } else if b == 12 {
            Some(PacketType::PingReq)
        } else if b == 13 {
            Some(PacketType::PingResp)
        } else if b == 14 {
            Some(PacketType::Disconnect)
        } else if b == 15 {
            Some(PacketType::Auth)
        } else {
            None
        }
    }

    pub fn new(value: u8) -> (r: Result<PacketType, CodecError>)
        ensures
            Self::spec_from(value) matches Some(c) ==> r == Ok::<PacketType, CodecError>(c),
            Self::spec_from(value) is None ==> r == Err::<PacketType, CodecError>(
                CodecError::MalformedBytes,
            ),
    {
        match value {
            1 => Ok(PacketType::Connect),
            2 => Ok(PacketType::ConnAck),
            3 => Ok(PacketType::Publish),
            4 => Ok(PacketType::PubAck),
            5 => Ok(PacketType::PubRec),
            6 => Ok(PacketType::PubRel),
            7 => Ok(PacketType::PubComp),
            8 => Ok(PacketType::Subscribe),
            9 => Ok(PacketType::SubAck),
            10 => Ok(PacketType::Unsubscribe),
            11 => Ok(PacketType::UnsubAck),
            12 => Ok(PacketType::PingReq),
            13 => Ok(PacketType::PingResp),
            14 => Ok(PacketType::Disconnect),
            15 => Ok(PacketType::Auth),
            _ => Err(CodecError::MalformedBytes),
        }
    }

    pub fn value(self) -> (b: u8)
        ensures
            b == self.as_byte(),
    {
        match self {
            PacketType::Connect => 1,
            PacketType::ConnAck => 2,
            PacketType::Publish => 3,
            PacketType::PubAck => 4,
            PacketType::PubRec => 5,
            PacketType::PubRel => 6,
            PacketType::PubComp => 7,
            PacketType::Subscribe => 8,
            PacketType::SubAck => 9,
            PacketType::Unsubscribe => 10,
            PacketType::UnsubAck => 11,
            PacketType::PingReq => 12,
            PacketType::PingResp => 13,
            PacketType::Disconnect => 14,
            PacketType::Auth => 15,
        }
    }

    /// The wire byte of a value always decodes back to it.
    pub proof fn lemma_round(self)
        ensures
            Self::spec_from(self.as_byte()) == Some(self),
    {
    }
}

/// Single-byte property identifiers of the variable headers.
#[derive(Clone, Copy, Debug, PartialEq, Eq, Structural)]
pub enum PropertyType {
    PayloadFormatIndicator,
    MessageExpiryInterval,
    ContentType,
    ResponseTopic,
    CorrelationData,
    SubscriptionId,
    SessionExpiryInterval,
    AssignedClientId,
    ServerKeepAlive,
    AuthenticationMethod,
    AuthenticationData,
    RequestProblemInfo,
    WillDelayInterval,
    RequestResponseInfo,
    ResponseInfo,
    ServerReference,
    ReasonStr,
    ReceiveMax,
    TopicAliasMax,
    TopicAlias,
    MaxQoS,
    RetainAvailable,
    UserProperty,
    MaxPacketSize,
    WildcardSubscriptionAvailable,
    SubscriptionIdAvailable,
    SharedSubscriptionAvailable,
}

impl PropertyType {
    /// The wire byte of this value.
    pub open spec fn as_byte(self) -> u8 {
        match self {
            PropertyType::PayloadFormatIndicator => 1,
            PropertyType::MessageExpiryInterval => 2,
            PropertyType::ContentType => 3,
            PropertyType::ResponseTopic => 8,
            PropertyType::CorrelationData => 9,
            PropertyType::SubscriptionId => 11,
            PropertyType::SessionExpiryInterval => 17,
            PropertyType::AssignedClientId => 18,
            PropertyType::ServerKeepAlive => 19,
            PropertyType::AuthenticationMethod => 21,
            PropertyType::AuthenticationData => 22,
            PropertyType::RequestProblemInfo => 23,
            PropertyType::WillDelayInterval => 24,
            PropertyType::RequestResponseInfo => 25,
            PropertyType::ResponseInfo => 26,
            PropertyType::ServerReference => 28,
            PropertyType::ReasonStr => 31,
            PropertyType::ReceiveMax => 33,
            PropertyType::TopicAliasMax => 34,
            PropertyType::TopicAlias => 35,
            PropertyType::MaxQoS => 36,
            PropertyType::RetainAvailable => 37,
            PropertyType::UserProperty => 38,
            PropertyType::MaxPacketSize => 39,
            PropertyType::WildcardSubscriptionAvailable => 40,
            PropertyType::SubscriptionIdAvailable => 41,
            PropertyType::SharedSubscriptionAvailable => 42,
        }
    }

    /// The value a wire byte denotes, if any.
    pub open spec fn spec_from(b: u8) -> Option<PropertyType> {
        if b == 1 {
            Some(PropertyType::PayloadFormatIndicator)
        } else if b == 2 {
            Some(PropertyType::MessageExpiryInterval)
        } else if b == 3 {
            Some(PropertyType::ContentType)
        } else if b == 8 {
            Some(PropertyType::ResponseTopic)
        } else if b == 9 {
            Some(PropertyType::CorrelationData)
        } else if b == 11 {
            Some(PropertyType::SubscriptionId)
        } else if b == 17 {
            Some(PropertyType::SessionExpiryInterval)
        } else if b == 18 {
            Some(PropertyType::AssignedClientId)
        } else if b == 19 {
            Some(PropertyType::ServerKeepAlive)
        } else if b == 21 {
            Some(PropertyType::AuthenticationMethod)
        } else if b == 22 {
            Some(PropertyType::AuthenticationData)
        } else if b == 23 {
            Some(PropertyType::RequestProblemInfo)
        } else if b == 24 {
            Some(PropertyType::WillDelayInterval)
        } else if b == 25 {
            Some(PropertyType::RequestResponseInfo)
        } else if b == 26 {
            Some(PropertyType::ResponseInfo)
        } else if b == 28 {
            Some(PropertyType::ServerReference)
        } else if b == 31 {
            Some(PropertyType::ReasonStr)
        } else if b == 33 {
            Some(PropertyType::ReceiveMax)
        } else if b == 34 {
            Some(PropertyType::TopicAliasMax)
        } else if b == 35 {
            Some(PropertyType::TopicAlias)
        } else if b == 36 {
            Some(PropertyType::MaxQoS)
        } else if b == 37 {
            Some(PropertyType::RetainAvailable)
        } else if b == 38 {
            Some(PropertyType::UserProperty)
        } else if b == 39 {
            Some(PropertyType::MaxPacketSize)
        } else if b == 40 {
            Some(PropertyType::WildcardSubscriptionAvailable)
        } else if b == 41 {
            Some(PropertyType::SubscriptionIdAvailable)
        } else if b == 42 {
            Some(PropertyType::SharedSubscriptionAvailable)
        } else {
            None
        }
    }

    pub fn new(value: u8) -> (r: Result<PropertyType, CodecError>)
        ensures
            Self::spec_from(value) matches Some(c) ==> r == Ok::<PropertyType, CodecError>(c),
            Self::spec_from(value) is None ==> r == Err::<PropertyType, CodecError>(
                CodecError::MalformedBytes,
            ),
    {
        match value {
            1 => Ok(PropertyType::PayloadFormatIndicator),
            2 => Ok(PropertyType::MessageExpiryInterval),
            3 => Ok(PropertyType::ContentType),
            8 => Ok(PropertyType::ResponseTopic),
            9 => Ok(PropertyType::CorrelationData),
            11 => Ok(PropertyType::SubscriptionId),
            17 => Ok(PropertyType::SessionExpiryInterval),
            18 => Ok(PropertyType::AssignedClientId),
            19 => Ok(PropertyType::ServerKeepAlive),
            21 => Ok(PropertyType::AuthenticationMethod),
            22 => Ok(PropertyType::AuthenticationData),
            23 => Ok(PropertyType::RequestProblemInfo),
            24 => Ok(PropertyType::WillDelayInterval),
            25 => Ok(PropertyType::RequestResponseInfo),
            26 => Ok(PropertyType::ResponseInfo),
            28 => Ok(PropertyType::ServerReference),
            31 => Ok(PropertyType::ReasonStr),
            33 => Ok(PropertyType::ReceiveMax),
            34 => Ok(PropertyType::TopicAliasMax),
            35 => Ok(PropertyType::TopicAlias),
            36 => Ok(PropertyType::MaxQoS),
            37 => Ok(PropertyType::RetainAvailable),
            38 => Ok(PropertyType::UserProperty),
            39 => Ok(PropertyType::MaxPacketSize),
            40 => Ok(PropertyType::WildcardSubscriptionAvailable),
            41 => Ok(PropertyType::SubscriptionIdAvailable),
            42 => Ok(PropertyType::SharedSubscriptionAvailable),
            _ => Err(CodecError::MalformedBytes),
        }
    }

    pub fn value(self) -> (b: u8)
        ensures
            b == self.as_byte(),
    {
        match self {
            PropertyType::PayloadFormatIndicator => 1,
            PropertyType::MessageExpiryInterval => 2,
            PropertyType::ContentType => 3,
            PropertyType::ResponseTopic => 8,
            PropertyType::CorrelationData => 9,
            PropertyType::SubscriptionId => 11,
            PropertyType::SessionExpiryInterval => 17,
            PropertyType::AssignedClientId => 18,
            PropertyType::ServerKeepAlive => 19,
            PropertyType::AuthenticationMethod => 21,
            PropertyType::AuthenticationData => 22,
            PropertyType::RequestProblemInfo => 23,
            PropertyType::WillDelayInterval => 24,
            PropertyType::RequestResponseInfo => 25,
            PropertyType::ResponseInfo => 26,
            PropertyType::ServerReference => 28,
            PropertyType::ReasonStr => 31,
            PropertyType::ReceiveMax => 33,
            PropertyType::TopicAliasMax => 34,
            PropertyType::TopicAlias => 35,
            PropertyType::MaxQoS => 36,
            PropertyType::RetainAvailable => 37,
            PropertyType::UserProperty => 38,
            PropertyType::MaxPacketSize => 39,
            PropertyType::WildcardSubscriptionAvailable => 40,
            PropertyType::SubscriptionIdAvailable => 41,
            PropertyType::SharedSubscriptionAvailable => 42,
        }
    }

    /// The wire byte of a value always decodes back to it.
    pub proof fn lemma_round(self)
        ensures
            Self::spec_from(self.as_byte()) == Some(self),
    {
    }
}

} // verus!
