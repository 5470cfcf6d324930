//! Reason codes: nine closed sets of single-byte status codes, one per
//! acknowledgement packet type.  Decoding a byte outside the allowed set of
//! the specific packet type is a malformed-content error.

use crate::codec::CodecError;
use vstd::prelude::*;

verus! {

/// Reason codes of a ConnAck packet.
#[derive(Clone, Copy, Debug, PartialEq, Eq, Structural)]
pub enum ConnAckReasonCode {
    Success,
    UnspecifiedError,
    MalformedPacket,
    ProtocolError,
    ImplementationSpecificError,
    UnsupportedProtocolVersion,
    ClientIdNotValid,
    BadUserNameOrPassword,
    NotAuthorized,
    ServerUnavailable,
    ServerBusy,
    Banned,
    BadAuthenticationMethod,
    TopicNameInvalid,
    PacketTooLarge,
    QuotaExceeded,
    PayloadFormatInvalid,
    RetainNotSupported,
    QualityNotSupported,
    UseAnotherServer,
    ServerMoved,
    ConnectionRateExceeded,
}

impl ConnAckReasonCode {
    /// The wire byte of this value.
    pub open spec fn as_byte(self) -> u8 {
        match self {
            ConnAckReasonCode::Success => 0,
            ConnAckReasonCode::UnspecifiedError => 128,
            ConnAckReasonCode::MalformedPacket => 129,
            ConnAckReasonCode::ProtocolError => 130,
            ConnAckReasonCode::ImplementationSpecificError => 131,
            ConnAckReasonCode::UnsupportedProtocolVersion => 132,
            ConnAckReasonCode::ClientIdNotValid => 133,
            ConnAckReasonCode::BadUserNameOrPassword => 134,
            ConnAckReasonCode::NotAuthorized => 135,
            ConnAckReasonCode::ServerUnavailable => 136,
            ConnAckReasonCode::ServerBusy => 137,
            ConnAckReasonCode::Banned => 138,
            ConnAckReasonCode::BadAuthenticationMethod => 140,
            ConnAckReasonCode::TopicNameInvalid => 144,
            ConnAckReasonCode::PacketTooLarge => 149,
            ConnAckReasonCode::QuotaExceeded => 151,
            ConnAckReasonCode::PayloadFormatInvalid => 153,
            ConnAckReasonCode::RetainNotSupported => 154,
            ConnAckReasonCode::QualityNotSupported => 155,
            ConnAckReasonCode::UseAnotherServer => 156,
            ConnAckReasonCode::ServerMoved => 157,
            ConnAckReasonCode::ConnectionRateExceeded => 159,
        }
    }

    /// The value a wire byte denotes, if any.
    pub open spec fn spec_from(b: u8) -> Option<ConnAckReasonCode> {
        if b == 0 {
            Some(ConnAckReasonCode::Success)
        } else if b == 128 {
            Some(ConnAckReasonCode::UnspecifiedError)
        } else if b == 129 {
            Some(ConnAckReasonCode::MalformedPacket)
        } else if b == 130 {
            Some(ConnAckReasonCode::ProtocolError)
        } else if b == 131 {
            Some(ConnAckReasonCode::ImplementationSpecificError)
        } else if b == 132 {
            Some(ConnAckReasonCode::UnsupportedProtocolVersion)
        } else if b == 133 {
            Some(ConnAckReasonCode::ClientIdNotValid)
        } else if b == 134 {
            Some(ConnAckReasonCode::BadUserNameOrPassword)
        } else if b == 135 {
            Some(ConnAckReasonCode::NotAuthorized)
        } else if b == 136 {
            Some(ConnAckReasonCode::ServerUnavailable)
        } else if b == 137 {
            Some(ConnAckReasonCode::ServerBusy)
        } else if b == 138 {
            Some(ConnAckReasonCode::Banned)
        } else if b == 140 {
            Some(ConnAckReasonCode::BadAuthenticationMethod)
        } else if b == 144 {
            Some(ConnAckReasonCode::TopicNameInvalid)
        } else if b == 149 {
            Some(ConnAckReasonCode::PacketTooLarge)
        } else if b == 151 {
            Some(ConnAckReasonCode::QuotaExceeded)
        } else if b == 153 {
            Some(ConnAckReasonCode::PayloadFormatInvalid)
        } else if b == 154 {
            Some(ConnAckReasonCode::RetainNotSupported)
        } else if b == 155 {
            Some(ConnAckReasonCode::QualityNotSupported)
        } else if b == 156 {
            Some(ConnAckReasonCode::UseAnotherServer)
        } else if b == 157 {
            Some(ConnAckReasonCode::ServerMoved)
        } else if b == 159 {
            Some(ConnAckReasonCode::ConnectionRateExceeded)
        } else {
            None
        }
    }

    pub fn new(value: u8) -> (r: Result<ConnAckReasonCode, CodecError>)
        ensures
            Self::spec_from(value) matches Some(c) ==> r == Ok::<ConnAckReasonCode, CodecError>(c),
            Self::spec_from(value) is None ==> r == Err::<ConnAckReasonCode, CodecError>(
                CodecError::MalformedBytes,
            ),
    {
        match value {
            0 => Ok(ConnAckReasonCode::Success),
            128 => Ok(ConnAckReasonCode::UnspecifiedError),
            129 => Ok(ConnAckReasonCode::MalformedPacket),
            130 => Ok(ConnAckReasonCode::ProtocolError),
            131 => Ok(ConnAckReasonCode::ImplementationSpecificError),
            132 => Ok(ConnAckReasonCode::UnsupportedProtocolVersion),
            133 => Ok(ConnAckReasonCode::ClientIdNotValid),
            134 => Ok(ConnAckReasonCode::BadUserNameOrPassword),
            135 => Ok(ConnAckReasonCode::NotAuthorized),
            136 => Ok(ConnAckReasonCode::ServerUnavailable),
            137 => Ok(ConnAckReasonCode::ServerBusy),
            138 => Ok(ConnAckReasonCode::Banned),
            140 => Ok(ConnAckReasonCode::BadAuthenticationMethod),
            144 => Ok(ConnAckReasonCode::TopicNameInvalid),
            149 => Ok(ConnAckReasonCode::PacketTooLarge),
            151 => Ok(ConnAckReasonCode::QuotaExceeded),
            153 => Ok(ConnAckReasonCode::PayloadFormatInvalid),
            154 => Ok(ConnAckReasonCode::RetainNotSupported),
            155 => Ok(ConnAckReasonCode::QualityNotSupported),
            156 => Ok(ConnAckReasonCode::UseAnotherServer),
            157 => Ok(ConnAckReasonCode::ServerMoved),
            159 => Ok(ConnAckReasonCode::ConnectionRateExceeded),
            _ => Err(CodecError::MalformedBytes),
        }
    }

    pub fn value(self) -> (b: u8)
        ensures
            b == self.as_byte(),
    {
        match self {
            ConnAckReasonCode::Success => 0,
            ConnAckReasonCode::UnspecifiedError => 128,
            ConnAckReasonCode::MalformedPacket => 129,
            ConnAckReasonCode::ProtocolError => 130,
            ConnAckReasonCode::ImplementationSpecificError => 131,
            ConnAckReasonCode::UnsupportedProtocolVersion => 132,
            ConnAckReasonCode::ClientIdNotValid => 133,
            ConnAckReasonCode::BadUserNameOrPassword => 134,
            ConnAckReasonCode::NotAuthorized => 135,
            ConnAckReasonCode::ServerUnavailable => 136,
            ConnAckReasonCode::ServerBusy => 137,
            ConnAckReasonCode::Banned => 138,
            ConnAckReasonCode::BadAuthenticationMethod => 140,
            ConnAckReasonCode::TopicNameInvalid => 144,
            ConnAckReasonCode::PacketTooLarge => 149,
            ConnAckReasonCode::QuotaExceeded => 151,
            ConnAckReasonCode::PayloadFormatInvalid => 153,
            ConnAckReasonCode::RetainNotSupported => 154,
            ConnAckReasonCode::QualityNotSupported => 155,
            ConnAckReasonCode::UseAnotherServer => 156,
            ConnAckReasonCode::ServerMoved => 157,
            ConnAckReasonCode::ConnectionRateExceeded => 159,
        }
    }

    /// The wire byte of a value always decodes back to it.
    pub proof fn lemma_round(self)
        ensures
            Self::spec_from(self.as_byte()) == Some(self),
    {
    }
}

/// Reason codes of a PubAck packet.
#[derive(Clone, Copy, Debug, PartialEq, Eq, Structural)]
pub enum PubAckReasonCode {
    Success,
    NoMatchingSubscribers,
    UnspecifiedError,
    ImplementationSpecificError,
    NotAuthorized,
    TopicNameInvalid,
    PacketIdInUse,
    QuotaExceeded,
    PayloadFormatInvalid,
}

impl PubAckReasonCode {
    /// The wire byte of this value.
    pub open spec fn as_byte(self) -> u8 {
        match self {
            PubAckReasonCode::Success => 0,
            PubAckReasonCode::NoMatchingSubscribers => 16,
            PubAckReasonCode::UnspecifiedError => 128,
            PubAckReasonCode::ImplementationSpecificError => 131,
            PubAckReasonCode::NotAuthorized => 135,
            PubAckReasonCode::TopicNameInvalid => 144,
            PubAckReasonCode::PacketIdInUse => 145,
            PubAckReasonCode::QuotaExceeded => 151,
            PubAckReasonCode::PayloadFormatInvalid => 153,
        }
    }

    /// The value a wire byte denotes, if any.
    pub open spec fn spec_from(b: u8) -> Option<PubAckReasonCode> {
        if b == 0 {
            Some(PubAckReasonCode::Success)
        } else if b == 16 {
            Some(PubAckReasonCode::NoMatchingSubscribers)
        } else if b == 128 {
            Some(PubAckReasonCode::UnspecifiedError)
        } else if b == 131 {
            Some(PubAckReasonCode::ImplementationSpecificError)
        } else if b == 135 {
            Some(PubAckReasonCode::NotAuthorized)
        } else if b == 144 {
            Some(PubAckReasonCode::TopicNameInvalid)
        } else if b == 145 {
            Some(PubAckReasonCode::PacketIdInUse)
        } else if b == 151 {
            Some(PubAckReasonCode::QuotaExceeded)
        } else if b == 153 {
            Some(PubAckReasonCode::PayloadFormatInvalid)
        } else {
            None
        }
    }

    pub fn new(value: u8) -> (r: Result<PubAckReasonCode, CodecError>)
        ensures
            Self::spec_from(value) matches Some(c) ==> r == Ok::<PubAckReasonCode, CodecError>(c),
            Self::spec_from(value) is None ==> r == Err::<PubAckReasonCode, CodecError>(
                CodecError::MalformedBytes,
            ),
    {
        match value {
            0 => Ok(PubAckReasonCode::Success),
            16 => Ok(PubAckReasonCode::NoMatchingSubscribers),
            128 => Ok(PubAckReasonCode::UnspecifiedError),
            131 => Ok(PubAckReasonCode::ImplementationSpecificError),
            135 => Ok(PubAckReasonCode::NotAuthorized),
            144 => Ok(PubAckReasonCode::TopicNameInvalid),
            145 => Ok(PubAckReasonCode::PacketIdInUse),
            151 => Ok(PubAckReasonCode::QuotaExceeded),
            153 => Ok(PubAckReasonCode::PayloadFormatInvalid),
            _ => Err(CodecError::MalformedBytes),
        }
    }

    pub fn value(self) -> (b: u8)
        ensures
            b == self.as_byte(),
    {
        match self {
            PubAckReasonCode::Success => 0,
            PubAckReasonCode::NoMatchingSubscribers => 16,
            PubAckReasonCode::UnspecifiedError => 128,
            PubAckReasonCode::ImplementationSpecificError => 131,
            PubAckReasonCode::NotAuthorized => 135,
            PubAckReasonCode::TopicNameInvalid => 144,
            PubAckReasonCode::PacketIdInUse => 145,
            PubAckReasonCode::QuotaExceeded => 151,
            PubAckReasonCode::PayloadFormatInvalid => 153,
        }
    }

    /// The wire byte of a value always decodes back to it.
    pub proof fn lemma_round(self)
        ensures
            Self::spec_from(self.as_byte()) == Some(self),
    {
    }
}

/// Reason codes of a PubRec packet.
#[derive(Clone, Copy, Debug, PartialEq, Eq, Structural)]
pub enum PubRecReasonCode {
    Success,
    NoMatchingSubscribers,
    UnspecifiedError,
    ImplementationSpecificError,
    NotAuthorized,
    TopicNameInvalid,
    PacketIdInUse,
    QuotaExceeded,
    PayloadFormatInvalid,
}

impl PubRecReasonCode {
    /// The wire byte of this value.
    pub open spec fn as_byte(self) -> u8 {
        match self {
            PubRecReasonCode::Success => 0,
            PubRecReasonCode::NoMatchingSubscribers => 16,
            PubRecReasonCode::UnspecifiedError => 128,
            PubRecReasonCode::ImplementationSpecificError => 131,
            PubRecReasonCode::NotAuthorized => 135,
            PubRecReasonCode::TopicNameInvalid => 144,
            PubRecReasonCode::PacketIdInUse => 145,
            PubRecReasonCode::QuotaExceeded => 151,
            PubRecReasonCode::PayloadFormatInvalid => 153,
        }
    }

    /// The value a wire byte denotes, if any.
    pub open spec fn spec_from(b: u8) -> Option<PubRecReasonCode> {
        if b == 0 {
            Some(PubRecReasonCode::Success)
        } else if b == 16 {
            Some(PubRecReasonCode::NoMatchingSubscribers)
        } else if b == 128 {
            Some(PubRecReasonCode::UnspecifiedError)
        } else if b == 131 {
            Some(PubRecReasonCode::ImplementationSpecificError)
        } else if b == 135 {
            Some(PubRecReasonCode::NotAuthorized)
        } else if b == 144 {
            Some(PubRecReasonCode::TopicNameInvalid)
        } else if b == 145 {
            Some(PubRecReasonCode::PacketIdInUse)
        } else if b == 151 {
            Some(PubRecReasonCode::QuotaExceeded)
        } else if b == 153 {
            Some(PubRecReasonCode::PayloadFormatInvalid)
        } else {
            None
        }
    }

    pub fn new(value: u8) -> (r: Result<PubRecReasonCode, CodecError>)
        ensures
            Self::spec_from(value) matches Some(c) ==> r == Ok::<PubRecReasonCode, CodecError>(c),
            Self::spec_from(value) is None ==> r == Err::<PubRecReasonCode, CodecError>(
                CodecError::MalformedBytes,
            ),
    {
        match value {
            0 => Ok(PubRecReasonCode::Success),
            16 => Ok(PubRecReasonCode::NoMatchingSubscribers),
            128 => Ok(PubRecReasonCode::UnspecifiedError),
            131 => Ok(PubRecReasonCode::ImplementationSpecificError),
            135 => Ok(PubRecReasonCode::NotAuthorized),
            144 => Ok(PubRecReasonCode::TopicNameInvalid),
            145 => Ok(PubRecReasonCode::PacketIdInUse),
            151 => Ok(PubRecReasonCode::QuotaExceeded),
            153 => Ok(PubRecReasonCode::PayloadFormatInvalid),
            _ => Err(CodecError::MalformedBytes),
        }
    }

    pub fn value(self) -> (b: u8)
        ensures
            b == self.as_byte(),
    {
        match self {
            PubRecReasonCode::Success => 0,
            PubRecReasonCode::NoMatchingSubscribers => 16,
            PubRecReasonCode::UnspecifiedError => 128,
            PubRecReasonCode::ImplementationSpecificError => 131,
            PubRecReasonCode::NotAuthorized => 135,
            PubRecReasonCode::TopicNameInvalid => 144,
            PubRecReasonCode::PacketIdInUse => 145,
            PubRecReasonCode::QuotaExceeded => 151,
            PubRecReasonCode::PayloadFormatInvalid => 153,
        }
    }

    /// The wire byte of a value always decodes back to it.
    pub proof fn lemma_round(self)
        ensures
            Self::spec_from(self.as_byte()) == Some(self),
    {
    }
}

/// Reason codes of a PubRel packet.
#[derive(Clone, Copy, Debug, PartialEq, Eq, Structural)]
pub enum PubRelReasonCode {
    Success,
    PacketIdNotFound,
}

impl PubRelReasonCode {
    /// The wire byte of this value.
    pub open spec fn as_byte(self) -> u8 {
        match self {
            PubRelReasonCode::Success => 0,
            PubRelReasonCode::PacketIdNotFound => 146,
        }
    }

    /// The value a wire byte denotes, if any.
    pub open spec fn spec_from(b: u8) -> Option<PubRelReasonCode> {
        if b == 0 {
            Some(PubRelReasonCode::Success)
        } else if b == 146 {
            Some(PubRelReasonCode::PacketIdNotFound)
        } else {
            None
        }
    }

    pub fn new(value: u8) -> (r: Result<PubRelReasonCode, CodecError>)
        ensures
            Self::spec_from(value) matches Some(c) ==> r == Ok::<PubRelReasonCode, CodecError>(c),
            Self::spec_from(value) is None ==> r == Err::<PubRelReasonCode, CodecError>(
                CodecError::MalformedBytes,
            ),
    {
        match value {
            0 => Ok(PubRelReasonCode::Success),
            146 => Ok(PubRelReasonCode::PacketIdNotFound),
            _ => Err(CodecError::MalformedBytes),
        }
    }

    pub fn value(self) -> (b: u8)
        ensures
            b == self.as_byte(),
    {
        match self {
            PubRelReasonCode::Success => 0,
            PubRelReasonCode::PacketIdNotFound => 146,
        }
    }

    /// The wire byte of a value always decodes back to it.
    pub proof fn lemma_round(self)
        ensures
            Self::spec_from(self.as_byte()) == Some(self),
    {
    }
}

/// Reason codes of a PubComp packet.
#[derive(Clone, Copy, Debug, PartialEq, Eq, Structural)]
pub enum PubCompReasonCode {
    Success,
    PacketIdNotFound,
}

impl PubCompReasonCode {
    /// The wire byte of this value.
    pub open spec fn as_byte(self) -> u8 {
        match self {
            PubCompReasonCode::Success => 0,
            PubCompReasonCode::PacketIdNotFound => 146,
        }
    }

    /// The value a wire byte denotes, if any.
    pub open spec fn spec_from(b: u8) -> Option<PubCompReasonCode> {
        if b == 0 {
            Some(PubCompReasonCode::Success)
        } else if b == 146 {
            Some(PubCompReasonCode::PacketIdNotFound)
        } else {
            None
        }
    }

    pub fn new(value: u8) -> (r: Result<PubCompReasonCode, CodecError>)
        ensures
            Self::spec_from(value) matches Some(c) ==> r == Ok::<PubCompReasonCode, CodecError>(c),
            Self::spec_from(value) is None ==> r == Err::<PubCompReasonCode, CodecError>(
                CodecError::MalformedBytes,
            ),
    {
        match value {
            0 => Ok(PubCompReasonCode::Success),
            146 => Ok(PubCompReasonCode::PacketIdNotFound),
            _ => Err(CodecError::MalformedBytes),
        }
    }

    pub fn value(self) -> (b: u8)
        ensures
            b == self.as_byte(),
    {
        match self {
            PubCompReasonCode::Success => 0,
            PubCompReasonCode::PacketIdNotFound => 146,
        }
    }

    /// The wire byte of a value always decodes back to it.
    pub proof fn lemma_round(self)
        ensures
            Self::spec_from(self.as_byte()) == Some(self),
    {
    }
}

/// Reason codes of a SubAck packet.
#[derive(Clone, Copy, Debug, PartialEq, Eq, Structural)]
pub enum SubAckReasonCode {
    GrantedQosAtMostOnce,
    GrantedQosAtLeastOnce,
    GrantedQosExactlyOnce,
    UnspecifiedError,
    ImplementationSpecificError,
    NotAuthorized,
    TopicFilterInvalid,
    PacketIdInUse,
    QuotaExceeded,
    SharedSubscriptionsNotSupported,
    SubscriptionIdsNotSupported,
    WildcardSubscriptionsNotSupported,
}

impl SubAckReasonCode {
    /// The wire byte of this value.
    pub open spec fn as_byte(self) -> u8 {
        match self {
            SubAckReasonCode::GrantedQosAtMostOnce => 0,
            SubAckReasonCode::GrantedQosAtLeastOnce => 1,
            SubAckReasonCode::GrantedQosExactlyOnce => 2,
            SubAckReasonCode::UnspecifiedError => 128,
            SubAckReasonCode::ImplementationSpecificError => 131,
            SubAckReasonCode::NotAuthorized => 135,
            SubAckReasonCode::TopicFilterInvalid => 143,
            SubAckReasonCode::PacketIdInUse => 145,
            SubAckReasonCode::QuotaExceeded => 151,
            SubAckReasonCode::SharedSubscriptionsNotSupported => 158,
            SubAckReasonCode::SubscriptionIdsNotSupported => 161,
            SubAckReasonCode::WildcardSubscriptionsNotSupported => 162,
        }
    }

    /// The value a wire byte denotes, if any.
    pub open spec fn spec_from(b: u8) -> Option<SubAckReasonCode> {
        if b == 0 {
            Some(SubAckReasonCode::GrantedQosAtMostOnce)
        } else if b == 1 {
            Some(SubAckReasonCode::GrantedQosAtLeastOnce)
        } else if b == 2 {
            Some(SubAckReasonCode::GrantedQosExactlyOnce)
        } else if b == 128 {
            Some(SubAckReasonCode::UnspecifiedError)
        } else if b == 131 {
            Some(SubAckReasonCode::ImplementationSpecificError)
        } else if b == 135 {
            Some(SubAckReasonCode::NotAuthorized)
        } else if b == 143 {
            Some(SubAckReasonCode::TopicFilterInvalid)
        } else if b == 145 {
            Some(SubAckReasonCode::PacketIdInUse)
        } else if b == 151 {
            Some(SubAckReasonCode::QuotaExceeded)
        } else if b == 158 {
            Some(SubAckReasonCode::SharedSubscriptionsNotSupported)
        } else if b == 161 {
            Some(SubAckReasonCode::SubscriptionIdsNotSupported)
        } else if b == 162 {
            Some(SubAckReasonCode::WildcardSubscriptionsNotSupported)
        } else {
            None
        }
    }

    pub fn new(value: u8) -> (r: Result<SubAckReasonCode, CodecError>)
        ensures
            Self::spec_from(value) matches Some(c) ==> r == Ok::<SubAckReasonCode, CodecError>(c),
            Self::spec_from(value) is None ==> r == Err::<SubAckReasonCode, CodecError>(
                CodecError::MalformedBytes,
            ),
    {
        match value {
            0 => Ok(SubAckReasonCode::GrantedQosAtMostOnce),
            1 => Ok(SubAckReasonCode::GrantedQosAtLeastOnce),
            2 => Ok(SubAckReasonCode::GrantedQosExactlyOnce),
            128 => Ok(SubAckReasonCode::UnspecifiedError),
            131 => Ok(SubAckReasonCode::ImplementationSpecificError),
            135 => Ok(SubAckReasonCode::NotAuthorized),
            143 => Ok(SubAckReasonCode::TopicFilterInvalid),
            145 => Ok(SubAckReasonCode::PacketIdInUse),
            151 => Ok(SubAckReasonCode::QuotaExceeded),
            158 => Ok(SubAckReasonCode::SharedSubscriptionsNotSupported),
            161 => Ok(SubAckReasonCode::SubscriptionIdsNotSupported),
            162 => Ok(SubAckReasonCode::WildcardSubscriptionsNotSupported),
            _ => Err(CodecError::MalformedBytes),
        }
    }

    pub fn value(self) -> (b: u8)
        ensures
            b == self.as_byte(),
    {
        match self {
            SubAckReasonCode::GrantedQosAtMostOnce => 0,
            SubAckReasonCode::GrantedQosAtLeastOnce => 1,
            SubAckReasonCode::GrantedQosExactlyOnce => 2,
            SubAckReasonCode::UnspecifiedError => 128,
            SubAckReasonCode::ImplementationSpecificError => 131,
            SubAckReasonCode::NotAuthorized => 135,
            SubAckReasonCode::TopicFilterInvalid => 143,
            SubAckReasonCode::PacketIdInUse => 145,
            SubAckReasonCode::QuotaExceeded => 151,
            SubAckReasonCode::SharedSubscriptionsNotSupported => 158,
            SubAckReasonCode::SubscriptionIdsNotSupported => 161,
            SubAckReasonCode::WildcardSubscriptionsNotSupported => 162,
        }
    }

    /// The wire byte of a value always decodes back to it.
    pub proof fn lemma_round(self)
        ensures
            Self::spec_from(self.as_byte()) == Some(self),
    {
    }
}

/// Reason codes of an UnsubAck packet.
#[derive(Clone, Copy, Debug, PartialEq, Eq, Structural)]
pub enum UnsubAckReasonCode {
    Success,
    NoSubscriptionExisted,
    UnspecifiedError,
    ImplementationSpecificError,
    NotAuthorized,
    TopicFilterInvalid,
    PacketIdInUse,
}

impl UnsubAckReasonCode {
    /// The wire byte of this value.
    pub open spec fn as_byte(self) -> u8 {
        match self {
            UnsubAckReasonCode::Success => 0,
            UnsubAckReasonCode::NoSubscriptionExisted => 17,
            UnsubAckReasonCode::UnspecifiedError => 128,
            UnsubAckReasonCode::ImplementationSpecificError => 131,
            UnsubAckReasonCode::NotAuthorized => 135,
            UnsubAckReasonCode::TopicFilterInvalid => 143,
            UnsubAckReasonCode::PacketIdInUse => 145,
        }
    }

    /// The value a wire byte denotes, if any.
    pub open spec fn spec_from(b: u8) -> Option<UnsubAckReasonCode> {
        if b == 0 {
            Some(UnsubAckReasonCode::Success)
        } else if b == 17 {
            Some(UnsubAckReasonCode::NoSubscriptionExisted)
        } else if b == 128 {
            Some(UnsubAckReasonCode::UnspecifiedError)
        } else if b == 131 {
            Some(UnsubAckReasonCode::ImplementationSpecificError)
        } else if b == 135 {
            Some(UnsubAckReasonCode::NotAuthorized)
        } else if b == 143 {
            Some(UnsubAckReasonCode::TopicFilterInvalid)
        } else if b == 145 {
            Some(UnsubAckReasonCode::PacketIdInUse)
        } else {
            None
        }
    }

    pub fn new(value: u8) -> (r: Result<UnsubAckReasonCode, CodecError>)
        ensures
            Self::spec_from(value) matches Some(c) ==> r == Ok::<UnsubAckReasonCode, CodecError>(c),
            Self::spec_from(value) is None ==> r == Err::<UnsubAckReasonCode, CodecError>(
                CodecError::MalformedBytes,
            ),
    {
        match value {
            0 => Ok(UnsubAckReasonCode::Success),
            17 => Ok(UnsubAckReasonCode::NoSubscriptionExisted),
            128 => Ok(UnsubAckReasonCode::UnspecifiedError),
            131 => Ok(UnsubAckReasonCode::ImplementationSpecificError),
            135 => Ok(UnsubAckReasonCode::NotAuthorized),
            143 => Ok(UnsubAckReasonCode::TopicFilterInvalid),
            145 => Ok(UnsubAckReasonCode::PacketIdInUse),
            _ => Err(CodecError::MalformedBytes),
        }
    }

    pub fn value(self) -> (b: u8)
        ensures
            b == self.as_byte(),
    {
        match self {
            UnsubAckReasonCode::Success => 0,
            UnsubAckReasonCode::NoSubscriptionExisted => 17,
            UnsubAckReasonCode::UnspecifiedError => 128,
            UnsubAckReasonCode::ImplementationSpecificError => 131,
            UnsubAckReasonCode::NotAuthorized => 135,
            UnsubAckReasonCode::TopicFilterInvalid => 143,
            UnsubAckReasonCode::PacketIdInUse => 145,
        }
    }

    /// The wire byte of a value always decodes back to it.
    pub proof fn lemma_round(self)
        ensures
            Self::spec_from(self.as_byte()) == Some(self),
    {
    }
}

/// Reason codes of a Disconnect packet.
#[derive(Clone, Copy, Debug, PartialEq, Eq, Structural)]
pub enum DisconnectReasonCode {
    NormalDisconnection,
    DisconnectWithWillMessage,
    UnspecifiedError,
    MalformedPacket,
    ProtocolError,
    ImplementationSpecificError,
    NotAuthorized,
    ServerBusy,
    ServerShuttingDown,
    KeepAliveTimeout,
    SessionTakenOver,
    TopicFilterInvalid,
    TopicNameInvalid,
    ReceiveMaxExceeded,
    TopicAliasInvalid,
    PacketTooLarge,
    MessageRateTooHigh,
    QuotaExceeded,
    AdministrativeAction,
    PayloadFormatInvalid,
    RetainNotSupported,
    QosNotSupported,
    UseAnotherServer,
    ServerMoved,
    SharedSubscriptionsNotSupported,
    ConnectionRateExceeded,
    MaxConnectTime,
    SubscriptionIdsNotSupported,
    WildcardSubscriptionsNotSupported,
}

impl DisconnectReasonCode {
    /// The wire byte of this value.
    pub open spec fn as_byte(self) -> u8 {
        match self {
            DisconnectReasonCode::NormalDisconnection => 0,
            DisconnectReasonCode::DisconnectWithWillMessage => 4,
            DisconnectReasonCode::UnspecifiedError => 128,
            DisconnectReasonCode::MalformedPacket => 129,
            DisconnectReasonCode::ProtocolError => 130,
            DisconnectReasonCode::ImplementationSpecificError => 131,
            DisconnectReasonCode::NotAuthorized => 135,
            DisconnectReasonCode::ServerBusy => 137,
            DisconnectReasonCode::ServerShuttingDown => 139,
            DisconnectReasonCode::KeepAliveTimeout => 141,
            DisconnectReasonCode::SessionTakenOver => 142,
            DisconnectReasonCode::TopicFilterInvalid => 143,
            DisconnectReasonCode::TopicNameInvalid => 144,
            DisconnectReasonCode::ReceiveMaxExceeded => 147,
            DisconnectReasonCode::TopicAliasInvalid => 148,
            DisconnectReasonCode::PacketTooLarge => 149,
            DisconnectReasonCode::MessageRateTooHigh => 150,
            DisconnectReasonCode::QuotaExceeded => 151,
            DisconnectReasonCode::AdministrativeAction => 152,
            DisconnectReasonCode::PayloadFormatInvalid => 153,
            DisconnectReasonCode::RetainNotSupported => 154,
            DisconnectReasonCode::QosNotSupported => 155,
            DisconnectReasonCode::UseAnotherServer => 156,
            DisconnectReasonCode::ServerMoved => 157,
            DisconnectReasonCode::SharedSubscriptionsNotSupported => 158,
            DisconnectReasonCode::ConnectionRateExceeded => 159,
            DisconnectReasonCode::MaxConnectTime => 160,
            DisconnectReasonCode::SubscriptionIdsNotSupported => 161,
            DisconnectReasonCode::WildcardSubscriptionsNotSupported => 162,
        }
    }

    /// The value a wire byte denotes, if any.
    pub open spec fn spec_from(b: u8) -> Option<DisconnectReasonCode> {
        if b == 0 {
            Some(DisconnectReasonCode::NormalDisconnection)
        } else if b == 4 {
            Some(DisconnectReasonCode::DisconnectWithWillMessage)
        } else if b == 128 {
            Some(DisconnectReasonCode::UnspecifiedError)
        } else if b == 129 {
            Some(DisconnectReasonCode::MalformedPacket)
        } else if b == 130 {
            Some(DisconnectReasonCode::ProtocolError)
        } else if b == 131 {
            Some(DisconnectReasonCode::ImplementationSpecificError)
        } else if b == 135 {
            Some(DisconnectReasonCode::NotAuthorized)
        } else if b == 137 {
            Some(DisconnectReasonCode::ServerBusy)
        } else if b == 139 {
            Some(DisconnectReasonCode::ServerShuttingDown)
        } else if b == 141 {
            Some(DisconnectReasonCode::KeepAliveTimeout)
        } else if b == 142 {
            Some(DisconnectReasonCode::SessionTakenOver)
        } else if b == 143 {
            Some(DisconnectReasonCode::TopicFilterInvalid)
        } else if b == 144 {
            Some(DisconnectReasonCode::TopicNameInvalid)
        } else if b == 147 {
            Some(DisconnectReasonCode::ReceiveMaxExceeded)
        } else if b == 148 {
            Some(DisconnectReasonCode::TopicAliasInvalid)
        } else if b == 149 {
            Some(DisconnectReasonCode::PacketTooLarge)
        } else if b == 150 {
            Some(DisconnectReasonCode::MessageRateTooHigh)
        } else if b == 151 {
            Some(DisconnectReasonCode::QuotaExceeded)
        } else if b == 152 {
            Some(DisconnectReasonCode::AdministrativeAction)
        } else if b == 153 {
            Some(DisconnectReasonCode::PayloadFormatInvalid)
        } else if b == 154 {
            Some(DisconnectReasonCode::RetainNotSupported)
        } else if b == 155 {
            Some(DisconnectReasonCode::QosNotSupported)
        } else if b == 156 {
            Some(DisconnectReasonCode::UseAnotherServer)
        } else if b == 157 {
            Some(DisconnectReasonCode::ServerMoved)
        } else if b == 158 {
            Some(DisconnectReasonCode::SharedSubscriptionsNotSupported)
        } else if b == 159 {
            Some(DisconnectReasonCode::ConnectionRateExceeded)
        } else if b == 160 {
            Some(DisconnectReasonCode::MaxConnectTime)
        } else if b == 161 {
            Some(DisconnectReasonCode::SubscriptionIdsNotSupported)
        } else if b == 162 {
            Some(DisconnectReasonCode::WildcardSubscriptionsNotSupported)
        } else {
            None
        }
    }

    pub fn new(value: u8) -> (r: Result<DisconnectReasonCode, CodecError>)
        ensures
            Self::spec_from(value) matches Some(c) ==> r == Ok::<DisconnectReasonCode, CodecError>(c),
            Self::spec_from(value) is None ==> r == Err::<DisconnectReasonCode, CodecError>(
                CodecError::MalformedBytes,
            ),
    {
        match value {
            0 => Ok(DisconnectReasonCode::NormalDisconnection),
            4 => Ok(DisconnectReasonCode::DisconnectWithWillMessage),
            128 => Ok(DisconnectReasonCode::UnspecifiedError),
            129 => Ok(DisconnectReasonCode::MalformedPacket),
            130 => Ok(DisconnectReasonCode::ProtocolError),
            131 => Ok(DisconnectReasonCode::ImplementationSpecificError),
            135 => Ok(DisconnectReasonCode::NotAuthorized),
            137 => Ok(DisconnectReasonCode::ServerBusy),
            139 => Ok(DisconnectReasonCode::ServerShuttingDown),
            141 => Ok(DisconnectReasonCode::KeepAliveTimeout),
            142 => Ok(DisconnectReasonCode::SessionTakenOver),
            143 => Ok(DisconnectReasonCode::TopicFilterInvalid),
            144 => Ok(DisconnectReasonCode::TopicNameInvalid),
            147 => Ok(DisconnectReasonCode::ReceiveMaxExceeded),
            148 => Ok(DisconnectReasonCode::TopicAliasInvalid),
            149 => Ok(DisconnectReasonCode::PacketTooLarge),
            150 => Ok(DisconnectReasonCode::MessageRateTooHigh),
            151 => Ok(DisconnectReasonCode::QuotaExceeded),
            152 => Ok(DisconnectReasonCode::AdministrativeAction),
            153 => Ok(DisconnectReasonCode::PayloadFormatInvalid),
            154 => Ok(DisconnectReasonCode::RetainNotSupported),
            155 => Ok(DisconnectReasonCode::QosNotSupported),
            156 => Ok(DisconnectReasonCode::UseAnotherServer),
            157 => Ok(DisconnectReasonCode::ServerMoved),
            158 => Ok(DisconnectReasonCode::SharedSubscriptionsNotSupported),
            159 => Ok(DisconnectReasonCode::ConnectionRateExceeded),
            160 => Ok(DisconnectReasonCode::MaxConnectTime),
            161 => Ok(DisconnectReasonCode::SubscriptionIdsNotSupported),
            162 => Ok(DisconnectReasonCode::WildcardSubscriptionsNotSupported),
            _ => Err(CodecError::MalformedBytes),
        }
    }

    pub fn value(self) -> (b: u8)
        ensures
            b == self.as_byte(),
    {
        match self {
            DisconnectReasonCode::NormalDisconnection => 0,
            DisconnectReasonCode::DisconnectWithWillMessage => 4,
            DisconnectReasonCode::UnspecifiedError => 128,
            DisconnectReasonCode::MalformedPacket => 129,
            DisconnectReasonCode::ProtocolError => 130,
            DisconnectReasonCode::ImplementationSpecificError => 131,
            DisconnectReasonCode::NotAuthorized => 135,
            DisconnectReasonCode::ServerBusy => 137,
            DisconnectReasonCode::ServerShuttingDown => 139,
            DisconnectReasonCode::KeepAliveTimeout => 141,
            DisconnectReasonCode::SessionTakenOver => 142,
            DisconnectReasonCode::TopicFilterInvalid => 143,
            DisconnectReasonCode::TopicNameInvalid => 144,
            DisconnectReasonCode::ReceiveMaxExceeded => 147,
            DisconnectReasonCode::TopicAliasInvalid => 148,
            DisconnectReasonCode::PacketTooLarge => 149,
            DisconnectReasonCode::MessageRateTooHigh => 150,
            DisconnectReasonCode::QuotaExceeded => 151,
            DisconnectReasonCode::AdministrativeAction => 152,
            DisconnectReasonCode::PayloadFormatInvalid => 153,
            DisconnectReasonCode::RetainNotSupported => 154,
            DisconnectReasonCode::QosNotSupported => 155,
            DisconnectReasonCode::UseAnotherServer => 156,
            DisconnectReasonCode::ServerMoved => 157,
            DisconnectReasonCode::SharedSubscriptionsNotSupported => 158,
            DisconnectReasonCode::ConnectionRateExceeded => 159,
            DisconnectReasonCode::MaxConnectTime => 160,
            DisconnectReasonCode::SubscriptionIdsNotSupported => 161,
            DisconnectReasonCode::WildcardSubscriptionsNotSupported => 162,
        }
    }

    /// The wire byte of a value always decodes back to it.
    pub proof fn lemma_round(self)
        ensures
            Self::spec_from(self.as_byte()) == Some(self),
    {
    }
}

/// Reason codes of an Auth packet.
#[derive(Clone, Copy, Debug, PartialEq, Eq, Structural)]
pub enum AuthReasonCode {
    Success,
    ContinueAuthentication,
    ReAuthenticate,
}

impl AuthReasonCode {
    /// The wire byte of this value.
    pub open spec fn as_byte(self) -> u8 {
        match self {
            AuthReasonCode::Success => 0,
            AuthReasonCode::ContinueAuthentication => 24,
            AuthReasonCode::ReAuthenticate => 25,
        }
    }

    /// The value a wire byte denotes, if any.
    pub open spec fn spec_from(b: u8) -> Option<AuthReasonCode> {
        if b == 0 {
            Some(AuthReasonCode::Success)
        } else if b == 24 {
            Some(AuthReasonCode::ContinueAuthentication)
        } else if b == 25 {
            Some(AuthReasonCode::ReAuthenticate)
        } else {
            None
        }
    }

    pub fn new(value: u8) -> (r: Result<AuthReasonCode, CodecError>)
        ensures
            Self::spec_from(value) matches Some(c) ==> r == Ok::<AuthReasonCode, CodecError>(c),
            Self::spec_from(value) is None ==> r == Err::<AuthReasonCode, CodecError>(
                CodecError::MalformedBytes,
            ),
    {
        match value {
            0 => Ok(AuthReasonCode::Success),
            24 => Ok(AuthReasonCode::ContinueAuthentication),
            25 => Ok(AuthReasonCode::ReAuthenticate),
            _ => Err(CodecError::MalformedBytes),
        }
    }

    pub fn value(self) -> (b: u8)
        ensures
            b == self.as_byte(),
    {
        match self {
            AuthReasonCode::Success => 0,
            AuthReasonCode::ContinueAuthentication => 24,
            AuthReasonCode::ReAuthenticate => 25,
        }
    }

    /// The wire byte of a value always decodes back to it.
    pub proof fn lemma_round(self)
        ensures
            Self::spec_from(self.as_byte()) == Some(self),
    {
    }
}

} // verus!
