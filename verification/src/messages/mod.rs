//! MQTT control packets and their wire format.

pub mod accepted;
pub mod acks;
pub mod buffer;
pub mod codec;
pub mod connect;
pub mod error;
pub mod layout;
pub mod length;
pub mod ping;
pub mod publish;
pub mod reader;
pub mod subscribe;
pub mod validation;

pub use acks::MQTTMessagePuback;
pub use acks::MQTTMessagePubcomp;
pub use acks::MQTTMessagePubrec;
pub use acks::MQTTMessagePubrel;
pub use connect::MQTTMessageConnack;
pub use connect::MQTTMessageConnect;
pub use ping::MQTTMessageDisconnect;
pub use ping::MQTTMessagePingReq;
pub use ping::MQTTMessagePingResp;
pub use publish::MQTTMessagePublish;
pub use subscribe::MQTTMessageSuback;
pub use subscribe::MQTTMessageSubscribe;
pub use subscribe::MQTTMessageUnsuback;
pub use subscribe::MQTTMessageUnsubscribe;

use vstd::prelude::*;
use vstd::std_specs::convert::TryFromSpecImpl;

verus! {

/// A packet that can be written onto the wire.
pub trait ToBytes {
    /// Whether the length of the encoding fits the machine.
    spec fn encodable(&self) -> bool;

    /// The bytes of the packet.
    spec fn encoding(&self) -> Seq<u8>;

    fn to_bytes(&self) -> (bytes: Vec<u8>)
        requires
            self.encodable(),
        ensures
            bytes@ == self.encoding(),
    ;
}

/// The type of a control packet.
#[derive(Copy, Clone, PartialEq, Eq, Debug, Structural)]
pub enum MQTTMessageType {
    Connect,
    ConnAck,
    Publish,
    PubAck,
    PubRec,
    PubRel,
    PubComp,
    Subscribe,
    SubAck,
    Unsubscribe,
    UnsubAck,
    PingReq,
    PingResp,
    Disconnect,
}

impl MQTTMessageType {
    /// The number of the type in the top four bits of a packet.
    pub open spec fn spec_number(self) -> u8 {
        match self {
            MQTTMessageType::Connect => 1,
            MQTTMessageType::ConnAck => 2,
            MQTTMessageType::Publish => 3,
            MQTTMessageType::PubAck => 4,
            MQTTMessageType::PubRec => 5,
            MQTTMessageType::PubRel => 6,
            MQTTMessageType::PubComp => 7,
            MQTTMessageType::Subscribe => 8,
            MQTTMessageType::SubAck => 9,
            MQTTMessageType::Unsubscribe => 10,
            MQTTMessageType::UnsubAck => 11,
            MQTTMessageType::PingReq => 12,
            MQTTMessageType::PingResp => 13,
            MQTTMessageType::Disconnect => 14,
        }
    }

    /// The type with the given number.
    pub open spec fn from_number(v: int) -> Option<MQTTMessageType> {
        if v == 1 {
            Some(MQTTMessageType::Connect)
        } else if v == 2 {
            Some(MQTTMessageType::ConnAck)
        } else if v == 3 {
            Some(MQTTMessageType::Publish)
        } else if v == 4 {
            Some(MQTTMessageType::PubAck)
        } else if v == 5 {
            Some(MQTTMessageType::PubRec)
        } else if v == 6 {
            Some(MQTTMessageType::PubRel)
        } else if v == 7 {
            Some(MQTTMessageType::PubComp)
        } else if v == 8 {
            Some(MQTTMessageType::Subscribe)
        } else if v == 9 {
            Some(MQTTMessageType::SubAck)
        } else if v == 10 {
            Some(MQTTMessageType::Unsubscribe)
        } else if v == 11 {
            Some(MQTTMessageType::UnsubAck)
        } else if v == 12 {
            Some(MQTTMessageType::PingReq)
        } else if v == 13 {
            Some(MQTTMessageType::PingResp)
        } else if v == 14 {
            Some(MQTTMessageType::Disconnect)
        } else {
            None
        }
    }

    pub fn number(self) -> (n: u8)
        ensures
            n == self.spec_number(),
    {
        match self {
            MQTTMessageType::Connect => 1,
            MQTTMessageType::ConnAck => 2,
            MQTTMessageType::Publish => 3,
            MQTTMessageType::PubAck => 4,
            MQTTMessageType::PubRec => 5,
            MQTTMessageType::PubRel => 6,
            MQTTMessageType::PubComp => 7,
            MQTTMessageType::Subscribe => 8,
            MQTTMessageType::SubAck => 9,
            MQTTMessageType::Unsubscribe => 10,
            MQTTMessageType::UnsubAck => 11,
            MQTTMessageType::PingReq => 12,
            MQTTMessageType::PingResp => 13,
            MQTTMessageType::Disconnect => 14,
        }
    }

    /// The first byte of a packet of this type with all flags clear.
    pub fn header(self) -> (b: u8)
        ensures
            b == self.spec_number() * 16,
    {
        self.number() * 16
    }
}

impl TryFrom<i32> for MQTTMessageType {
    type Error = ();

    fn try_from(v: i32) -> (r: Result<Self, ()>) {
        match v {
            1 => Ok(MQTTMessageType::Connect),
            2 => Ok(MQTTMessageType::ConnAck),
            3 => Ok(MQTTMessageType::Publish),
            4 => Ok(MQTTMessageType::PubAck),
            5 => Ok(MQTTMessageType::PubRec),
            6 => Ok(MQTTMessageType::PubRel),
            7 => Ok(MQTTMessageType::PubComp),
            8 => Ok(MQTTMessageType::Subscribe),
            9 => Ok(MQTTMessageType::SubAck),
            10 => Ok(MQTTMessageType::Unsubscribe),
            11 => Ok(MQTTMessageType::UnsubAck),
            12 => Ok(MQTTMessageType::PingReq),
            13 => Ok(MQTTMessageType::PingResp),
            14 => Ok(MQTTMessageType::Disconnect),
            _ => Err(()),
        }
    }
}

impl TryFromSpecImpl<i32> for MQTTMessageType {
    open spec fn obeys_try_from_spec() -> bool {
        true
    }

    open spec fn try_from_spec(v: i32) -> Result<Self, ()> {
        match MQTTMessageType::from_number(v as int) {
            Some(t) => Ok(t),
            None => Err(()),
        }
    }
}

/// A type is found again under its number, and only there.
pub proof fn law_message_type_numbers(t: MQTTMessageType, v: int)
    ensures
        1 <= t.spec_number() <= 14,
        MQTTMessageType::from_number(v) == Some(t) <==> v == t.spec_number(),
        MQTTMessageType::from_number(v) is None <==> v < 1 || v > 14,
{
}

/// The quality of service: at most once, at least once, exactly once.
#[derive(Copy, Clone, PartialEq, Eq, Debug, Structural)]
pub enum MQTTQos {
    QOS0,
    QOS1,
    QOS2,
}

impl MQTTQos {
    pub open spec fn spec_level(self) -> u8 {
        match self {
            MQTTQos::QOS0 => 0,
            MQTTQos::QOS1 => 1,
            MQTTQos::QOS2 => 2,
        }
    }

    pub fn level(self) -> (n: u8)
        ensures
            n == self.spec_level(),
    {
        match self {
            MQTTQos::QOS0 => 0,
            MQTTQos::QOS1 => 1,
            MQTTQos::QOS2 => 2,
        }
    }
}

/// The protocol level of MQTT 3.1.1.
pub const MQTT311_VERSION: u8 = 4;

/// What a connection request is answered.
#[derive(Copy, Clone, PartialEq, Eq, Debug, Structural)]
pub enum ReturnCode {
    Accepted,
    UnacceptableVersion,
    IdentifierRejected,
    ServerUnavailable,
    BadUsernameOrPassword,
    NotAuthorized,
}

impl ReturnCode {
    pub open spec fn spec_code(self) -> u8 {
        match self {
            ReturnCode::Accepted => 0,
            ReturnCode::UnacceptableVersion => 1,
            ReturnCode::IdentifierRejected => 2,
            ReturnCode::ServerUnavailable => 3,
            ReturnCode::BadUsernameOrPassword => 4,
            ReturnCode::NotAuthorized => 5,
        }
    }

    pub fn code(self) -> (n: u8)
        ensures
            n == self.spec_code(),
    {
        match self {
            ReturnCode::Accepted => 0,
            ReturnCode::UnacceptableVersion => 1,
            ReturnCode::IdentifierRejected => 2,
            ReturnCode::ServerUnavailable => 3,
            ReturnCode::BadUsernameOrPassword => 4,
            ReturnCode::NotAuthorized => 5,
        }
    }
}

/// The two bytes of a number, the more significant one first.
pub open spec fn u16_bytes(v: u16) -> Seq<u8> {
    seq![(v / 256) as u8, (v % 256) as u8]
}

/// Appends the two bytes of a number.
pub(crate) fn push_u16(out: &mut Vec<u8>, v: u16)
    ensures
        final(out)@ == old(out)@ + u16_bytes(v),
{
    out.push((v / 256) as u8);
    out.push((v % 256) as u8);
    assert(out@ =~= old(out)@ + u16_bytes(v));
}

} // verus!
