//! What a session is to a broker.

use crate::messages::publish;
use crate::messages::MQTTMessagePublish;
use crate::text::text_equal;
use vstd::prelude::*;

verus! {

/// A session: its name, its key in the persistent store, and how often it was started.
#[verifier::ext_equal]
pub struct SessionIdView {
    pub session: Seq<char>,
    pub internal_id: i32,
    pub session_generation: i64,
}

/// A session, as the router knows it.
#[derive(PartialEq, Eq, Debug)]
pub struct SessionId {
    pub session: String,
    pub internal_id: i32,
    pub session_generation: i64,
}

impl View for SessionId {
    type V = SessionIdView;

    open spec fn view(&self) -> SessionIdView {
        SessionIdView {
            session: self.session@,
            internal_id: self.internal_id,
            session_generation: self.session_generation,
        }
    }
}

impl Clone for SessionId {
    fn clone(&self) -> (r: Self)
        ensures
            r@ == self@,
    {
        SessionId {
            session: self.session.clone(),
            internal_id: self.internal_id,
            session_generation: self.session_generation,
        }
    }
}

impl SessionId {
    /// Whether both are the same run of the same session.
    pub fn same(&self, other: &SessionId) -> (r: bool)
        ensures
            r == (self@ == other@),
    {
        self.internal_id == other.internal_id && self.session_generation
            == other.session_generation && text_equal(&self.session, &other.session)
    }
}

/// A message as a subscriber gets it: as a new one, and with the lower of the qualities of
/// service that it was published and subscribed with.
pub open spec fn forwarded(m: publish::PublishView, qos: u8) -> publish::PublishView {
    publish::PublishView {
        retain: false,
        qos: if qos < m.qos {
            qos
        } else {
            m.qos
        },
        ..m
    }
}

/// A message as a subscriber with a quality of service gets it.
pub fn forward(message: &MQTTMessagePublish, qos: u8) -> (r: MQTTMessagePublish)
    ensures
        r@ == forwarded(message@, qos),
{
    let mut m = message.clone();
    m.set_retain(false);
    if qos < m.get_qos() {
        m.set_qos(qos);
    }
    m
}

/// A message that a session publishes.
#[derive(PartialEq, Eq, Debug)]
pub struct RouterPublishMessage {
    pub session: SessionId,
    pub message: MQTTMessagePublish,
}

/// A subscription that a session asks for.
#[derive(PartialEq, Eq, Debug)]
pub struct RouterPublishSubscribe {
    pub session: SessionId,
    pub topic: String,
    pub qos: u8,
}

/// Subscriptions that a session ends.
#[derive(PartialEq, Eq, Debug)]
pub struct RouterPublisUnsubscribe {
    pub session: SessionId,
    pub topics: Vec<String>,
}

/// The answer to a subscription: the quality of service that was granted, or 0x80, and
/// what is retained at the topic.
#[derive(PartialEq, Eq, Debug)]
pub struct RouterPublishSubscribeResponse {
    pub ret: u8,
    pub retained_messages: Vec<MQTTMessagePublish>,
}

/// The contents of an answer to a subscription.
#[verifier::ext_equal]
pub struct SubscribeResponseView {
    pub ret: u8,
    pub retained_messages: Seq<publish::PublishView>,
}

impl View for RouterPublishSubscribeResponse {
    type V = SubscribeResponseView;

    open spec fn view(&self) -> SubscribeResponseView {
        SubscribeResponseView {
            ret: self.ret,
            retained_messages: publish_views(self.retained_messages@),
        }
    }
}

/// The contents of a list of messages.
pub open spec fn publish_views(list: Seq<MQTTMessagePublish>) -> Seq<publish::PublishView> {
    list.map_values(|m: MQTTMessagePublish| m@)
}

} // verus!
