//! How a session works step by step: what it has done for it, and where it goes on.

use super::SessionError;
use super::SessionErrorView;
use crate::broker::router;
use crate::broker::router::RouterPublisUnsubscribe;
use crate::broker::router::RouterPublishMessage;
use crate::broker::router::RouterPublishSubscribe;
use crate::broker::router::SessionIdView;
use crate::messages::codec;
use crate::messages::codec::MQTTMessage;
use crate::messages::publish;
use crate::messages::subscribe;
use crate::messages::MQTTMessagePublish;
use crate::messages::MQTTMessageSuback;
use crate::messages::MQTTMessageSubscribe;
use crate::text;
use vstd::prelude::*;

verus! {

/// What is to be written to the persistent store.
#[derive(PartialEq, Eq, Debug)]
pub enum PersistRequest {
    UpdateGeneration { session_id: i32, generation: i64 },
    UpdateMid { session_id: i32, next_message_id: u16 },
    IncomingStore { session_id: i32, mid: u16 },
    IncomingDelete { session_id: i32, mid: u16 },
    IncomingClear { session_id: i32 },
    OutgoingStore { session_id: i32, mid: u16, message: MQTTMessage },
    OutgoingUpdateDup { session_id: i32, mid: u16, dup: bool },
    OutgoingDelete { session_id: i32, mid: u16 },
    OutgoingClear { session_id: i32 },
}

/// The contents of a request to the store.
#[verifier::ext_equal]
pub enum PersistView {
    UpdateGeneration { session_id: i32, generation: i64 },
    UpdateMid { session_id: i32, next_message_id: u16 },
    IncomingStore { session_id: i32, mid: u16 },
    IncomingDelete { session_id: i32, mid: u16 },
    IncomingClear { session_id: i32 },
    OutgoingStore { session_id: i32, mid: u16, message: codec::MessageView },
    OutgoingUpdateDup { session_id: i32, mid: u16, dup: bool },
    OutgoingDelete { session_id: i32, mid: u16 },
    OutgoingClear { session_id: i32 },
}

impl View for PersistRequest {
    type V = PersistView;

    open spec fn view(&self) -> PersistView {
        match *self {
            PersistRequest::UpdateGeneration { session_id, generation } =>
                PersistView::UpdateGeneration { session_id, generation },
            PersistRequest::UpdateMid { session_id, next_message_id } => PersistView::UpdateMid {
                session_id,
                next_message_id,
            },
            PersistRequest::IncomingStore { session_id, mid } => PersistView::IncomingStore {
                session_id,
                mid,
            },
            PersistRequest::IncomingDelete { session_id, mid } => PersistView::IncomingDelete {
                session_id,
                mid,
            },
            PersistRequest::IncomingClear { session_id } => PersistView::IncomingClear {
                session_id,
            },
            PersistRequest::OutgoingStore { session_id, mid, message } =>
                PersistView::OutgoingStore { session_id, mid, message: message@ },
            PersistRequest::OutgoingUpdateDup { session_id, mid, dup } =>
                PersistView::OutgoingUpdateDup { session_id, mid, dup },
            PersistRequest::OutgoingDelete { session_id, mid } => PersistView::OutgoingDelete {
                session_id,
                mid,
            },
            PersistRequest::OutgoingClear { session_id } => PersistView::OutgoingClear {
                session_id,
            },
        }
    }
}

/// What a session has done for it.
#[derive(PartialEq, Eq, Debug)]
pub enum Effect {
    /// Write to the persistent store.
    Persist(PersistRequest),
    /// Send a packet to the client.
    SendClient(MQTTMessage),
    /// Let the new client take the place of the old one, and send it a packet.
    SwitchClient(MQTTMessage),
    /// Publish a message.
    RouterPublish(RouterPublishMessage),
    /// End subscriptions.
    RouterUnsubscribe(RouterPublisUnsubscribe),
}

/// The contents of what a session has done for it.
#[verifier::ext_equal]
pub enum EffectView {
    Persist(PersistView),
    SendClient(codec::MessageView),
    SwitchClient(codec::MessageView),
    RouterPublish { session: SessionIdView, message: publish::PublishView },
    RouterUnsubscribe { session: SessionIdView, topics: Seq<Seq<char>> },
}

impl View for Effect {
    type V = EffectView;

    open spec fn view(&self) -> EffectView {
        match *self {
            Effect::Persist(r) => EffectView::Persist(r@),
            Effect::SendClient(m) => EffectView::SendClient(m@),
            Effect::SwitchClient(m) => EffectView::SwitchClient(m@),
            Effect::RouterPublish(p) => EffectView::RouterPublish {
                session: p.session@,
                message: p.message@,
            },
            Effect::RouterUnsubscribe(u) => EffectView::RouterUnsubscribe {
                session: u.session@,
                topics: text::texts(u.topics@),
            },
        }
    }
}

/// How far the queue has been sent to a new client, and what the connection comes to if
/// the rest of it can be sent.
pub struct Queue {
    pub next: usize,
    pub outcome: Result<(), SessionError>,
}

/// How far the queue has been sent.
#[verifier::ext_equal]
pub struct QueueView {
    pub next: nat,
    pub outcome: Result<(), SessionErrorView>,
}

impl View for Queue {
    type V = QueueView;

    open spec fn view(&self) -> QueueView {
        QueueView { next: self.next as nat, outcome: super::outcome_view(self.outcome) }
    }
}

/// Where a session waits for the outcome of an effect.
pub enum Pending {
    /// A message for the client has its identifier.
    MidUpdated { message: MQTTMessagePublish, mid: u16 },
    /// A message for the client is stored.
    PublishStored { message: MQTTMessagePublish },
    /// A message was sent to the client.
    PublishSent { mid: u16, qos: u8 },
    /// A message is marked as sent before.
    DupStored { mid: u16 },
    /// A message is no longer stored.
    OutgoingDeleted { mid: u16 },
    /// A received message may come again under its identifier.
    IncomingDeleted { mid: u16 },
    /// The last packet was sent.
    LastSent,
    /// A message that the client has received is no longer stored.
    PubrecDeleted { mid: u16 },
    /// It is stored that the client has received a message.
    PubrecStored { mid: u16 },
    /// A message of the client is published.
    Routed { qos: u8, mid: u16 },
    /// The last packet was sent; if it was lost the client asks again.
    AckSent,
    /// The identifier of a received message is stored.
    IncomingStored { mid: u16 },
    /// The answer to a subscription was sent.
    SubackSent { retained: Vec<MQTTMessagePublish>, router_error: bool },
    /// A retained message was sent.
    RetainedSent { retained: Vec<MQTTMessagePublish>, next: usize, router_error: bool },
    /// Subscriptions are ended.
    Unsubscribed { identifier: u16 },
    /// The old client was told to go.
    Disconnected { clean: bool },
    /// The received messages are forgotten.
    IncomingCleared,
    /// The messages for the client are forgotten.
    OutgoingCleared,
    /// All subscriptions are ended.
    AllUnsubscribed,
    /// The new generation is stored.
    GenerationStored,
    /// The new client was greeted.
    ConnackSent { clean_result: Result<(), SessionError> },
    /// A queued packet was sent; a message that was not sent before is marked.
    QueueSent { queue: Queue, mark: Option<u16> },
    /// A queued message is marked as sent before.
    QueueDupStored { queue: Queue, mid: u16 },
}

/// Where a session waits.
#[verifier::ext_equal]
pub enum PendingView {
    MidUpdated { message: publish::PublishView, mid: u16 },
    PublishStored { message: publish::PublishView },
    PublishSent { mid: u16, qos: u8 },
    DupStored { mid: u16 },
    OutgoingDeleted { mid: u16 },
    IncomingDeleted { mid: u16 },
    LastSent,
    PubrecDeleted { mid: u16 },
    PubrecStored { mid: u16 },
    Routed { qos: u8, mid: u16 },
    AckSent,
    IncomingStored { mid: u16 },
    SubackSent { retained: Seq<publish::PublishView>, router_error: bool },
    RetainedSent { retained: Seq<publish::PublishView>, next: nat, router_error: bool },
    Unsubscribed { identifier: u16 },
    Disconnected { clean: bool },
    IncomingCleared,
    OutgoingCleared,
    AllUnsubscribed,
    GenerationStored,
    ConnackSent { clean_result: Result<(), SessionErrorView> },
    QueueSent { queue: QueueView, mark: Option<u16> },
    QueueDupStored { queue: QueueView, mid: u16 },
}

impl View for Pending {
    type V = PendingView;

    open spec fn view(&self) -> PendingView {
        match *self {
            Pending::MidUpdated { message, mid } => PendingView::MidUpdated {
                message: message@,
                mid,
            },
            Pending::PublishStored { message } => PendingView::PublishStored { message: message@ },
            Pending::PublishSent { mid, qos } => PendingView::PublishSent { mid, qos },
            Pending::DupStored { mid } => PendingView::DupStored { mid },
            Pending::OutgoingDeleted { mid } => PendingView::OutgoingDeleted { mid },
            Pending::IncomingDeleted { mid } => PendingView::IncomingDeleted { mid },
            Pending::LastSent => PendingView::LastSent,
            Pending::PubrecDeleted { mid } => PendingView::PubrecDeleted { mid },
            Pending::PubrecStored { mid } => PendingView::PubrecStored { mid },
            Pending::Routed { qos, mid } => PendingView::Routed { qos, mid },
            Pending::AckSent => PendingView::AckSent,
            Pending::IncomingStored { mid } => PendingView::IncomingStored { mid },
            Pending::SubackSent { retained, router_error } => PendingView::SubackSent {
                retained: router::publish_views(retained@),
                router_error,
            },
            Pending::RetainedSent { retained, next, router_error } => PendingView::RetainedSent {
                retained: router::publish_views(retained@),
                next: next as nat,
                router_error,
            },
            Pending::Unsubscribed { identifier } => PendingView::Unsubscribed { identifier },
            Pending::Disconnected { clean } => PendingView::Disconnected { clean },
            Pending::IncomingCleared => PendingView::IncomingCleared,
            Pending::OutgoingCleared => PendingView::OutgoingCleared,
            Pending::AllUnsubscribed => PendingView::AllUnsubscribed,
            Pending::GenerationStored => PendingView::GenerationStored,
            Pending::ConnackSent { clean_result } => PendingView::ConnackSent {
                clean_result: super::outcome_view(clean_result),
            },
            Pending::QueueSent { queue, mark } => PendingView::QueueSent { queue: queue@, mark },
            Pending::QueueDupStored { queue, mid } => PendingView::QueueDupStored {
                queue: queue@,
                mid,
            },
        }
    }
}

/// How far a subscription request has come.
pub struct SubscribeProgress {
    pub message: MQTTMessageSubscribe,
    /// The filter that the router is asked for.
    pub next: usize,
    pub suback: MQTTMessageSuback,
    pub retained: Vec<MQTTMessagePublish>,
    pub router_error: bool,
}

/// How far a subscription request has come.
#[verifier::ext_equal]
pub struct SubscribeProgressView {
    pub message: subscribe::SubscribeView,
    pub next: nat,
    pub suback: subscribe::SubackView,
    pub retained: Seq<publish::PublishView>,
    pub router_error: bool,
}

impl View for SubscribeProgress {
    type V = SubscribeProgressView;

    open spec fn view(&self) -> SubscribeProgressView {
        SubscribeProgressView {
            message: self.message@,
            next: self.next as nat,
            suback: self.suback@,
            retained: router::publish_views(self.retained@),
            router_error: self.router_error,
        }
    }
}

/// How far a session has come with an event.
pub enum Step {
    /// Something is done for it; with the outcome it goes on.
    Perform(Effect, Pending),
    /// The router is asked for a subscription; with the answer it goes on.
    Subscribe(RouterPublishSubscribe, SubscribeProgress),
    /// The event is dealt with.
    Done(Result<(), SessionError>),
}

/// How far a session has come with an event.
#[verifier::ext_equal]
pub enum StepView {
    Perform(EffectView, PendingView),
    Subscribe { session: SessionIdView, topic: Seq<char>, qos: u8, progress: SubscribeProgressView },
    Done(Result<(), SessionErrorView>),
}

impl View for Step {
    type V = StepView;

    open spec fn view(&self) -> StepView {
        match *self {
            Step::Perform(e, p) => StepView::Perform(e@, p@),
            Step::Subscribe(r, p) => StepView::Subscribe {
                session: r.session@,
                topic: r.topic@,
                qos: r.qos,
                progress: p@,
            },
            Step::Done(r) => StepView::Done(super::outcome_view(r)),
        }
    }
}

} // verus!
