//! What a session does: the rules, as functions from what it knows and what happens to
//! what it knows then and what it has done for it.

use super::names;
use super::steps::EffectView;
use super::steps::PendingView;
use super::steps::PersistView;
use super::steps::QueueView;
use super::steps::StepView;
use super::steps::SubscribeProgressView;
use super::SessionErrorView;
use crate::broker::router::SessionIdView;
use crate::broker::router::SubscribeResponseView;
use crate::messages::codec;
use crate::messages::connect;
use crate::messages::publish;
use crate::messages::subscribe;
use crate::messages::ReturnCode;
use vstd::prelude::*;

verus! {

/// What a session knows.
#[verifier::ext_equal]
pub struct SessionView {
    /// The name of the session: the identifier of the client.
    pub id: Seq<char>,
    /// The filters that the client has subscribed to.
    pub subscriptions: Seq<Seq<char>>,
    /// Whether a client is connected.
    pub connected: bool,
    /// Whether there is nothing that a client could find again.
    pub clean: bool,
    /// How often the session was started anew.
    pub generation: i64,
    /// The key of the session in the persistent store.
    pub internal_id: i32,
    /// The identifier of the next message for the client.
    pub next_message_id: u16,
    /// The identifiers in use for messages to the client.
    pub qos_outgoing: Set<u16>,
    /// The messages that the client has not acknowledged, and notes of those that it has
    /// received but not completed.
    pub qos_outgoing_messages: Seq<codec::MessageView>,
    /// The identifiers of messages that were received once and not yet released.
    pub qos_incoming: Set<u16>,
    /// How many messages the client has published.
    pub publish_received: u64,
    /// How many messages came for the client.
    pub publish_sent: u64,
}

/// An event of a session.
#[verifier::ext_equal]
pub enum SessionEventView {
    /// A packet of the router.
    Internal { session: SessionIdView, message: codec::MessageView },
    /// A packet of the client.
    Client(codec::MessageView),
    /// A client that takes over the session.
    NewClient(connect::ConnectView),
}

/// The outcome of a step or of a whole event.
pub type Next = (SessionView, StepView);

/// A session, as the router knows it.
pub open spec fn session_id(v: SessionView) -> SessionIdView {
    SessionIdView {
        session: v.id,
        internal_id: v.internal_id,
        session_generation: v.generation,
    }
}

/// A session that has just been made.
pub open spec fn new_session(id: Seq<char>) -> SessionView {
    SessionView {
        id,
        subscriptions: seq![],
        connected: false,
        clean: true,
        generation: 0,
        internal_id: 0,
        next_message_id: 1,
        qos_outgoing: Set::empty(),
        qos_outgoing_messages: seq![],
        qos_incoming: Set::empty(),
        publish_received: 0,
        publish_sent: 0,
    }
}

/// Whether a message is acknowledged by its receiver.
pub open spec fn acknowledged(qos: u8) -> bool {
    qos == 1 || qos == 2
}

/// The identifier of a queued packet; other packets are never queued.
pub open spec fn queued_mid(m: codec::MessageView) -> Option<u16> {
    match m {
        codec::MessageView::Publish(p) => Some(p.identifier),
        codec::MessageView::PubRec(mid) => Some(mid),
        _ => None,
    }
}

/// Whether the first packet in the queue with an identifier is at position `i`.
pub open spec fn queued_at(queue: Seq<codec::MessageView>, mid: u16, i: int) -> bool {
    &&& 0 <= i < queue.len()
    &&& queued_mid(queue[i]) == Some(mid)
    &&& forall|j: int| 0 <= j < i ==> queued_mid(#[trigger] queue[j]) != Some(mid)
}

/// Where the packet with an identifier stands in the queue.
pub open spec fn position(v: SessionView, mid: u16) -> Option<int> {
    if v.qos_outgoing.contains(mid) && exists|i: int| queued_at(v.qos_outgoing_messages, mid, i) {
        Some(choose|i: int| queued_at(v.qos_outgoing_messages, mid, i))
    } else {
        None
    }
}

/// A failure of the store.
pub open spec fn persist_fault<T>(text: &str) -> Result<T, SessionErrorView> {
    Err(SessionErrorView::Persist(text@))
}

/// The session without its client.
pub open spec fn client_lost(v: SessionView) -> SessionView {
    SessionView { connected: false, ..v }
}

/// The last packet of an event; it counts whether it can be sent.
pub open spec fn last_send(v: SessionView, m: codec::MessageView) -> Next {
    if v.connected {
        (v, StepView::Perform(EffectView::SendClient(m), PendingView::LastSent))
    } else {
        (v, StepView::Done(Err(SessionErrorView::Client)))
    }
}

/// The last packet of an event, where the client asks again if it is lost.
pub open spec fn ack_send(v: SessionView, m: codec::MessageView) -> Next {
    if v.connected {
        (v, StepView::Perform(EffectView::SendClient(m), PendingView::AckSent))
    } else {
        (v, StepView::Done(Ok(())))
    }
}

/// A message of the router for the client: one that is acknowledged gets the next
/// identifier and is stored before it is sent.
pub open spec fn internal_publish(v: SessionView, message: publish::PublishView) -> Next {
    let w = SessionView { publish_sent: v.publish_sent.wrapping_add(1), ..v };
    let message = publish::PublishView { dup: false, ..message };
    if acknowledged(message.qos) {
        let next_message_id = (w.next_message_id + 1) as u16;
        (
            SessionView { next_message_id, ..w },
            StepView::Perform(
                EffectView::Persist(
                    PersistView::UpdateMid { session_id: w.internal_id, next_message_id },
                ),
                PendingView::MidUpdated { message, mid: w.next_message_id },
            ),
        )
    } else {
        deliver(w, message)
    }
}

/// Sends a message to the client, if there is one.
pub open spec fn deliver(v: SessionView, message: publish::PublishView) -> Next {
    if v.connected {
        (
            v,
            StepView::Perform(
                EffectView::SendClient(codec::MessageView::Publish(message)),
                PendingView::PublishSent { mid: message.identifier, qos: message.qos },
            ),
        )
    } else {
        (v, StepView::Done(Ok(())))
    }
}

/// Whether a queued message has still to be marked as sent before.
pub open spec fn dup_needed(v: SessionView, mid: u16) -> Result<bool, SessionErrorView> {
    match position(v, mid) {
        None => persist_fault("QoS message not stored to set dup"),
        Some(i) => match v.qos_outgoing_messages[i] {
            codec::MessageView::Publish(m) => Ok(!m.dup),
            _ => persist_fault("QoS message not found to set dup"),
        },
    }
}

/// The request that marks a queued message as sent before.
pub open spec fn dup_request(v: SessionView, mid: u16) -> EffectView {
    EffectView::Persist(
        PersistView::OutgoingUpdateDup { session_id: v.internal_id, mid, dup: true },
    )
}

/// The session with a queued message marked as sent before.
pub open spec fn with_dup(v: SessionView, mid: u16) -> SessionView {
    let i = position(v, mid)->0;
    let queue = v.qos_outgoing_messages;
    SessionView {
        qos_outgoing_messages: queue.update(
            i,
            codec::MessageView::Publish(publish::PublishView { dup: true, ..queue[i]->Publish_0 }),
        ),
        ..v
    }
}

/// The session with a packet at the end of its queue.
pub open spec fn with_queued(v: SessionView, mid: u16, m: codec::MessageView) -> SessionView {
    SessionView {
        qos_outgoing: v.qos_outgoing.insert(mid),
        qos_outgoing_messages: v.qos_outgoing_messages.push(m),
        ..v
    }
}

/// The session without the packet that has an identifier.
pub open spec fn without_queued(v: SessionView, mid: u16) -> SessionView {
    SessionView {
        qos_outgoing_messages: v.qos_outgoing_messages.remove(position(v, mid)->0),
        ..v
    }
}

/// PUBACK and PUBCOMP: the message is no longer needed.
pub open spec fn outgoing_acknowledged(v: SessionView, mid: u16) -> Next {
    if position(v, mid) is Some {
        (
            v,
            StepView::Perform(
                EffectView::Persist(
                    PersistView::OutgoingDelete { session_id: v.internal_id, mid },
                ),
                PendingView::OutgoingDeleted { mid },
            ),
        )
    } else {
        (v, StepView::Done(Ok(())))
    }
}

/// PUBREL: the identifier of a received message is free again.
pub open spec fn pubrel(v: SessionView, mid: u16) -> Next {
    (
        v,
        StepView::Perform(
            EffectView::Persist(PersistView::IncomingDelete { session_id: v.internal_id, mid }),
            PendingView::IncomingDeleted { mid },
        ),
    )
}

/// Stores that the client has received a message.
pub open spec fn store_pubrec(v: SessionView, mid: u16) -> StepView {
    StepView::Perform(
        EffectView::Persist(
            PersistView::OutgoingStore {
                session_id: v.internal_id,
                mid,
                message: codec::MessageView::PubRec(mid),
            },
        ),
        PendingView::PubrecStored { mid },
    )
}

/// PUBREC: of the message only the note remains that it was received.
pub open spec fn pubrec(v: SessionView, mid: u16) -> Next {
    match position(v, mid) {
        Some(i) => match v.qos_outgoing_messages[i] {
            codec::MessageView::Publish(_) => (
                v,
                StepView::Perform(
                    EffectView::Persist(
                        PersistView::OutgoingDelete { session_id: v.internal_id, mid },
                    ),
                    PendingView::PubrecDeleted { mid },
                ),
            ),
            _ => last_send(v, codec::MessageView::PubRel(mid)),
        },
        None => (v, store_pubrec(v, mid)),
    }
}

/// A message of the client: one of QoS 2 that was received before is only acknowledged
/// again, any other is published.
pub open spec fn publish(v: SessionView, message: publish::PublishView) -> Next {
    let w = SessionView { publish_received: v.publish_received.wrapping_add(1), ..v };
    let mid = message.identifier;
    if message.qos == 2 && v.qos_incoming.contains(mid) {
        last_send(w, codec::MessageView::PubRec(mid))
    } else {
        (
            w,
            StepView::Perform(
                EffectView::RouterPublish {
                    session: session_id(w),
                    message: publish::PublishView { dup: false, ..message },
                },
                PendingView::Routed { qos: message.qos, mid },
            ),
        )
    }
}

/// What a subscription request comes to.
pub open spec fn subscribe_outcome(router_error: bool, client_error: bool) -> Result<
    (),
    SessionErrorView,
> {
    if router_error {
        Err(SessionErrorView::Router)
    } else if client_error {
        Err(SessionErrorView::Client)
    } else {
        Ok(())
    }
}

/// SUBSCRIBE: the router is asked for one filter after the other.
pub open spec fn subscribe(v: SessionView, message: subscribe::SubscribeView) -> Next {
    subscribe_next(
        v,
        SubscribeProgressView {
            message,
            next: 0,
            suback: subscribe::SubackView { identifier: message.identifier, response: seq![] },
            retained: seq![],
            router_error: false,
        },
    )
}

/// The next filter; after the last one the client gets its answer.
pub open spec fn subscribe_next(v: SessionView, p: SubscribeProgressView) -> Next {
    if p.next < p.message.topics.len() {
        let (topic, qos) = p.message.topics[p.next as int];
        (
            SessionView { subscriptions: names::with_name(v.subscriptions, topic), ..v },
            StepView::Subscribe { session: session_id(v), topic, qos, progress: p },
        )
    } else if v.connected {
        (
            v,
            StepView::Perform(
                EffectView::SendClient(codec::MessageView::SubAck(p.suback)),
                PendingView::SubackSent { retained: p.retained, router_error: p.router_error },
            ),
        )
    } else {
        (v, StepView::Done(subscribe_outcome(p.router_error, false)))
    }
}

/// The answer of the router for a filter; `None` where none came.
pub open spec fn subscribe_answered(
    v: SessionView,
    p: SubscribeProgressView,
    answer: Option<SubscribeResponseView>,
) -> Next {
    let qos = p.message.topics[p.next as int].1;
    let granted = answer matches Some(a) && a.ret != 0x80;
    let code = if granted {
        qos
    } else {
        0x80u8
    };
    subscribe_next(
        v,
        SubscribeProgressView {
            next: p.next + 1,
            suback: subscribe::SubackView {
                response: p.suback.response.push(code),
                ..p.suback
            },
            retained: if granted {
                p.retained + answer.unwrap().retained_messages
            } else {
                p.retained
            },
            router_error: p.router_error || answer is None,
            ..p
        },
    )
}

/// The retained messages, one after the other.
pub open spec fn send_retained(
    v: SessionView,
    retained: Seq<publish::PublishView>,
    next: nat,
    router_error: bool,
) -> Next {
    if next >= retained.len() {
        (v, StepView::Done(subscribe_outcome(router_error, false)))
    } else if v.connected {
        (
            v,
            StepView::Perform(
                EffectView::SendClient(codec::MessageView::Publish(retained[next as int])),
                PendingView::RetainedSent { retained, next, router_error },
            ),
        )
    } else {
        (v, StepView::Done(subscribe_outcome(router_error, true)))
    }
}

/// UNSUBSCRIBE.
pub open spec fn unsubscribe(v: SessionView, message: subscribe::UnsubscribeView) -> Next {
    (
        SessionView {
            subscriptions: names::without_names(v.subscriptions, message.topics),
            ..v
        },
        StepView::Perform(
            EffectView::RouterUnsubscribe { session: session_id(v), topics: message.topics },
            PendingView::Unsubscribed { identifier: message.identifier },
        ),
    )
}

/// A client that takes over the session; the one before it is told to go.
pub open spec fn new_client(v: SessionView, clean: bool) -> Next {
    if v.connected {
        (
            v,
            StepView::Perform(
                EffectView::SendClient(codec::MessageView::Disconnect),
                PendingView::Disconnected { clean },
            ),
        )
    } else {
        start_connection(v, clean)
    }
}

/// Cleans the session if the new client asks for that.
pub open spec fn start_connection(v: SessionView, clean: bool) -> Next {
    if clean {
        (
            v,
            StepView::Perform(
                EffectView::Persist(PersistView::IncomingClear { session_id: v.internal_id }),
                PendingView::IncomingCleared,
            ),
        )
    } else {
        greet(v, Ok(()))
    }
}

/// Tells the new client whether the session was there before, and whether it can go on.
pub open spec fn greet(v: SessionView, clean_result: Result<(), SessionErrorView>) -> Next {
    let connack = connect::ConnackView {
        session_present: !v.clean,
        return_code: if clean_result is Ok {
            ReturnCode::Accepted
        } else {
            ReturnCode::ServerUnavailable
        },
    };
    (
        SessionView { clean: false, connected: true, ..v },
        StepView::Perform(
            EffectView::SwitchClient(codec::MessageView::ConnAck(connack)),
            PendingView::ConnackSent { clean_result },
        ),
    )
}

/// The queue, one packet after the other: messages as they are, notes as PUBREL.
pub open spec fn send_queue(v: SessionView, queue: QueueView) -> Next {
    if queue.next >= v.qos_outgoing_messages.len() {
        (v, StepView::Done(queue.outcome))
    } else {
        match v.qos_outgoing_messages[queue.next as int] {
            codec::MessageView::Publish(m) => queue_send(
                v,
                codec::MessageView::Publish(m),
                queue,
                if acknowledged(m.qos) && !m.dup {
                    Some(m.identifier)
                } else {
                    None
                },
            ),
            codec::MessageView::PubRec(mid) => queue_send(
                v,
                codec::MessageView::PubRel(mid),
                queue,
                None,
            ),
            _ => (v, StepView::Done(persist_fault("Unkown queued message"))),
        }
    }
}

/// Sends a packet of the queue.
pub open spec fn queue_send(
    v: SessionView,
    m: codec::MessageView,
    queue: QueueView,
    mark: Option<u16>,
) -> Next {
    if v.connected {
        (v, StepView::Perform(EffectView::SendClient(m), PendingView::QueueSent { queue, mark }))
    } else {
        (v, StepView::Done(Err(SessionErrorView::Client)))
    }
}

/// The queue behind the packet that was sent last.
pub open spec fn queue_rest(queue: QueueView) -> QueueView {
    QueueView { next: queue.next + 1, ..queue }
}

/// How a session goes on with the outcome of an effect.
pub open spec fn answered(
    v: SessionView,
    pending: PendingView,
    outcome: Result<(), SessionErrorView>,
) -> Next {
    match pending {
        PendingView::MidUpdated { message, mid } => match outcome {
            Err(e) => (v, StepView::Done(Err(e))),
            Ok(()) => if v.qos_outgoing.contains(mid) {
                (v, StepView::Done(persist_fault("QoS outgoing mid duplicate found")))
            } else {
                let message = publish::PublishView { identifier: mid, ..message };
                (
                    v,
                    StepView::Perform(
                        EffectView::Persist(
                            PersistView::OutgoingStore {
                                session_id: v.internal_id,
                                mid,
                                message: codec::MessageView::Publish(message),
                            },
                        ),
                        PendingView::PublishStored { message },
                    ),
                )
            },
        },
        PendingView::PublishStored { message } => match outcome {
            Err(e) => (v, StepView::Done(Err(e))),
            Ok(()) => deliver(
                with_queued(v, message.identifier, codec::MessageView::Publish(message)),
                message,
            ),
        },
        PendingView::PublishSent { mid, qos } => match outcome {
            Err(_) => (client_lost(v), StepView::Done(Err(SessionErrorView::Client))),
            Ok(()) => if acknowledged(qos) {
                match dup_needed(v, mid) {
                    Err(e) => (v, StepView::Done(Err(e))),
                    Ok(false) => (v, StepView::Done(Ok(()))),
                    Ok(true) => (
                        v,
                        StepView::Perform(dup_request(v, mid), PendingView::DupStored { mid }),
                    ),
                }
            } else {
                (v, StepView::Done(Ok(())))
            },
        },
        PendingView::DupStored { mid } => match outcome {
            Err(e) => (v, StepView::Done(Err(e))),
            Ok(()) => (with_dup(v, mid), StepView::Done(Ok(()))),
        },
        PendingView::OutgoingDeleted { mid } => match outcome {
            Err(e) => (v, StepView::Done(Err(e))),
            Ok(()) => (
                SessionView {
                    qos_outgoing: v.qos_outgoing.remove(mid),
                    ..without_queued(v, mid)
                },
                StepView::Done(Ok(())),
            ),
        },
        PendingView::IncomingDeleted { mid } => match outcome {
            Err(e) => (v, StepView::Done(Err(e))),
            Ok(()) => last_send(
                SessionView { qos_incoming: v.qos_incoming.remove(mid), ..v },
                codec::MessageView::PubComp(mid),
            ),
        },
        PendingView::LastSent => match outcome {
            Err(_) => (client_lost(v), StepView::Done(Err(SessionErrorView::Client))),
            Ok(()) => (v, StepView::Done(Ok(()))),
        },
        PendingView::PubrecDeleted { mid } => match outcome {
            Err(e) => (v, StepView::Done(Err(e))),
            Ok(()) => (without_queued(v, mid), store_pubrec(v, mid)),
        },
        PendingView::PubrecStored { mid } => match outcome {
            Err(e) => (v, StepView::Done(Err(e))),
            Ok(()) => last_send(
                with_queued(v, mid, codec::MessageView::PubRec(mid)),
                codec::MessageView::PubRel(mid),
            ),
        },
        PendingView::Routed { qos, mid } => match outcome {
            Err(_) => (v, StepView::Done(Err(SessionErrorView::Router))),
            Ok(()) => if qos == 1 {
                ack_send(v, codec::MessageView::PubAck(mid))
            } else if qos == 2 {
                (
                    v,
                    StepView::Perform(
                        EffectView::Persist(
                            PersistView::IncomingStore { session_id: v.internal_id, mid },
                        ),
                        PendingView::IncomingStored { mid },
                    ),
                )
            } else {
                (v, StepView::Done(Ok(())))
            },
        },
        PendingView::AckSent => match outcome {
            Err(_) => (client_lost(v), StepView::Done(Ok(()))),
            Ok(()) => (v, StepView::Done(Ok(()))),
        },
        PendingView::IncomingStored { mid } => match outcome {
            Err(e) => (v, StepView::Done(Err(e))),
            Ok(()) => ack_send(
                SessionView { qos_incoming: v.qos_incoming.insert(mid), ..v },
                codec::MessageView::PubRec(mid),
            ),
        },
        PendingView::SubackSent { retained, router_error } => match outcome {
            Err(_) => (
                client_lost(v),
                StepView::Done(subscribe_outcome(router_error, false)),
            ),
            Ok(()) => send_retained(v, retained, 0, router_error),
        },
        PendingView::RetainedSent { retained, next, router_error } => match outcome {
            Err(_) => (
                client_lost(v),
                StepView::Done(subscribe_outcome(router_error, true)),
            ),
            Ok(()) => send_retained(v, retained, next + 1, router_error),
        },
        PendingView::Unsubscribed { identifier } => match outcome {
            Err(_) => (v, StepView::Done(Err(SessionErrorView::Router))),
            Ok(()) => last_send(v, codec::MessageView::UnsubAck(identifier)),
        },
        PendingView::Disconnected { clean } => start_connection(client_lost(v), clean),
        PendingView::IncomingCleared => match outcome {
            Err(e) => greet(v, Err(e)),
            Ok(()) => (
                SessionView { qos_incoming: Set::empty(), ..v },
                StepView::Perform(
                    EffectView::Persist(PersistView::OutgoingClear { session_id: v.internal_id }),
                    PendingView::OutgoingCleared,
                ),
            ),
        },
        PendingView::OutgoingCleared => match outcome {
            Err(e) => greet(v, Err(e)),
            Ok(()) => (
                SessionView {
                    qos_outgoing: Set::empty(),
                    qos_outgoing_messages: seq![],
                    subscriptions: seq![],
                    ..v
                },
                StepView::Perform(
                    EffectView::RouterUnsubscribe {
                        session: session_id(v),
                        topics: v.subscriptions,
                    },
                    PendingView::AllUnsubscribed,
                ),
            ),
        },
        PendingView::AllUnsubscribed => match outcome {
            Err(_) => greet(v, Err(SessionErrorView::Router)),
            Ok(()) => {
                let generation = (v.generation + 1) as i64;
                (
                    SessionView {
                        subscriptions: seq![],
                        clean: true,
                        generation,
                        next_message_id: 1,
                        ..v
                    },
                    StepView::Perform(
                        EffectView::Persist(
                            PersistView::UpdateGeneration {
                                session_id: v.internal_id,
                                generation,
                            },
                        ),
                        PendingView::GenerationStored,
                    ),
                )
            },
        },
        PendingView::GenerationStored => greet(v, outcome),
        PendingView::ConnackSent { clean_result } => {
            let client_result: Result<(), SessionErrorView> = match outcome {
                Err(_) => Err(SessionErrorView::Client),
                Ok(()) => Ok(()),
            };
            send_queue(
                if outcome is Ok {
                    v
                } else {
                    client_lost(v)
                },
                QueueView {
                    next: 0,
                    outcome: if clean_result is Ok {
                        client_result
                    } else {
                        clean_result
                    },
                },
            )
        },
        PendingView::QueueSent { queue, mark } => match outcome {
            Err(_) => (client_lost(v), StepView::Done(Err(SessionErrorView::Client))),
            Ok(()) => match mark {
                None => send_queue(v, queue_rest(queue)),
                Some(mid) => match dup_needed(v, mid) {
                    Err(e) => (v, StepView::Done(Err(e))),
                    Ok(false) => send_queue(v, queue_rest(queue)),
                    Ok(true) => (
                        v,
                        StepView::Perform(
                            dup_request(v, mid),
                            PendingView::QueueDupStored { queue, mid },
                        ),
                    ),
                },
            },
        },
        PendingView::QueueDupStored { queue, mid } => match outcome {
            Err(e) => (v, StepView::Done(Err(e))),
            Ok(()) => send_queue(with_dup(v, mid), queue_rest(queue)),
        },
    }
}

/// What holds while a session waits.
pub open spec fn waits(v: SessionView, pending: PendingView) -> bool {
    match pending {
        PendingView::DupStored { mid } => dup_needed(v, mid) == Ok::<bool, SessionErrorView>(true),
        PendingView::OutgoingDeleted { mid } => position(v, mid) is Some,
        PendingView::PubrecDeleted { mid } => position(v, mid) is Some,
        PendingView::RetainedSent { retained, next, .. } => next < retained.len(),
        PendingView::Disconnected { clean } => clean ==> v.generation < i64::MAX,
        PendingView::IncomingCleared => v.generation < i64::MAX,
        PendingView::OutgoingCleared => v.generation < i64::MAX,
        PendingView::AllUnsubscribed => v.generation < i64::MAX,
        PendingView::QueueSent { queue, .. } => queue.next < v.qos_outgoing_messages.len(),
        PendingView::QueueDupStored { queue, mid } => {
            &&& queue.next < v.qos_outgoing_messages.len()
            &&& dup_needed(v, mid) == Ok::<bool, SessionErrorView>(true)
        },
        _ => true,
    }
}

/// What holds while a step is carried out.
pub open spec fn step_waits(v: SessionView, step: StepView) -> bool {
    match step {
        StepView::Perform(_, pending) => waits(v, pending),
        StepView::Subscribe { progress, .. } => progress.next < progress.message.topics.len(),
        StepView::Done(_) => true,
    }
}

/// How a session answers an event. A packet of the router that was meant for an earlier
/// generation is dropped, as is any packet that has no place here.
pub open spec fn handled(v: SessionView, event: SessionEventView) -> Next {
    match event {
        SessionEventView::Internal { session, message } => match message {
            codec::MessageView::Publish(m) => if session.session_generation == v.generation {
                internal_publish(v, m)
            } else {
                (v, StepView::Done(Ok(())))
            },
            _ => (v, StepView::Done(Ok(()))),
        },
        SessionEventView::Client(message) => match message {
            codec::MessageView::Publish(m) => publish(v, m),
            codec::MessageView::PubAck(mid) => outgoing_acknowledged(v, mid),
            codec::MessageView::PubRel(mid) => pubrel(v, mid),
            codec::MessageView::PubRec(mid) => pubrec(v, mid),
            codec::MessageView::PubComp(mid) => outgoing_acknowledged(v, mid),
            codec::MessageView::Subscribe(m) => subscribe(v, m),
            codec::MessageView::Unsubscribe(m) => unsubscribe(v, m),
            _ => (v, StepView::Done(Ok(()))),
        },
        SessionEventView::NewClient(m) => new_client(v, m.clean_session),
    }
}

/// Whether the counters of the session have room for an event.
pub open spec fn has_room(v: SessionView, event: SessionEventView) -> bool {
    match event {
        SessionEventView::Internal { session, message } => match message {
            codec::MessageView::Publish(m) => session.session_generation == v.generation
                && acknowledged(m.qos) ==> v.next_message_id < u16::MAX,
            _ => true,
        },
        SessionEventView::Client(_) => true,
        SessionEventView::NewClient(m) => m.clean_session ==> v.generation < i64::MAX,
    }
}

/// The identifiers of the queued packets up to the first one that cannot be queued, and
/// whether there is one.
pub open spec fn queued_mids(queue: Seq<codec::MessageView>) -> (Set<u16>, bool)
    decreases queue.len(),
{
    if queue.len() == 0 {
        (Set::empty(), false)
    } else {
        let (mids, stopped) = queued_mids(queue.drop_last());
        if stopped {
            (mids, true)
        } else {
            match queued_mid(queue.last()) {
                Some(mid) => (mids.insert(mid), false),
                None => (mids, true),
            }
        }
    }
}

} // verus!
