//! The work of a session.

use super::names::Names;
use super::rules;
use super::rules::SessionEventView;
use super::rules::SessionView;
use super::steps::Effect;
use super::steps::Pending;
use super::steps::PersistRequest;
use super::steps::Queue;
use super::steps::Step;
use super::steps::SubscribeProgress;
use super::SessionError;
use super::SessionErrorView;
use crate::broker::router;
use crate::broker::router::RouterPublisUnsubscribe;
use crate::broker::router::RouterPublishMessage;
use crate::broker::router::RouterPublishSubscribe;
use crate::broker::router::RouterPublishSubscribeResponse;
use crate::broker::router::SessionId;
use crate::messages::codec;
use crate::messages::codec::MQTTMessage;
use crate::messages::subscribe;
use crate::messages::MQTTMessageConnack;
use crate::messages::MQTTMessageConnect;
use crate::messages::MQTTMessageDisconnect;
use crate::messages::MQTTMessagePuback;
use crate::messages::MQTTMessagePubcomp;
use crate::messages::MQTTMessagePublish;
use crate::messages::MQTTMessagePubrec;
use crate::messages::MQTTMessagePubrel;
use crate::messages::MQTTMessageSuback;
use crate::messages::MQTTMessageSubscribe;
use crate::messages::MQTTMessageUnsuback;
use crate::messages::MQTTMessageUnsubscribe;
use crate::messages::ReturnCode;
use crate::text;
use std::collections::HashSet;
use vstd::prelude::*;

verus! {

broadcast use vstd::std_specs::hash::group_hash_axioms;

/// A client that takes over a session.
pub struct NewClient {
    pub msg: MQTTMessageConnect,
}

/// A packet from the router, and the session that it is meant for.
pub struct SessionInternalMessage {
    pub session: SessionId,
    pub message: MQTTMessage,
}

/// An event of a session.
pub enum SessionMessage {
    Internal(SessionInternalMessage),
    Client(MQTTMessage),
    NewClient(NewClient),
}

impl View for SessionMessage {
    type V = SessionEventView;

    open spec fn view(&self) -> SessionEventView {
        match *self {
            SessionMessage::Internal(m) => SessionEventView::Internal {
                session: m.session@,
                message: m.message@,
            },
            SessionMessage::Client(m) => SessionEventView::Client(m@),
            SessionMessage::NewClient(c) => SessionEventView::NewClient(c.msg@),
        }
    }
}

/// A session.
pub struct MQTTSession {
    id: String,
    subscriptions: Names,
    connected: bool,
    clean: bool,
    generation: i64,
    internal_id: i32,
    next_message_id: u16,
    qos_outgoing: HashSet<u16>,
    qos_outgoing_messages: Vec<MQTTMessage>,
    qos_incoming: HashSet<u16>,
    counter_publish_received: u64,
    counter_publish_sent: u64,
}

/// The contents of a list of packets.
pub open spec fn message_views(list: Seq<MQTTMessage>) -> Seq<codec::MessageView> {
    list.map_values(|m: MQTTMessage| m@)
}

impl View for MQTTSession {
    type V = SessionView;

    closed spec fn view(&self) -> SessionView {
        SessionView {
            id: self.id@,
            subscriptions: self.subscriptions@,
            connected: self.connected,
            clean: self.clean,
            generation: self.generation,
            internal_id: self.internal_id,
            next_message_id: self.next_message_id,
            qos_outgoing: self.qos_outgoing@,
            qos_outgoing_messages: message_views(self.qos_outgoing_messages@),
            qos_incoming: self.qos_incoming@,
            publish_received: self.counter_publish_received,
            publish_sent: self.counter_publish_sent,
        }
    }
}

proof fn lemma_position(v: SessionView, mid: u16, i: int)
    requires
        v.qos_outgoing.contains(mid),
        rules::queued_at(v.qos_outgoing_messages, mid, i),
    ensures
        rules::position(v, mid) == Some(i),
{
    let j = choose|j: int| rules::queued_at(v.qos_outgoing_messages, mid, j);
    assert(rules::queued_at(v.qos_outgoing_messages, mid, j));
    if j < i {
        assert(rules::queued_mid(v.qos_outgoing_messages[j]) != Some(mid));
    } else if i < j {
        assert(rules::queued_mid(v.qos_outgoing_messages[i]) != Some(mid));
    }
}

/// The packet that acknowledges or releases a message.
fn pubrec_packet(mid: u16) -> (r: MQTTMessage)
    ensures
        r@ == codec::MessageView::PubRec(mid),
{
    let mut m = MQTTMessagePubrec::new();
    m.set_identifier(mid);
    MQTTMessage::PubRec(m)
}

fn pubrel_packet(mid: u16) -> (r: MQTTMessage)
    ensures
        r@ == codec::MessageView::PubRel(mid),
{
    let mut m = MQTTMessagePubrel::new();
    m.set_identifier(mid);
    MQTTMessage::PubRel(m)
}

fn acknowledged(qos: u8) -> (r: bool)
    ensures
        r == rules::acknowledged(qos),
{
    qos == 1 || qos == 2
}

fn persist_error(text: &str) -> (r: SessionError)
    ensures
        r@ == SessionErrorView::Persist(text@),
{
    SessionError::Persist(text.to_owned())
}

impl MQTTSession {
    /// A session that nobody has used.
    pub fn new(id: String) -> (r: MQTTSession)
        ensures
            r@ == rules::new_session(id@),
    {
        let r = MQTTSession {
            id,
            subscriptions: Names::new(),
            connected: false,
            clean: true,
            generation: 0,
            internal_id: 0,
            next_message_id: 1,
            qos_outgoing: HashSet::new(),
            qos_outgoing_messages: Vec::new(),
            qos_incoming: HashSet::new(),
            counter_publish_received: 0,
            counter_publish_sent: 0,
        };
        assert(r@ =~= rules::new_session(id@));
        r
    }

    /// How many messages the client has published.
    pub fn publish_received(&self) -> (n: u64)
        ensures
            n == self@.publish_received,
    {
        self.counter_publish_received
    }

    /// How many messages came for the client.
    pub fn publish_sent(&self) -> (n: u64)
        ensures
            n == self@.publish_sent,
    {
        self.counter_publish_sent
    }

    /// The session as the router knows it.
    pub fn session_id(&self) -> (r: SessionId)
        ensures
            r@ == rules::session_id(self@),
    {
        SessionId {
            session: self.id.clone(),
            internal_id: self.internal_id,
            session_generation: self.generation,
        }
    }

    /// Takes what the store knows of the session; `true` if there is more to load.
    pub fn session_loaded(
        &mut self,
        internal_id: i32,
        generation: i64,
        clean: bool,
        next_mid: u16,
    ) -> (more: bool)
        ensures
            final(self)@ == (SessionView {
                internal_id,
                generation,
                clean,
                next_message_id: next_mid,
                ..old(self)@
            }),
            more == !clean,
    {
        self.internal_id = internal_id;
        self.generation = generation;
        self.clean = clean;
        self.next_message_id = next_mid;
        !clean
    }

    /// Takes the subscriptions from the store.
    pub fn subscriptions_loaded(&mut self, topics: Vec<String>)
        ensures
            final(self)@ == (SessionView {
                subscriptions: super::names::with_names(
                    old(self)@.subscriptions,
                    text::texts(topics@),
                ),
                ..old(self)@
            }),
    {
        self.subscriptions.insert_all(topics);
    }

    /// Takes the identifiers of received messages from the store.
    pub fn qos_incoming_loaded(&mut self, mids: HashSet<u16>)
        ensures
            final(self)@ == (SessionView { qos_incoming: mids@, ..old(self)@ }),
    {
        self.qos_incoming = mids;
    }

    /// Takes the queue from the store. One with a packet that cannot be queued is refused.
    pub fn qos_outgoing_loaded(&mut self, messages: Vec<MQTTMessage>) -> (r: Result<
        (),
        SessionError,
    >)
        ensures
            ({
                let (mids, stopped) = rules::queued_mids(message_views(messages@));
                let w = SessionView {
                    qos_outgoing: old(self)@.qos_outgoing.union(mids),
                    ..old(self)@
                };
                if stopped {
                    &&& final(self)@ == w
                    &&& super::outcome_view(r) == rules::persist_fault::<()>(
                        "Error loading persistent state - unkown qos message",
                    )
                } else {
                    &&& final(self)@ == (SessionView {
                        qos_outgoing_messages: message_views(messages@),
                        ..w
                    })
                    &&& r is Ok
                }
            }),
    {
        let ghost before = self@;
        let ghost list = message_views(messages@);
        let mut i: usize = 0;
        proof {
            assert(list.take(0) =~= seq![]);
            assert(before.qos_outgoing.union(Set::<u16>::empty()) =~= before.qos_outgoing);
        }
        while i < messages.len()
            invariant
                i <= messages@.len(),
                list == message_views(messages@),
                before == old(self)@,
                !rules::queued_mids(list.take(i as int)).1,
                self@ == (SessionView {
                    qos_outgoing: before.qos_outgoing.union(
                        rules::queued_mids(list.take(i as int)).0,
                    ),
                    ..before
                }),
            decreases messages@.len() - i,
        {
            proof {
                assert(list.take(i + 1).drop_last() =~= list.take(i as int));
                assert(list.take(i + 1).last() == list[i as int]);
            }
            let ghost mids = rules::queued_mids(list.take(i as int)).0;
            let mid = match &messages[i] {
                MQTTMessage::Publish(m) => m.get_identifier(),
                MQTTMessage::PubRec(m) => m.get_identifier(),
                _ => {
                    proof {
                        lemma_stopped(list, i + 1);
                    }
                    return Err(
                        persist_error("Error loading persistent state - unkown qos message"),
                    );
                },
            };
            let _new = self.qos_outgoing.insert(mid);
            proof {
                assert(before.qos_outgoing.union(mids).insert(mid) =~= before.qos_outgoing.union(
                    mids.insert(mid),
                ));
            }
            i += 1;
        }
        assert(list.take(i as int) =~= list);
        self.qos_outgoing_messages = messages;
        Ok(())
    }

    /// Where the packet with an identifier stands in the queue.
    fn qos_outgoing_message_position(&self, mid: u16) -> (r: Option<usize>)
        ensures
            match r {
                Some(i) => rules::position(self@, mid) == Some(i as int) && rules::queued_at(
                    self@.qos_outgoing_messages,
                    mid,
                    i as int,
                ),
                None => rules::position(self@, mid) is None,
            },
    {
        if !self.qos_outgoing.contains(&mid) {
            return None;
        }
        let ghost queue = self@.qos_outgoing_messages;
        let mut i: usize = 0;
        while i < self.qos_outgoing_messages.len()
            invariant
                i <= queue.len(),
                queue == message_views(self.qos_outgoing_messages@),
                queue == self@.qos_outgoing_messages,
                self@.qos_outgoing.contains(mid),
                forall|j: int| 0 <= j < i ==> rules::queued_mid(#[trigger] queue[j]) != Some(mid),
            decreases queue.len() - i,
        {
            let found = match &self.qos_outgoing_messages[i] {
                MQTTMessage::Publish(m) => m.get_identifier() == mid,
                MQTTMessage::PubRec(m) => m.get_identifier() == mid,
                _ => false,
            };
            if found {
                assert(queue[i as int] == self.qos_outgoing_messages@[i as int]@);
                assert(rules::queued_at(queue, mid, i as int));
                proof {
                    lemma_position(self@, mid, i as int);
                }
                return Some(i);
            }
            assert(queue[i as int] == self.qos_outgoing_messages@[i as int]@);
            i += 1;
        }
        assert(forall|k: int| !rules::queued_at(queue, mid, k));
        None
    }

    fn last_send(&self, message: MQTTMessage) -> (r: Step)
        ensures
            r@ == rules::last_send(self@, message@).1,
    {
        if self.connected {
            Step::Perform(Effect::SendClient(message), Pending::LastSent)
        } else {
            Step::Done(Err(SessionError::Client))
        }
    }

    fn ack_send(&self, message: MQTTMessage) -> (r: Step)
        ensures
            r@ == rules::ack_send(self@, message@).1,
    {
        if self.connected {
            Step::Perform(Effect::SendClient(message), Pending::AckSent)
        } else {
            Step::Done(Ok(()))
        }
    }

    /// A message of the router for the client.
    pub fn internal_publish_message(&mut self, message: MQTTMessagePublish) -> (r: Step)
        requires
            rules::acknowledged(message@.qos) ==> old(self)@.next_message_id < u16::MAX,
        ensures
            (final(self)@, r@) == rules::internal_publish(old(self)@, message@),
            rules::step_waits(final(self)@, r@),
    {
        self.counter_publish_sent = self.counter_publish_sent.wrapping_add(1);
        let mut message = message;
        message.set_dup(false);
        if acknowledged(message.get_qos()) {
            let mid = self.next_message_id;
            self.next_message_id = self.next_message_id + 1;
            Step::Perform(
                Effect::Persist(
                    PersistRequest::UpdateMid {
                        session_id: self.internal_id,
                        next_message_id: self.next_message_id,
                    },
                ),
                Pending::MidUpdated { message, mid },
            )
        } else {
            self.deliver(message)
        }
    }

    fn deliver(&self, message: MQTTMessagePublish) -> (r: Step)
        ensures
            r@ == rules::deliver(self@, message@).1,
            rules::step_waits(self@, r@),
    {
        if self.connected {
            let mid = message.get_identifier();
            let qos = message.get_qos();
            Step::Perform(
                Effect::SendClient(MQTTMessage::Publish(message)),
                Pending::PublishSent { mid, qos },
            )
        } else {
            Step::Done(Ok(()))
        }
    }

    /// PUBACK and PUBCOMP.
    fn qos_outgoing_remove(&mut self, mid: u16) -> (r: Step)
        ensures
            (final(self)@, r@) == rules::outgoing_acknowledged(old(self)@, mid),
            rules::step_waits(final(self)@, r@),
    {
        match self.qos_outgoing_message_position(mid) {
            Some(_) => Step::Perform(
                Effect::Persist(
                    PersistRequest::OutgoingDelete { session_id: self.internal_id, mid },
                ),
                Pending::OutgoingDeleted { mid },
            ),
            None => Step::Done(Ok(())),
        }
    }

    /// The client has acknowledged a message of QoS 1.
    pub fn puback_message(&mut self, message: MQTTMessagePuback) -> (r: Step)
        ensures
            (final(self)@, r@) == rules::outgoing_acknowledged(old(self)@, message@),
            rules::step_waits(final(self)@, r@),
    {
        self.qos_outgoing_remove(message.get_identifier())
    }

    /// The client has completed a message of QoS 2.
    pub fn pubcomp_message(&mut self, message: MQTTMessagePubcomp) -> (r: Step)
        ensures
            (final(self)@, r@) == rules::outgoing_acknowledged(old(self)@, message@),
            rules::step_waits(final(self)@, r@),
    {
        self.qos_outgoing_remove(message.get_identifier())
    }

    /// The client releases the identifier of a message of QoS 2.
    pub fn pubrel_message(&mut self, message: MQTTMessagePubrel) -> (r: Step)
        ensures
            (final(self)@, r@) == rules::pubrel(old(self)@, message@),
            rules::step_waits(final(self)@, r@),
    {
        let mid = message.get_identifier();
        Step::Perform(
            Effect::Persist(PersistRequest::IncomingDelete { session_id: self.internal_id, mid }),
            Pending::IncomingDeleted { mid },
        )
    }

    fn store_pubrec(&self, mid: u16) -> (r: Step)
        ensures
            r@ == rules::store_pubrec(self@, mid),
    {
        Step::Perform(
            Effect::Persist(
                PersistRequest::OutgoingStore {
                    session_id: self.internal_id,
                    mid,
                    message: pubrec_packet(mid),
                },
            ),
            Pending::PubrecStored { mid },
        )
    }

    /// The client has received a message of QoS 2.
    pub fn pubrec_message(&mut self, message: MQTTMessagePubrec) -> (r: Step)
        ensures
            (final(self)@, r@) == rules::pubrec(old(self)@, message@),
            rules::step_waits(final(self)@, r@),
    {
        let mid = message.get_identifier();
        match self.qos_outgoing_message_position(mid) {
            Some(i) => {
                assert(self@.qos_outgoing_messages[i as int]
                    == self.qos_outgoing_messages@[i as int]@);
                match &self.qos_outgoing_messages[i] {
                    MQTTMessage::Publish(_) => Step::Perform(
                        Effect::Persist(
                            PersistRequest::OutgoingDelete { session_id: self.internal_id, mid },
                        ),
                        Pending::PubrecDeleted { mid },
                    ),
                    _ => self.last_send(pubrel_packet(mid)),
                }
            },
            None => self.store_pubrec(mid),
        }
    }

    /// A message of the client.
    pub fn publish_message(&mut self, message: MQTTMessagePublish) -> (r: Step)
        ensures
            (final(self)@, r@) == rules::publish(old(self)@, message@),
            rules::step_waits(final(self)@, r@),
    {
        self.counter_publish_received = self.counter_publish_received.wrapping_add(1);
        let qos = message.get_qos();
        let mid = message.get_identifier();
        if qos == 2 && self.qos_incoming.contains(&mid) {
            return self.last_send(pubrec_packet(mid));
        }
        let mut message = message;
        message.set_dup(false);
        Step::Perform(
            Effect::RouterPublish(RouterPublishMessage { session: self.session_id(), message }),
            Pending::Routed { qos, mid },
        )
    }

    /// The client asks for subscriptions.
    pub fn subscribe_message(&mut self, message: MQTTMessageSubscribe) -> (r: Step)
        ensures
            (final(self)@, r@) == rules::subscribe(old(self)@, message@),
            rules::step_waits(final(self)@, r@),
    {
        let mut suback = MQTTMessageSuback::new();
        suback.set_identifier(message.get_identifier());
        let retained: Vec<MQTTMessagePublish> = Vec::new();
        let ghost no_messages: Seq<crate::messages::publish::PublishView> = seq![];
        assert(router::publish_views(retained@) =~= no_messages);
        let progress = SubscribeProgress {
            message,
            next: 0,
            suback,
            retained,
            router_error: false,
        };
        self.subscribe_next(progress)
    }

    fn subscribe_outcome(router_error: bool, client_error: bool) -> (r: Result<(), SessionError>)
        ensures
            super::outcome_view(r) == rules::subscribe_outcome(router_error, client_error),
    {
        if router_error {
            Err(SessionError::Router)
        } else if client_error {
            Err(SessionError::Client)
        } else {
            Ok(())
        }
    }

    fn subscribe_next(&mut self, progress: SubscribeProgress) -> (r: Step)
        requires
            progress.next <= progress@.message.topics.len(),
        ensures
            (final(self)@, r@) == rules::subscribe_next(old(self)@, progress@),
            rules::step_waits(final(self)@, r@),
    {
        let topics = progress.message.get_topics();
        if progress.next < topics.len() {
            assert(subscribe::filter_views(topics@)[progress.next as int] == (
                topics@[progress.next as int].0@,
                topics@[progress.next as int].1,
            ));
            let session = self.session_id();
            let topic = topics[progress.next].0.clone();
            let qos = topics[progress.next].1;
            self.subscriptions.insert(topic.clone());
            Step::Subscribe(RouterPublishSubscribe { session, topic, qos }, progress)
        } else if self.connected {
            Step::Perform(
                Effect::SendClient(MQTTMessage::SubAck(progress.suback)),
                Pending::SubackSent {
                    retained: progress.retained,
                    router_error: progress.router_error,
                },
            )
        } else {
            Step::Done(Self::subscribe_outcome(progress.router_error, false))
        }
    }

    /// Goes on with a subscription request when the router has answered for a filter;
    /// `None` where it has not.
    pub fn subscribe_answer(
        &mut self,
        progress: SubscribeProgress,
        answer: Option<RouterPublishSubscribeResponse>,
    ) -> (r: Step)
        requires
            progress@.next < progress@.message.topics.len(),
        ensures
            ({
                let a = match answer {
                    Some(a) => Some(a@),
                    None => None,
                };
                (final(self)@, r@) == rules::subscribe_answered(old(self)@, progress@, a)
            }),
            rules::step_waits(final(self)@, r@),
    {
        let ghost before = progress@;
        let mut progress = progress;
        let topics = progress.message.get_topics();
        assert(subscribe::filter_views(topics@)[progress.next as int].1
            == topics@[progress.next as int].1);
        assert(progress.next < topics.len());
        let qos = topics[progress.next].1;
        let code = match answer {
            None => {
                progress.router_error = true;
                0x80
            },
            Some(response) => {
                if response.ret != 0x80 {
                    let mut messages = response.retained_messages;
                    let ghost first = progress.retained@;
                    let ghost second = messages@;
                    progress.retained.append(&mut messages);
                    assert(router::publish_views(first + second) =~= router::publish_views(first)
                        + router::publish_views(second));
                    qos
                } else {
                    0x80
                }
            },
        };
        progress.suback.add_response(code);
        progress.next = progress.next + 1;
        self.subscribe_next(progress)
    }

    fn send_retained(
        &self,
        retained: Vec<MQTTMessagePublish>,
        next: usize,
        router_error: bool,
    ) -> (r: Step)
        ensures
            r@ == rules::send_retained(
                self@,
                router::publish_views(retained@),
                next as nat,
                router_error,
            ).1,
            rules::step_waits(self@, r@),
    {
        if next >= retained.len() {
            Step::Done(Self::subscribe_outcome(router_error, false))
        } else if self.connected {
            let message = retained[next].clone();
            Step::Perform(
                Effect::SendClient(MQTTMessage::Publish(message)),
                Pending::RetainedSent { retained, next, router_error },
            )
        } else {
            Step::Done(Self::subscribe_outcome(router_error, true))
        }
    }

    /// The client ends subscriptions.
    pub fn unsubscribe_message(&mut self, message: MQTTMessageUnsubscribe) -> (r: Step)
        ensures
            (final(self)@, r@) == rules::unsubscribe(old(self)@, message@),
            rules::step_waits(final(self)@, r@),
    {
        let topics = message.get_topics();
        self.subscriptions.remove_all(topics);
        let topics = text::clone_strings(topics);
        Step::Perform(
            Effect::RouterUnsubscribe(
                RouterPublisUnsubscribe { session: self.session_id(), topics },
            ),
            Pending::Unsubscribed { identifier: message.get_identifier() },
        )
    }

    /// A client takes over the session.
    pub fn new_client_connected(&mut self, new_client: NewClient) -> (r: Step)
        requires
            new_client.msg@.clean_session ==> old(self)@.generation < i64::MAX,
        ensures
            (final(self)@, r@) == rules::new_client(old(self)@, new_client.msg@.clean_session),
            rules::step_waits(final(self)@, r@),
    {
        let clean = new_client.msg.has_clean_session();
        if self.connected {
            Step::Perform(
                Effect::SendClient(MQTTMessage::Disconnect(MQTTMessageDisconnect::new())),
                Pending::Disconnected { clean },
            )
        } else {
            self.start_connection(clean)
        }
    }

    fn start_connection(&mut self, clean: bool) -> (r: Step)
        requires
            clean ==> old(self)@.generation < i64::MAX,
        ensures
            (final(self)@, r@) == rules::start_connection(old(self)@, clean),
            rules::step_waits(final(self)@, r@),
    {
        if clean {
            Step::Perform(
                Effect::Persist(PersistRequest::IncomingClear { session_id: self.internal_id }),
                Pending::IncomingCleared,
            )
        } else {
            self.greet(Ok(()))
        }
    }

    fn greet(&mut self, clean_result: Result<(), SessionError>) -> (r: Step)
        ensures
            (final(self)@, r@) == rules::greet(old(self)@, super::outcome_view(clean_result)),
            rules::step_waits(final(self)@, r@),
    {
        let mut connack = MQTTMessageConnack::new();
        connack.set_session_present(!self.clean);
        self.clean = false;
        self.connected = true;
        if clean_result.is_ok() {
            connack.set_return_code(ReturnCode::Accepted);
        } else {
            connack.set_return_code(ReturnCode::ServerUnavailable);
        }
        Step::Perform(
            Effect::SwitchClient(MQTTMessage::ConnAck(connack)),
            Pending::ConnackSent { clean_result },
        )
    }

    fn queue_send(&self, message: MQTTMessage, queue: Queue, mark: Option<u16>) -> (r: Step)
        requires
            queue.next < self@.qos_outgoing_messages.len(),
        ensures
            r@ == rules::queue_send(self@, message@, queue@, mark).1,
            rules::step_waits(self@, r@),
    {
        if self.connected {
            Step::Perform(Effect::SendClient(message), Pending::QueueSent { queue, mark })
        } else {
            Step::Done(Err(SessionError::Client))
        }
    }

    fn send_queued_messages(&self, queue: Queue) -> (r: Step)
        ensures
            r@ == rules::send_queue(self@, queue@).1,
            rules::step_waits(self@, r@),
    {
        if queue.next >= self.qos_outgoing_messages.len() {
            return Step::Done(queue.outcome);
        }
        assert(self@.qos_outgoing_messages[queue.next as int]
            == self.qos_outgoing_messages@[queue.next as int]@);
        match &self.qos_outgoing_messages[queue.next] {
            MQTTMessage::Publish(m) => {
                let mark = if acknowledged(m.get_qos()) && !m.get_dup() {
                    Some(m.get_identifier())
                } else {
                    None
                };
                self.queue_send(MQTTMessage::Publish(m.clone()), queue, mark)
            },
            MQTTMessage::PubRec(m) => {
                let mid = m.get_identifier();
                self.queue_send(pubrel_packet(mid), queue, None)
            },
            _ => Step::Done(Err(persist_error("Unkown queued message"))),
        }
    }

    /// Whether a queued message has still to be marked as sent before.
    fn dup_needed(&self, mid: u16) -> (r: Result<bool, SessionError>)
        ensures
            match r {
                Ok(b) => rules::dup_needed(self@, mid) == Ok::<bool, SessionErrorView>(b),
                Err(e) => rules::dup_needed(self@, mid) == Err::<bool, SessionErrorView>(e@),
            },
    {
        match self.qos_outgoing_message_position(mid) {
            Some(i) => {
                assert(self@.qos_outgoing_messages[i as int]
                    == self.qos_outgoing_messages@[i as int]@);
                match &self.qos_outgoing_messages[i] {
                    MQTTMessage::Publish(m) => Ok(!m.get_dup()),
                    _ => Err(persist_error("QoS message not found to set dup")),
                }
            },
            None => Err(persist_error("QoS message not stored to set dup")),
        }
    }

    fn dup_request(&self, mid: u16) -> (r: Effect)
        ensures
            r@ == rules::dup_request(self@, mid),
    {
        Effect::Persist(
            PersistRequest::OutgoingUpdateDup { session_id: self.internal_id, mid, dup: true },
        )
    }

    /// Marks a queued message as sent before.
    fn qos_outgoing_set_dup(&mut self, mid: u16)
        requires
            rules::dup_needed(old(self)@, mid) == Ok::<bool, SessionErrorView>(true),
        ensures
            final(self)@ == rules::with_dup(old(self)@, mid),
    {
        let ghost before = self@;
        match self.qos_outgoing_message_position(mid) {
            Some(i) => {
                assert(before.qos_outgoing_messages[i as int]
                    == self.qos_outgoing_messages@[i as int]@);
                let marked = match &self.qos_outgoing_messages[i] {
                    MQTTMessage::Publish(m) => {
                        let mut marked = m.clone();
                        marked.set_dup(true);
                        MQTTMessage::Publish(marked)
                    },
                    other => other.clone(),
                };
                self.qos_outgoing_messages.set(i, marked);
                assert(self@.qos_outgoing_messages =~= before.qos_outgoing_messages.update(
                    i as int,
                    marked@,
                ));
            },
            None => {},
        }
    }

    /// Takes the packet with an identifier out of the queue.
    fn unqueue(&mut self, mid: u16)
        requires
            rules::position(old(self)@, mid) is Some,
        ensures
            final(self)@ == rules::without_queued(old(self)@, mid),
    {
        let ghost before = self@;
        match self.qos_outgoing_message_position(mid) {
            Some(i) => {
                let _gone = self.qos_outgoing_messages.remove(i);
                assert(self@.qos_outgoing_messages =~= before.qos_outgoing_messages.remove(
                    i as int,
                ));
            },
            None => {},
        }
    }

    /// Puts a packet at the end of the queue.
    fn enqueue(&mut self, mid: u16, message: MQTTMessage)
        ensures
            final(self)@ == rules::with_queued(old(self)@, mid, message@),
    {
        let ghost before = self@;
        let _new = self.qos_outgoing.insert(mid);
        self.qos_outgoing_messages.push(message);
        assert(self@.qos_outgoing_messages =~= before.qos_outgoing_messages.push(message@));
    }
}

impl MQTTSession {
    /// Goes on when an effect was carried out. Of a packet that could not be sent and of a
    /// router that could not be reached it only counts that it failed.
    pub fn answer(&mut self, pending: Pending, outcome: Result<(), SessionError>) -> (r: Step)
        requires
            rules::waits(old(self)@, pending@),
        ensures
            (final(self)@, r@) == rules::answered(
                old(self)@,
                pending@,
                super::outcome_view(outcome),
            ),
            rules::step_waits(final(self)@, r@),
    {
        match pending {
            Pending::PublishSent { mid, qos } => self.publish_sent_answer(mid, qos, outcome),
            Pending::LastSent => {
                if outcome.is_err() {
                    self.connected = false;
                    Step::Done(Err(SessionError::Client))
                } else {
                    Step::Done(Ok(()))
                }
            },
            Pending::AckSent => {
                if outcome.is_err() {
                    self.connected = false;
                }
                Step::Done(Ok(()))
            },
            Pending::Routed { qos, mid } => {
                if outcome.is_err() {
                    return Step::Done(Err(SessionError::Router));
                }
                if qos == 1 {
                    let mut puback = MQTTMessagePuback::new();
                    puback.set_identifier(mid);
                    self.ack_send(MQTTMessage::PubAck(puback))
                } else if qos == 2 {
                    Step::Perform(
                        Effect::Persist(
                            PersistRequest::IncomingStore { session_id: self.internal_id, mid },
                        ),
                        Pending::IncomingStored { mid },
                    )
                } else {
                    Step::Done(Ok(()))
                }
            },
            Pending::SubackSent { retained, router_error } => {
                if outcome.is_err() {
                    self.connected = false;
                    return Step::Done(Self::subscribe_outcome(router_error, false));
                }
                self.send_retained(retained, 0, router_error)
            },
            Pending::RetainedSent { retained, next, router_error } => {
                if outcome.is_err() {
                    self.connected = false;
                    return Step::Done(Self::subscribe_outcome(router_error, true));
                }
                assert(next < retained.len());
                self.send_retained(retained, next + 1, router_error)
            },
            Pending::Unsubscribed { identifier } => {
                if outcome.is_err() {
                    return Step::Done(Err(SessionError::Router));
                }
                let mut ack = MQTTMessageUnsuback::new();
                ack.set_identifier(identifier);
                self.last_send(MQTTMessage::UnsubAck(ack))
            },
            Pending::Disconnected { clean } => {
                self.connected = false;
                self.start_connection(clean)
            },
            Pending::IncomingCleared => self.incoming_cleared(outcome),
            Pending::OutgoingCleared => self.outgoing_cleared(outcome),
            Pending::AllUnsubscribed => self.all_unsubscribed(outcome),
            Pending::GenerationStored => self.greet(outcome),
            Pending::ConnackSent { clean_result } => {
                let client_result: Result<(), SessionError> = if outcome.is_err() {
                    self.connected = false;
                    Err(SessionError::Client)
                } else {
                    Ok(())
                };
                let outcome = if clean_result.is_ok() {
                    client_result
                } else {
                    clean_result
                };
                self.send_queued_messages(Queue { next: 0, outcome })
            },
            Pending::QueueSent { queue, mark } => self.queue_sent_answer(queue, mark, outcome),
            other => match outcome {
                Err(e) => Step::Done(Err(e)),
                Ok(()) => self.stored(other),
            },
        }
    }

    fn publish_sent_answer(
        &mut self,
        mid: u16,
        qos: u8,
        outcome: Result<(), SessionError>,
    ) -> (r: Step)
        ensures
            (final(self)@, r@) == rules::answered(
                old(self)@,
                (Pending::PublishSent { mid, qos })@,
                super::outcome_view(outcome),
            ),
            rules::step_waits(final(self)@, r@),
    {
        if outcome.is_err() {
            self.connected = false;
            return Step::Done(Err(SessionError::Client));
        }
        if acknowledged(qos) {
            match self.dup_needed(mid) {
                Err(e) => Step::Done(Err(e)),
                Ok(needed) => {
                    if needed {
                        Step::Perform(self.dup_request(mid), Pending::DupStored { mid })
                    } else {
                        Step::Done(Ok(()))
                    }
                },
            }
        } else {
            Step::Done(Ok(()))
        }
    }

    fn queue_sent_answer(
        &mut self,
        queue: Queue,
        mark: Option<u16>,
        outcome: Result<(), SessionError>,
    ) -> (r: Step)
        requires
            queue.next < old(self)@.qos_outgoing_messages.len(),
        ensures
            (final(self)@, r@) == rules::answered(
                old(self)@,
                (Pending::QueueSent { queue, mark })@,
                super::outcome_view(outcome),
            ),
            rules::step_waits(final(self)@, r@),
    {
        if outcome.is_err() {
            self.connected = false;
            return Step::Done(Err(SessionError::Client));
        }
        match mark {
            Some(mid) => match self.dup_needed(mid) {
                Err(e) => {
                    return Step::Done(Err(e));
                },
                Ok(needed) => {
                    if needed {
                        return Step::Perform(
                            self.dup_request(mid),
                            Pending::QueueDupStored { queue, mid },
                        );
                    }
                },
            },
            None => {},
        }
        assert(queue.next < self.qos_outgoing_messages.len());
        self.send_queued_messages(Queue { next: queue.next + 1, outcome: queue.outcome })
    }

    /// Goes on when something was stored.
    fn stored(&mut self, pending: Pending) -> (r: Step)
        requires
            rules::waits(old(self)@, pending@),
            pending is MidUpdated || pending is PublishStored || pending is DupStored
                || pending is OutgoingDeleted || pending is IncomingDeleted
                || pending is PubrecDeleted || pending is PubrecStored || pending is IncomingStored
                || pending is QueueDupStored,
        ensures
            (final(self)@, r@) == rules::answered(old(self)@, pending@, Ok(())),
            rules::step_waits(final(self)@, r@),
    {
        match pending {
            Pending::MidUpdated { message, mid } => {
                if self.qos_outgoing.contains(&mid) {
                    return Step::Done(Err(persist_error("QoS outgoing mid duplicate found")));
                }
                let mut message = message;
                message.set_identifier(mid);
                Step::Perform(
                    Effect::Persist(
                        PersistRequest::OutgoingStore {
                            session_id: self.internal_id,
                            mid,
                            message: MQTTMessage::Publish(message.clone()),
                        },
                    ),
                    Pending::PublishStored { message },
                )
            },
            Pending::PublishStored { message } => {
                let mid = message.get_identifier();
                self.enqueue(mid, MQTTMessage::Publish(message.clone()));
                self.deliver(message)
            },
            Pending::DupStored { mid } => {
                self.qos_outgoing_set_dup(mid);
                Step::Done(Ok(()))
            },
            Pending::OutgoingDeleted { mid } => {
                self.unqueue(mid);
                let _had = self.qos_outgoing.remove(&mid);
                Step::Done(Ok(()))
            },
            Pending::IncomingDeleted { mid } => {
                let _had = self.qos_incoming.remove(&mid);
                let mut pubcomp = MQTTMessagePubcomp::new();
                pubcomp.set_identifier(mid);
                self.last_send(MQTTMessage::PubComp(pubcomp))
            },
            Pending::PubrecDeleted { mid } => {
                self.unqueue(mid);
                self.store_pubrec(mid)
            },
            Pending::PubrecStored { mid } => {
                self.enqueue(mid, pubrec_packet(mid));
                self.last_send(pubrel_packet(mid))
            },
            Pending::IncomingStored { mid } => {
                let _new = self.qos_incoming.insert(mid);
                self.ack_send(pubrec_packet(mid))
            },
            Pending::QueueDupStored { queue, mid } => {
                assert(queue.next < self.qos_outgoing_messages.len());
                self.qos_outgoing_set_dup(mid);
                self.send_queued_messages(Queue { next: queue.next + 1, outcome: queue.outcome })
            },
            _ => Step::Done(Ok(())),
        }
    }

    /// `clean_session`, once the received messages are forgotten.
    fn incoming_cleared(&mut self, outcome: Result<(), SessionError>) -> (r: Step)
        requires
            old(self)@.generation < i64::MAX,
        ensures
            (final(self)@, r@) == rules::answered(
                old(self)@,
                Pending::IncomingCleared@,
                super::outcome_view(outcome),
            ),
            rules::step_waits(final(self)@, r@),
    {
        if outcome.is_err() {
            return self.greet(outcome);
        }
        self.qos_incoming = HashSet::new();
        Step::Perform(
            Effect::Persist(PersistRequest::OutgoingClear { session_id: self.internal_id }),
            Pending::OutgoingCleared,
        )
    }

    /// `clean_session`, once the queue is forgotten.
    fn outgoing_cleared(&mut self, outcome: Result<(), SessionError>) -> (r: Step)
        requires
            old(self)@.generation < i64::MAX,
        ensures
            (final(self)@, r@) == rules::answered(
                old(self)@,
                Pending::OutgoingCleared@,
                super::outcome_view(outcome),
            ),
            rules::step_waits(final(self)@, r@),
    {
        if outcome.is_err() {
            return self.greet(outcome);
        }
        self.qos_outgoing = HashSet::new();
        self.qos_outgoing_messages = Vec::new();
        assert(self@.qos_outgoing_messages =~= seq![]);
        let topics = self.subscriptions.to_vec();
        self.subscriptions.clear();
        Step::Perform(
            Effect::RouterUnsubscribe(
                RouterPublisUnsubscribe { session: self.session_id(), topics },
            ),
            Pending::AllUnsubscribed,
        )
    }

    /// `clean_session`, once all subscriptions are ended.
    fn all_unsubscribed(&mut self, outcome: Result<(), SessionError>) -> (r: Step)
        requires
            old(self)@.generation < i64::MAX,
        ensures
            (final(self)@, r@) == rules::answered(
                old(self)@,
                Pending::AllUnsubscribed@,
                super::outcome_view(outcome),
            ),
            rules::step_waits(final(self)@, r@),
    {
        if outcome.is_err() {
            return self.greet(Err(SessionError::Router));
        }
        self.subscriptions.clear();
        self.clean = true;
        self.generation = self.generation + 1;
        self.next_message_id = 1;
        Step::Perform(
            Effect::Persist(
                PersistRequest::UpdateGeneration {
                    session_id: self.internal_id,
                    generation: self.generation,
                },
            ),
            Pending::GenerationStored,
        )
    }

    /// Whether the counters of the session have room for an event.
    pub fn has_room(&self, event: &SessionMessage) -> (r: bool)
        ensures
            r == rules::has_room(self@, event@),
    {
        match event {
            SessionMessage::Internal(m) => match &m.message {
                MQTTMessage::Publish(p) => !(m.session.session_generation == self.generation
                    && acknowledged(p.get_qos())) || self.next_message_id < u16::MAX,
                _ => true,
            },
            SessionMessage::Client(_) => true,
            SessionMessage::NewClient(c) => !c.msg.has_clean_session() || self.generation
                < i64::MAX,
        }
    }

    /// Takes an event.
    pub fn handle(&mut self, event: SessionMessage) -> (r: Step)
        requires
            rules::has_room(old(self)@, event@),
        ensures
            (final(self)@, r@) == rules::handled(old(self)@, event@),
            rules::step_waits(final(self)@, r@),
    {
        match event {
            SessionMessage::Internal(m) => {
                if m.session.session_generation != self.generation {
                    return Step::Done(Ok(()));
                }
                match m.message {
                    MQTTMessage::Publish(p) => self.internal_publish_message(p),
                    _ => Step::Done(Ok(())),
                }
            },
            SessionMessage::Client(m) => match m {
                MQTTMessage::Publish(m) => self.publish_message(m),
                MQTTMessage::PubAck(m) => self.puback_message(m),
                MQTTMessage::PubRel(m) => self.pubrel_message(m),
                MQTTMessage::PubRec(m) => self.pubrec_message(m),
                MQTTMessage::PubComp(m) => self.pubcomp_message(m),
                MQTTMessage::Subscribe(m) => self.subscribe_message(m),
                MQTTMessage::Unsubscribe(m) => self.unsubscribe_message(m),
                _ => Step::Done(Ok(())),
            },
            SessionMessage::NewClient(c) => self.new_client_connected(c),
        }
    }

    /// Whether a session runs at all: it needs the store, and what is kept there.
    pub fn starts(connection: &Result<(), SessionError>, loaded: &Result<(), SessionError>) -> (r:
        bool)
        ensures
            r == (connection is Ok && loaded is Ok),
    {
        connection.is_ok() && loaded.is_ok()
    }

    /// Whether a session goes on after an event: it can do without its client, but not
    /// without the router or the store.
    pub fn keeps_running(outcome: &Result<(), SessionError>) -> (r: bool)
        ensures
            r == (outcome matches Err(e) ==> e is Client),
    {
        match outcome {
            Ok(()) => true,
            Err(SessionError::Client) => true,
            Err(_) => false,
        }
    }

    /// The packet for a client that is still there when the session ends.
    pub fn farewell(&self) -> (r: Option<MQTTMessage>)
        ensures
            match r {
                Some(m) => self@.connected && m@ == codec::MessageView::Disconnect,
                None => !self@.connected,
            },
    {
        if self.connected {
            Some(MQTTMessage::Disconnect(MQTTMessageDisconnect::new()))
        } else {
            None
        }
    }
}

proof fn lemma_stopped(list: Seq<codec::MessageView>, n: int)
    requires
        0 <= n <= list.len(),
        rules::queued_mids(list.take(n)).1,
    ensures
        rules::queued_mids(list) == rules::queued_mids(list.take(n)),
    decreases list.len() - n,
{
    if n == list.len() {
        assert(list.take(n) =~= list);
    } else {
        assert(list.take(n + 1).drop_last() =~= list.take(n));
        lemma_stopped(list, n + 1);
    }
}

} // verus!
