//! Topic management: subscriptions and retained messages.
//!
//! The persistent store is asked step by step: an operation says what to ask and where it
//! stands, and goes on when it gets the answer.

use super::router::SessionId;
use super::router::SessionIdView;
use super::subscribers::Subscribers;
use super::topic;
use super::topic::Topic;
use super::BrokerError;
use crate::messages::publish;
use crate::messages::MQTTMessagePublish;
use crate::text;
use crate::text::split;
use vstd::prelude::*;

verus! {

/// What an operation asks of the persistent store.
#[derive(PartialEq, Eq, Debug)]
pub enum Request {
    PersistTopic { topic: String },
    PersistDeleteTopic { topic_id: i32 },
    PersistSubscribe { session_id: i32, topic_id: i32, qos: u8 },
    PersistUpdateSubscribe { session_id: i32, topic_id: i32, qos: u8 },
    PersistUnsubscribe { session_id: i32, topic_id: i32 },
    PersistRetain { topic_id: i32, message: MQTTMessagePublish },
    PersistDeleteRetain { topic_id: i32 },
}

/// The contents of a request.
#[verifier::ext_equal]
pub enum RequestView {
    PersistTopic { topic: Seq<char> },
    PersistDeleteTopic { topic_id: i32 },
    PersistSubscribe { session_id: i32, topic_id: i32, qos: u8 },
    PersistUpdateSubscribe { session_id: i32, topic_id: i32, qos: u8 },
    PersistUnsubscribe { session_id: i32, topic_id: i32 },
    PersistRetain { topic_id: i32, message: publish::PublishView },
    PersistDeleteRetain { topic_id: i32 },
}

impl View for Request {
    type V = RequestView;

    open spec fn view(&self) -> RequestView {
        match *self {
            Request::PersistTopic { topic } => RequestView::PersistTopic { topic: topic@ },
            Request::PersistDeleteTopic { topic_id } => RequestView::PersistDeleteTopic {
                topic_id,
            },
            Request::PersistSubscribe { session_id, topic_id, qos } =>
                RequestView::PersistSubscribe { session_id, topic_id, qos },
            Request::PersistUpdateSubscribe { session_id, topic_id, qos } =>
                RequestView::PersistUpdateSubscribe { session_id, topic_id, qos },
            Request::PersistUnsubscribe { session_id, topic_id } =>
                RequestView::PersistUnsubscribe { session_id, topic_id },
            Request::PersistRetain { topic_id, message } => RequestView::PersistRetain {
                topic_id,
                message: message@,
            },
            Request::PersistDeleteRetain { topic_id } => RequestView::PersistDeleteRetain {
                topic_id,
            },
        }
    }
}

/// How far an operation has come.
pub enum Step<P, T> {
    /// The store is asked; with its answer the operation goes on.
    Ask(Request, P),
    /// The operation is over.
    Done(Result<T, BrokerError>),
}

/// How far an operation has come; errors are given by their text.
#[verifier::ext_equal]
pub enum StepView<P, T> {
    Ask(RequestView, P),
    Done(Result<T, Seq<char>>),
}

/// An answer or result with the text of its error.
pub open spec fn answer_view<T>(r: Result<T, BrokerError>) -> Result<T, Seq<char>> {
    match r {
        Ok(v) => Ok(v),
        Err(e) => Err(e.text()),
    }
}

impl<P: View, T> View for Step<P, T> {
    type V = StepView<P::V, T>;

    open spec fn view(&self) -> StepView<P::V, T> {
        match *self {
            Step::Ask(request, pending) => StepView::Ask(request@, pending@),
            Step::Done(r) => StepView::Done(answer_view(r)),
        }
    }
}

/// Where `subscribe` waits for the store.
pub enum SubscribePending {
    /// For the key of a new topic.
    Topic { session: SessionId, topic: String, qos: u8 },
    /// For the change of a subscription.
    Update { session: SessionId, topic: String, qos: u8, subscribed: u8 },
    /// For a new subscription.
    New { session: SessionId, topic: String, qos: u8 },
}

/// Where `subscribe` waits for the store.
#[verifier::ext_equal]
pub enum SubscribePendingView {
    Topic { session: SessionIdView, topic: Seq<char>, qos: u8 },
    Update { session: SessionIdView, topic: Seq<char>, qos: u8, subscribed: u8 },
    New { session: SessionIdView, topic: Seq<char>, qos: u8 },
}

impl View for SubscribePending {
    type V = SubscribePendingView;

    open spec fn view(&self) -> SubscribePendingView {
        match *self {
            SubscribePending::Topic { session, topic, qos } => SubscribePendingView::Topic {
                session: session@,
                topic: topic@,
                qos,
            },
            SubscribePending::Update { session, topic, qos, subscribed } =>
                SubscribePendingView::Update { session: session@, topic: topic@, qos, subscribed },
            SubscribePending::New { session, topic, qos } => SubscribePendingView::New {
                session: session@,
                topic: topic@,
                qos,
            },
        }
    }
}

/// Where `retain` waits for the store.
pub enum RetainPending {
    /// For the key of a new topic.
    Topic { message: MQTTMessagePublish },
    /// For the end of the message that was retained so far.
    Cleared { message: MQTTMessagePublish, topic_id: i32, was_retained: bool },
    /// For the new message to be stored.
    Stored { message: MQTTMessagePublish, was_retained: bool },
    /// For the end of a topic that is no longer used.
    Deleted { topic: String, was_retained: bool },
}

/// Where `retain` waits for the store.
#[verifier::ext_equal]
pub enum RetainPendingView {
    Topic { message: publish::PublishView },
    Cleared { message: publish::PublishView, topic_id: i32, was_retained: bool },
    Stored { message: publish::PublishView, was_retained: bool },
    Deleted { topic: Seq<char>, was_retained: bool },
}

impl View for RetainPending {
    type V = RetainPendingView;

    open spec fn view(&self) -> RetainPendingView {
        match *self {
            RetainPending::Topic { message } => RetainPendingView::Topic { message: message@ },
            RetainPending::Cleared { message, topic_id, was_retained } =>
                RetainPendingView::Cleared { message: message@, topic_id, was_retained },
            RetainPending::Stored { message, was_retained } => RetainPendingView::Stored {
                message: message@,
                was_retained,
            },
            RetainPending::Deleted { topic, was_retained } => RetainPendingView::Deleted {
                topic: topic@,
                was_retained,
            },
        }
    }
}

/// Where `unsubscribe` waits for the store.
pub enum UnsubscribePending {
    /// For the end of the subscription.
    Stored { topic: String, topic_id: i32, to_delete: bool },
    /// For the end of a topic that is no longer used.
    Deleted { topic: String },
}

/// Where `unsubscribe` waits for the store.
#[verifier::ext_equal]
pub enum UnsubscribePendingView {
    Stored { topic: Seq<char>, topic_id: i32, to_delete: bool },
    Deleted { topic: Seq<char> },
}

impl View for UnsubscribePending {
    type V = UnsubscribePendingView;

    open spec fn view(&self) -> UnsubscribePendingView {
        match *self {
            UnsubscribePending::Stored { topic, topic_id, to_delete } =>
                UnsubscribePendingView::Stored { topic: topic@, topic_id, to_delete },
            UnsubscribePending::Deleted { topic } => UnsubscribePendingView::Deleted {
                topic: topic@,
            },
        }
    }
}

/// The tree of topics, and what the gauges of the broker show.
#[verifier::ext_equal]
pub struct SubscriptionsView {
    pub nodes: Map<topic::Path, topic::NodeView>,
    pub subscriptions: i64,
    pub retained_messages: i64,
}

/// The subscriptions and retained messages of a broker.
pub struct Subscriptions {
    topics: Topic,
    guage_subscriptions: i64,
    guage_retained_messages: i64,
}

impl View for Subscriptions {
    type V = SubscriptionsView;

    closed spec fn view(&self) -> SubscriptionsView {
        SubscriptionsView {
            nodes: self.topics@,
            subscriptions: self.guage_subscriptions,
            retained_messages: self.guage_retained_messages,
        }
    }
}

/// The levels of a topic.
pub open spec fn levels_of(topic: Seq<char>) -> topic::Path {
    text::split_on(topic, '/')
}

/// The tree with the levels above a topic.
pub open spec fn with_parents(
    nodes: Map<topic::Path, topic::NodeView>,
    path: topic::Path,
) -> Map<topic::Path, topic::NodeView> {
    topic::reached(nodes, path, path.len() - 1)
}

/// Whether a topic has no key in the store yet.
pub open spec fn needs_id(
    nodes: Map<topic::Path, topic::NodeView>,
    path: topic::Path,
) -> bool {
    !nodes.dom().contains(path) || nodes[path].internal_id is None
}

/// The tree in which a topic has a key.
pub open spec fn with_id(
    nodes: Map<topic::Path, topic::NodeView>,
    path: topic::Path,
    id: i32,
) -> Map<topic::Path, topic::NodeView> {
    let m = topic::reached(nodes, path, path.len() as int);
    m.insert(path, topic::NodeView { internal_id: Some(id), ..m[path] })
}

/// The tree with a subscription at a topic.
pub open spec fn with_client(
    nodes: Map<topic::Path, topic::NodeView>,
    path: topic::Path,
    session: SessionIdView,
    qos: u8,
) -> Map<topic::Path, topic::NodeView> {
    nodes.insert(
        path,
        topic::NodeView {
            clients: nodes[path].clients.insert(session.session, (session, qos)),
            ..nodes[path]
        },
    )
}

/// The tree with another retained message at a topic.
pub open spec fn with_message(
    nodes: Map<topic::Path, topic::NodeView>,
    path: topic::Path,
    message: Option<publish::PublishView>,
) -> Map<topic::Path, topic::NodeView> {
    nodes.insert(path, topic::NodeView { message, ..nodes[path] })
}

/// The tree in which a topic has no key.
pub open spec fn without_id(
    nodes: Map<topic::Path, topic::NodeView>,
    path: topic::Path,
) -> Map<topic::Path, topic::NodeView> {
    nodes.insert(path, topic::NodeView { internal_id: None, ..nodes[path] })
}

/// Whether a topic is there and has a key.
pub open spec fn has_id(
    nodes: Map<topic::Path, topic::NodeView>,
    path: topic::Path,
) -> bool {
    nodes.dom().contains(path) && nodes[path].internal_id is Some
}

/// Whether a topic has a key and nothing is kept at it.
pub open spec fn is_unused(
    nodes: Map<topic::Path, topic::NodeView>,
    path: topic::Path,
) -> bool {
    has_id(nodes, path) && nodes[path].clients.dom().len() == 0 && nodes[path].message is None
}

/// `subscribe` up to its first request.
pub open spec fn subscribe_start(
    v: SubscriptionsView,
    session: SessionIdView,
    topic: Seq<char>,
    qos: u8,
) -> (SubscriptionsView, StepView<SubscribePendingView, u8>) {
    let path = levels_of(topic);
    let w = SubscriptionsView { nodes: with_parents(v.nodes, path), ..v };
    if needs_id(w.nodes, path) {
        (
            w,
            StepView::Ask(
                RequestView::PersistTopic { topic },
                SubscribePendingView::Topic { session, topic, qos },
            ),
        )
    } else {
        (w, subscribe_found(w, session, topic, qos))
    }
}

/// `subscribe` once the topic has a key.
pub open spec fn subscribe_found(
    v: SubscriptionsView,
    session: SessionIdView,
    topic: Seq<char>,
    qos: u8,
) -> StepView<SubscribePendingView, u8> {
    let node = v.nodes[levels_of(topic)];
    let topic_id = node.internal_id->0;
    let session_id = session.internal_id;
    if node.clients.dom().contains(session.session) {
        let subscribed = node.clients[session.session].1;
        if subscribed != qos {
            StepView::Ask(
                RequestView::PersistUpdateSubscribe { session_id, topic_id, qos },
                SubscribePendingView::Update { session, topic, qos, subscribed },
            )
        } else {
            StepView::Done(Ok(qos))
        }
    } else {
        StepView::Ask(
            RequestView::PersistSubscribe { session_id, topic_id, qos },
            SubscribePendingView::New { session, topic, qos },
        )
    }
}

/// `subscribe` after an answer.
pub open spec fn subscribe_answered(
    v: SubscriptionsView,
    pending: SubscribePendingView,
    answer: Result<i32, Seq<char>>,
) -> (SubscriptionsView, StepView<SubscribePendingView, u8>) {
    match pending {
        SubscribePendingView::Topic { session, topic, qos } => match answer {
            Err(e) => (v, StepView::Done(Err(e))),
            Ok(id) => {
                let w = SubscriptionsView { nodes: with_id(v.nodes, levels_of(topic), id), ..v };
                (w, subscribe_found(w, session, topic, qos))
            },
        },
        SubscribePendingView::Update { session, topic, qos, subscribed } => match answer {
            Err(_) => (v, StepView::Done(Ok(subscribed))),
            Ok(_) => (
                SubscriptionsView {
                    nodes: with_client(v.nodes, levels_of(topic), session, qos),
                    ..v
                },
                StepView::Done(Ok(qos)),
            ),
        },
        SubscribePendingView::New { session, topic, qos } => match answer {
            Err(e) => (v, StepView::Done(Err(e))),
            Ok(_) => {
                let path = levels_of(topic);
                let nodes = with_client(v.nodes, path, session, qos);
                if v.nodes[path].clients.dom().contains(session.session) {
                    (SubscriptionsView { nodes, ..v }, StepView::Done(Ok(0x80)))
                } else {
                    (
                        SubscriptionsView {
                            nodes,
                            subscriptions: v.subscriptions.wrapping_add(1),
                            ..v
                        },
                        StepView::Done(Ok(qos)),
                    )
                }
            },
        },
    }
}

/// What holds of the tree while `subscribe` waits.
pub open spec fn subscribe_waits(v: SubscriptionsView, pending: SubscribePendingView) -> bool {
    match pending {
        SubscribePendingView::Topic { .. } => true,
        SubscribePendingView::Update { topic, .. } => has_id(v.nodes, levels_of(topic)),
        SubscribePendingView::New { topic, .. } => has_id(v.nodes, levels_of(topic)),
    }
}

/// `retain` up to its first request.
pub open spec fn retain_start(v: SubscriptionsView, message: publish::PublishView) -> (
    SubscriptionsView,
    StepView<RetainPendingView, ()>,
) {
    let path = levels_of(message.topic);
    let w = SubscriptionsView { nodes: with_parents(v.nodes, path), ..v };
    if needs_id(w.nodes, path) {
        (
            w,
            StepView::Ask(
                RequestView::PersistTopic { topic: message.topic },
                RetainPendingView::Topic { message },
            ),
        )
    } else {
        (w, retain_found(w, message))
    }
}

/// `retain` once the topic has a key: what was retained there goes first.
pub open spec fn retain_found(v: SubscriptionsView, message: publish::PublishView) -> StepView<
    RetainPendingView,
    (),
> {
    let node = v.nodes[levels_of(message.topic)];
    let topic_id = node.internal_id->0;
    StepView::Ask(
        RequestView::PersistDeleteRetain { topic_id },
        RetainPendingView::Cleared { message, topic_id, was_retained: node.message is Some },
    )
}

/// The gauge once a topic has no retained message any more.
pub open spec fn retained_less(v: SubscriptionsView, was_retained: bool) -> SubscriptionsView {
    if was_retained {
        SubscriptionsView { retained_messages: v.retained_messages.wrapping_sub(1), ..v }
    } else {
        v
    }
}

/// `retain` after an answer.
pub open spec fn retain_answered(
    v: SubscriptionsView,
    pending: RetainPendingView,
    answer: Result<i32, Seq<char>>,
) -> (SubscriptionsView, StepView<RetainPendingView, ()>) {
    match answer {
        Err(e) => (v, StepView::Done(Err(e))),
        Ok(id) => match pending {
            RetainPendingView::Topic { message } => {
                let w = SubscriptionsView {
                    nodes: with_id(v.nodes, levels_of(message.topic), id),
                    ..v
                };
                (w, retain_found(w, message))
            },
            RetainPendingView::Cleared { message, topic_id, was_retained } => if message.message.len()
                > 0 {
                (
                    v,
                    StepView::Ask(
                        RequestView::PersistRetain { topic_id, message },
                        RetainPendingView::Stored { message, was_retained },
                    ),
                )
            } else {
                let path = levels_of(message.topic);
                let w = SubscriptionsView { nodes: with_message(v.nodes, path, None), ..v };
                if w.nodes[path].clients.dom().len() == 0 {
                    (
                        w,
                        StepView::Ask(
                            RequestView::PersistDeleteTopic { topic_id },
                            RetainPendingView::Deleted { topic: message.topic, was_retained },
                        ),
                    )
                } else {
                    (retained_less(w, was_retained), StepView::Done(Ok(())))
                }
            },
            RetainPendingView::Stored { message, was_retained } => {
                let nodes = with_message(v.nodes, levels_of(message.topic), Some(message));
                (
                    if was_retained {
                        SubscriptionsView { nodes, ..v }
                    } else {
                        SubscriptionsView {
                            nodes,
                            retained_messages: v.retained_messages.wrapping_add(1),
                            ..v
                        }
                    },
                    StepView::Done(Ok(())),
                )
            },
            RetainPendingView::Deleted { topic, was_retained } => {
                let w = SubscriptionsView { nodes: without_id(v.nodes, levels_of(topic)), ..v };
                (retained_less(w, was_retained), StepView::Done(Ok(())))
            },
        },
    }
}

/// What holds of the tree while `retain` waits.
pub open spec fn retain_waits(v: SubscriptionsView, pending: RetainPendingView) -> bool {
    match pending {
        RetainPendingView::Topic { .. } => true,
        RetainPendingView::Cleared { message, .. } => has_id(v.nodes, levels_of(message.topic)),
        RetainPendingView::Stored { message, .. } => has_id(v.nodes, levels_of(message.topic)),
        RetainPendingView::Deleted { topic, .. } => is_unused(v.nodes, levels_of(topic)),
    }
}

/// `unsubscribe` up to its first request.
pub open spec fn unsubscribe_start(
    v: SubscriptionsView,
    session: SessionIdView,
    topic: Seq<char>,
) -> (SubscriptionsView, StepView<UnsubscribePendingView, ()>) {
    let path = levels_of(topic);
    if v.nodes.dom().contains(path) && v.nodes[path].clients.dom().contains(session.session) {
        let node = topic::NodeView {
            clients: v.nodes[path].clients.remove(session.session),
            ..v.nodes[path]
        };
        let topic_id = node.internal_id->0;
        (
            SubscriptionsView {
                nodes: v.nodes.insert(path, node),
                subscriptions: v.subscriptions.wrapping_sub(1),
                ..v
            },
            StepView::Ask(
                RequestView::PersistUnsubscribe { session_id: session.internal_id, topic_id },
                UnsubscribePendingView::Stored {
                    topic,
                    topic_id,
                    to_delete: node.message is None && node.clients.dom().len() == 0,
                },
            ),
        )
    } else {
        (v, StepView::Done(Ok(())))
    }
}

/// `unsubscribe` after an answer.
pub open spec fn unsubscribe_answered(
    v: SubscriptionsView,
    pending: UnsubscribePendingView,
    answer: Result<i32, Seq<char>>,
) -> (SubscriptionsView, StepView<UnsubscribePendingView, ()>) {
    match answer {
        Err(e) => (v, StepView::Done(Err(e))),
        Ok(_) => match pending {
            UnsubscribePendingView::Stored { topic, topic_id, to_delete } => if to_delete {
                (
                    v,
                    StepView::Ask(
                        RequestView::PersistDeleteTopic { topic_id },
                        UnsubscribePendingView::Deleted { topic },
                    ),
                )
            } else {
                (v, StepView::Done(Ok(())))
            },
            UnsubscribePendingView::Deleted { topic } => (
                SubscriptionsView { nodes: without_id(v.nodes, levels_of(topic)), ..v },
                StepView::Done(Ok(())),
            ),
        },
    }
}

/// What holds of the tree while `unsubscribe` waits.
pub open spec fn unsubscribe_waits(v: SubscriptionsView, pending: UnsubscribePendingView) -> bool {
    match pending {
        UnsubscribePendingView::Stored { topic, to_delete, .. } => to_delete ==> is_unused(
            v.nodes,
            levels_of(topic),
        ),
        UnsubscribePendingView::Deleted { topic } => is_unused(v.nodes, levels_of(topic)),
    }
}

/// New levels keep a tree valid.
pub proof fn lemma_reached_valid(
    nodes: Map<topic::Path, topic::NodeView>,
    path: topic::Path,
    n: int,
)
    requires
        topic::tree_valid(nodes),
        n <= path.len(),
    ensures
        topic::tree_valid(topic::reached(nodes, path, n)),
{
    let m = topic::reached(nodes, path, n);
    assert(m.dom().contains(seq![]));
    assert forall|q: topic::Path, k: Seq<char>| #[trigger]
        m.dom().contains(q.push(k)) implies m.dom().contains(q) by {
        if nodes.dom().contains(q.push(k)) {
            assert(nodes.dom().contains(q));
        } else {
            assert(q =~= path.take(q.len() as int)) by {
                assert(q.push(k) =~= path.take(q.len() as int + 1));
                assert(forall|i: int| 0 <= i < q.len() ==> q[i] == q.push(k)[i]);
            }
            assert(q.is_prefix_of(path));
        }
    }
    assert forall|q: topic::Path| #[trigger] m.dom().contains(q) implies topic::node_valid(
        m[q],
    ) by {
        if nodes.dom().contains(q) {
            assert(topic::node_valid(nodes[q]));
        }
    }
}

/// Changing a level to a valid one keeps a tree valid.
pub proof fn lemma_insert_valid(
    nodes: Map<topic::Path, topic::NodeView>,
    path: topic::Path,
    node: topic::NodeView,
)
    requires
        topic::tree_valid(nodes),
        nodes.dom().contains(path),
        topic::node_valid(node),
    ensures
        topic::tree_valid(nodes.insert(path, node)),
{
    let m = nodes.insert(path, node);
    assert forall|q: topic::Path, k: Seq<char>| #[trigger]
        m.dom().contains(q.push(k)) implies m.dom().contains(q) by {
        assert(nodes.dom().contains(q.push(k)));
    }
    assert forall|q: topic::Path| #[trigger] m.dom().contains(q) implies topic::node_valid(
        m[q],
    ) by {
        assert(nodes.dom().contains(q));
    }
}

/// The tree of a broker that holds together is valid.
pub proof fn lemma_valid(s: &Subscriptions)
    requires
        s.well_formed(),
    ensures
        topic::tree_valid(s@.nodes),
{
}

impl Subscriptions {
    /// The tree holds together.
    pub closed spec fn well_formed(&self) -> bool {
        self.topics.well_formed() && topic::tree_valid(self.topics@)
    }

    /// A broker that nobody has subscribed to.
    pub fn new() -> (r: Subscriptions)
        ensures
            r.well_formed(),
            r@ == (SubscriptionsView {
                nodes: map![Seq::<Seq<char>>::empty() => topic::fresh_node(None)],
                subscriptions: 0,
                retained_messages: 0,
            }),
    {
        let topics = Topic::new(None);
        proof {
            assert forall|q: topic::Path, k: Seq<char>| !(#[trigger] topics@.dom().contains(
                q.push(k),
            )) by {
                assert(q.push(k).len() > 0);
            }
        }
        Subscriptions { topics, guage_subscriptions: 0, guage_retained_messages: 0 }
    }

    /// The number of subscriptions that the gauge shows.
    pub fn subscriptions(&self) -> (r: i64)
        ensures
            r == self@.subscriptions,
    {
        self.guage_subscriptions
    }

    /// The number of retained messages that the gauge shows.
    pub fn retained_messages(&self) -> (r: i64)
        ensures
            r == self@.retained_messages,
    {
        self.guage_retained_messages
    }

    /// Makes the levels above a topic; the key of the topic, if it has one.
    fn get_topic(&mut self, levels: &Vec<String>) -> (r: Option<i32>)
        requires
            old(self).well_formed(),
            levels@.len() > 0,
        ensures
            final(self).well_formed(),
            final(self)@ == (SubscriptionsView {
                nodes: with_parents(old(self)@.nodes, text::texts(levels@)),
                ..old(self)@
            }),
            r == (if needs_id(final(self)@.nodes, text::texts(levels@)) {
                None
            } else {
                final(self)@.nodes[text::texts(levels@)].internal_id
            }),
    {
        let ghost path = text::texts(levels@);
        assert(path.skip(0) =~= path);
        self.topics.reach(levels, 0, levels.len() - 1);
        proof {
            lemma_reached_valid(old(self).topics@, path, path.len() - 1);
        }
        match self.topics.find_node(levels) {
            Some(node) => node.get_internal_id(),
            None => None,
        }
    }

    /// Gives a topic its key.
    fn set_topic_id(&mut self, levels: &Vec<String>, id: i32)
        requires
            old(self).well_formed(),
        ensures
            final(self).well_formed(),
            final(self)@ == (SubscriptionsView {
                nodes: with_id(old(self)@.nodes, text::texts(levels@), id),
                ..old(self)@
            }),
    {
        let ghost path = text::texts(levels@);
        assert(path.skip(0) =~= path);
        self.topics.reach(levels, 0, levels.len());
        let ghost middle = self.topics@;
        proof {
            lemma_reached_valid(old(self).topics@, path, path.len() as int);
            assert(path.is_prefix_of(path)) by {
                assert(path.take(path.len() as int) =~= path);
            }
            assert(topic::node_valid(middle[path]));
            lemma_insert_valid(
                middle,
                path,
                topic::NodeView { internal_id: Some(id), ..middle[path] },
            );
            topic::lemma_graft_insert(
                middle,
                path,
                topic::NodeView { internal_id: Some(id), ..middle[path] },
            );
            assert(path + seq![] =~= path);
        }
        let node = self.topics.node_mut(levels, 0);
        proof {
            topic::lemma_root(*node);
        }
        node.set_internal_id(Some(id));
    }
}

impl Subscriptions {
    /// The subscription part of `subscribe`, once the topic has a key.
    fn subscribe_at(
        &self,
        session: SessionId,
        topic: String,
        levels: &Vec<String>,
        qos: u8,
    ) -> (r: Step<SubscribePending, u8>)
        requires
            self.well_formed(),
            text::texts(levels@) == levels_of(topic@),
            has_id(self@.nodes, levels_of(topic@)),
        ensures
            r@ == subscribe_found(self@, session@, topic@, qos),
            r@ matches StepView::Ask(_, p) ==> subscribe_waits(self@, p),
    {
        match self.topics.find_node(levels) {
            Some(node) => match node.get_internal_id() {
                Some(topic_id) => {
                    let session_id = session.internal_id;
                    match node.get_subscribed(&session) {
                        Some(subscribed) => {
                            if subscribed != qos {
                                Step::Ask(
                                    Request::PersistUpdateSubscribe { session_id, topic_id, qos },
                                    SubscribePending::Update { session, topic, qos, subscribed },
                                )
                            } else {
                                Step::Done(Ok(qos))
                            }
                        },
                        None => Step::Ask(
                            Request::PersistSubscribe { session_id, topic_id, qos },
                            SubscribePending::New { session, topic, qos },
                        ),
                    }
                },
                None => Step::Done(Ok(qos)),
            },
            None => Step::Done(Ok(qos)),
        }
    }

    /// Subscribes a session to a topic.
    pub fn subscribe(&mut self, session: SessionId, topic: &str, qos: u8) -> (r: Step<
        SubscribePending,
        u8,
    >)
        requires
            old(self).well_formed(),
        ensures
            final(self).well_formed(),
            (final(self)@, r@) == subscribe_start(old(self)@, session@, topic@, qos),
            r@ matches StepView::Ask(_, p) ==> subscribe_waits(final(self)@, p),
    {
        let levels = split(topic, '/');
        let id = self.get_topic(&levels);
        let topic = topic.to_owned();
        match id {
            None => Step::Ask(
                Request::PersistTopic { topic: topic.clone() },
                SubscribePending::Topic { session, topic, qos },
            ),
            Some(_) => self.subscribe_at(session, topic, &levels, qos),
        }
    }

    /// Stores the subscription of a session; `true` if it is a new one.
    fn set_client(&mut self, session: SessionId, levels: &Vec<String>, qos: u8) -> (r: bool)
        requires
            old(self).well_formed(),
            has_id(old(self)@.nodes, text::texts(levels@)),
        ensures
            final(self).well_formed(),
            final(self)@ == (SubscriptionsView {
                nodes: with_client(old(self)@.nodes, text::texts(levels@), session@, qos),
                ..old(self)@
            }),
            r == !old(self)@.nodes[text::texts(levels@)].clients.dom().contains(session.session@),
    {
        let ghost path = text::texts(levels@);
        let ghost nodes = self.topics@;
        proof {
            assert(path.skip(0) =~= path);
            assert(path + seq![] =~= path);
            assert(topic::node_valid(nodes[path]));
            let node = topic::NodeView {
                clients: nodes[path].clients.insert(session.session@, (session@, qos)),
                ..nodes[path]
            };
            assert forall|k: Seq<char>| node.clients.dom().contains(k) implies (
            #[trigger] node.clients[k]).0.session == k by {
                if k != session.session@ {
                    assert(nodes[path].clients[k].0.session == k);
                }
            }
            lemma_insert_valid(nodes, path, node);
            topic::lemma_graft_insert(nodes, path, node);
        }
        let node = self.topics.node_mut(levels, 0);
        proof {
            topic::lemma_root(*node);
        }
        node.set_subscribed(session, qos)
    }

    /// Goes on with `subscribe` when the store has answered. The answer to a request for a
    /// topic is its key; of other answers only the errors count.
    pub fn subscribe_answer(
        &mut self,
        pending: SubscribePending,
        answer: Result<i32, BrokerError>,
    ) -> (r: Step<SubscribePending, u8>)
        requires
            old(self).well_formed(),
            subscribe_waits(old(self)@, pending@),
        ensures
            final(self).well_formed(),
            (final(self)@, r@) == subscribe_answered(old(self)@, pending@, answer_view(answer)),
            r@ matches StepView::Ask(_, p) ==> subscribe_waits(final(self)@, p),
    {
        match pending {
            SubscribePending::Topic { session, topic, qos } => match answer {
                Err(e) => Step::Done(Err(e)),
                Ok(id) => {
                    let levels = split(&topic, '/');
                    self.set_topic_id(&levels, id);
                    self.subscribe_at(session, topic, &levels, qos)
                },
            },
            SubscribePending::Update { session, topic, qos, subscribed } => match answer {
                Err(_) => Step::Done(Ok(subscribed)),
                Ok(_) => {
                    let levels = split(&topic, '/');
                    let _new = self.set_client(session, &levels, qos);
                    Step::Done(Ok(qos))
                },
            },
            SubscribePending::New { session, topic, qos } => match answer {
                Err(e) => Step::Done(Err(e)),
                Ok(_) => {
                    let levels = split(&topic, '/');
                    if self.set_client(session, &levels, qos) {
                        self.guage_subscriptions = self.guage_subscriptions.wrapping_add(1);
                        Step::Done(Ok(qos))
                    } else {
                        Step::Done(Ok(0x80))
                    }
                },
            },
        }
    }

    /// The request that starts to retain a message at a topic that has a key.
    fn retain_at(&self, message: MQTTMessagePublish, levels: &Vec<String>) -> (r: Step<
        RetainPending,
        (),
    >)
        requires
            self.well_formed(),
            text::texts(levels@) == levels_of(message@.topic),
            has_id(self@.nodes, levels_of(message@.topic)),
        ensures
            r@ == retain_found(self@, message@),
            r@ matches StepView::Ask(_, p) ==> retain_waits(self@, p),
    {
        match self.topics.find_node(levels) {
            Some(node) => match node.get_internal_id() {
                Some(topic_id) => {
                    let was_retained = node.get_message().is_some();
                    Step::Ask(
                        Request::PersistDeleteRetain { topic_id },
                        RetainPending::Cleared { message, topic_id, was_retained },
                    )
                },
                None => Step::Done(Ok(())),
            },
            None => Step::Done(Ok(())),
        }
    }

    /// Retains a message at its topic, or drops the one retained there if it is empty.
    pub fn retain(&mut self, msg: MQTTMessagePublish) -> (r: Step<RetainPending, ()>)
        requires
            old(self).well_formed(),
        ensures
            final(self).well_formed(),
            (final(self)@, r@) == retain_start(old(self)@, msg@),
            r@ matches StepView::Ask(_, p) ==> retain_waits(final(self)@, p),
    {
        let topic = msg.get_topic().clone();
        let levels = split(&topic, '/');
        match self.get_topic(&levels) {
            None => Step::Ask(
                Request::PersistTopic { topic },
                RetainPending::Topic { message: msg },
            ),
            Some(_) => self.retain_at(msg, &levels),
        }
    }

    /// Sets or drops the message retained at a topic.
    fn set_message(&mut self, levels: &Vec<String>, message: Option<MQTTMessagePublish>)
        requires
            old(self).well_formed(),
            has_id(old(self)@.nodes, text::texts(levels@)),
        ensures
            final(self).well_formed(),
            final(self)@ == (SubscriptionsView {
                nodes: with_message(
                    old(self)@.nodes,
                    text::texts(levels@),
                    topic::message_view(message),
                ),
                ..old(self)@
            }),
    {
        let ghost path = text::texts(levels@);
        let ghost nodes = self.topics@;
        proof {
            assert(path.skip(0) =~= path);
            assert(path + seq![] =~= path);
            assert(topic::node_valid(nodes[path]));
            let node = topic::NodeView {
                message: topic::message_view(message),
                ..nodes[path]
            };
            lemma_insert_valid(nodes, path, node);
            topic::lemma_graft_insert(nodes, path, node);
        }
        let node = self.topics.node_mut(levels, 0);
        proof {
            topic::lemma_root(*node);
        }
        node.set_message(message);
    }

    /// Takes the key from a topic that is no longer used.
    fn clear_topic_id(&mut self, levels: &Vec<String>)
        requires
            old(self).well_formed(),
            is_unused(old(self)@.nodes, text::texts(levels@)),
        ensures
            final(self).well_formed(),
            final(self)@ == (SubscriptionsView {
                nodes: without_id(old(self)@.nodes, text::texts(levels@)),
                ..old(self)@
            }),
    {
        let ghost path = text::texts(levels@);
        let ghost nodes = self.topics@;
        proof {
            assert(path.skip(0) =~= path);
            assert(path + seq![] =~= path);
            assert(topic::node_valid(nodes[path]));
            let node = topic::NodeView { internal_id: None, ..nodes[path] };
            lemma_insert_valid(nodes, path, node);
            topic::lemma_graft_insert(nodes, path, node);
        }
        let node = self.topics.node_mut(levels, 0);
        proof {
            topic::lemma_root(*node);
        }
        node.set_internal_id(None);
    }

    /// Counts a message that is no longer retained.
    fn count_retained_less(&mut self, was_retained: bool)
        requires
            old(self).well_formed(),
        ensures
            final(self).well_formed(),
            final(self)@ == retained_less(old(self)@, was_retained),
    {
        if was_retained {
            self.guage_retained_messages = self.guage_retained_messages.wrapping_sub(1);
        }
    }

    /// Goes on with `retain` when the store has answered. The answer to a request for a
    /// topic is its key; of other answers only the errors count.
    pub fn retain_answer(
        &mut self,
        pending: RetainPending,
        answer: Result<i32, BrokerError>,
    ) -> (r: Step<RetainPending, ()>)
        requires
            old(self).well_formed(),
            retain_waits(old(self)@, pending@),
        ensures
            final(self).well_formed(),
            (final(self)@, r@) == retain_answered(old(self)@, pending@, answer_view(answer)),
            r@ matches StepView::Ask(_, p) ==> retain_waits(final(self)@, p),
    {
        let id = match answer {
            Err(e) => {
                return Step::Done(Err(e));
            },
            Ok(id) => id,
        };
        match pending {
            RetainPending::Topic { message } => {
                let levels = split(message.get_topic(), '/');
                self.set_topic_id(&levels, id);
                self.retain_at(message, &levels)
            },
            RetainPending::Cleared { message, topic_id, was_retained } => {
                if message.get_message().len() > 0 {
                    return Step::Ask(
                        Request::PersistRetain { topic_id, message: message.clone() },
                        RetainPending::Stored { message, was_retained },
                    );
                }
                let topic = message.get_topic().clone();
                let levels = split(&topic, '/');
                self.set_message(&levels, None);
                let unused = match self.topics.find_node(&levels) {
                    Some(node) => node.get_num_subscribed() == 0,
                    None => false,
                };
                if unused {
                    Step::Ask(
                        Request::PersistDeleteTopic { topic_id },
                        RetainPending::Deleted { topic, was_retained },
                    )
                } else {
                    self.count_retained_less(was_retained);
                    Step::Done(Ok(()))
                }
            },
            RetainPending::Stored { message, was_retained } => {
                let levels = split(message.get_topic(), '/');
                self.set_message(&levels, Some(message));
                if !was_retained {
                    self.guage_retained_messages = self.guage_retained_messages.wrapping_add(1);
                }
                Step::Done(Ok(()))
            },
            RetainPending::Deleted { topic, was_retained } => {
                let levels = split(&topic, '/');
                self.clear_topic_id(&levels);
                self.count_retained_less(was_retained);
                Step::Done(Ok(()))
            },
        }
    }

    /// The messages retained at exactly the given topic: one or none.
    pub fn get_retained_messages(&self, topic: String) -> (r: Vec<MQTTMessagePublish>)
        requires
            self.well_formed(),
        ensures
            r@.map_values(|m: MQTTMessagePublish| m@) == retained_at(self@.nodes, topic@),
    {
        let levels = split(&topic, '/');
        let mut messages: Vec<MQTTMessagePublish> = Vec::new();
        match self.topics.find_node(&levels) {
            Some(node) => match node.get_message() {
                Some(m) => {
                    messages.push(m.clone());
                },
                None => {},
            },
            None => {},
        }
        assert(messages@.map_values(|m: MQTTMessagePublish| m@) =~= retained_at(
            self@.nodes,
            topic@,
        ));
        messages
    }

    /// Ends the subscription of a session to a topic.
    pub fn unsubscribe(&mut self, session: &SessionId, topic: &str) -> (r: Step<
        UnsubscribePending,
        (),
    >)
        requires
            old(self).well_formed(),
        ensures
            final(self).well_formed(),
            (final(self)@, r@) == unsubscribe_start(old(self)@, session@, topic@),
            r@ matches StepView::Ask(_, p) ==> unsubscribe_waits(final(self)@, p),
    {
        let levels = split(topic, '/');
        let ghost path = text::texts(levels@);
        let ghost nodes = self.topics@;
        let (subscribed, id) = match self.topics.find_node(&levels) {
            Some(node) => (node.get_subscribed(session).is_some(), node.get_internal_id()),
            None => (false, None),
        };
        if !subscribed {
            return Step::Done(Ok(()));
        }
        let ghost after = topic::NodeView {
            clients: nodes[path].clients.remove(session.session@),
            ..nodes[path]
        };
        proof {
            assert(path.skip(0) =~= path);
            assert(path + seq![] =~= path);
            assert(topic::node_valid(nodes[path]));
            assert(nodes[path].clients.dom().len() > 0) by {
                if nodes[path].clients.dom().len() == 0 {
                    assert(nodes[path].clients.dom() =~= Set::empty());
                }
            }
            assert forall|k: Seq<char>| after.clients.dom().contains(k) implies (
            #[trigger] after.clients[k]).0.session == k by {
                assert(nodes[path].clients[k].0.session == k);
            }
            assert(topic::node_valid(after));
            lemma_insert_valid(nodes, path, after);
            topic::lemma_graft_insert(nodes, path, after);
        }
        let (to_delete, _was) = {
            let node = self.topics.node_mut(&levels, 0);
            proof {
                topic::lemma_root(*node);
            }
            let was = node.set_unsubscribed(&session.session);
            (node.get_message().is_none() && node.get_num_subscribed() == 0, was)
        };
        self.guage_subscriptions = self.guage_subscriptions.wrapping_sub(1);
        match id {
            Some(topic_id) => Step::Ask(
                Request::PersistUnsubscribe { session_id: session.internal_id, topic_id },
                UnsubscribePending::Stored { topic: topic.to_owned(), topic_id, to_delete },
            ),
            None => Step::Done(Ok(())),
        }
    }

    /// Goes on with `unsubscribe` when the store has answered; only errors count.
    pub fn unsubscribe_answer(
        &mut self,
        pending: UnsubscribePending,
        answer: Result<i32, BrokerError>,
    ) -> (r: Step<UnsubscribePending, ()>)
        requires
            old(self).well_formed(),
            unsubscribe_waits(old(self)@, pending@),
        ensures
            final(self).well_formed(),
            (final(self)@, r@) == unsubscribe_answered(old(self)@, pending@, answer_view(answer)),
            r@ matches StepView::Ask(_, p) ==> unsubscribe_waits(final(self)@, p),
    {
        match answer {
            Err(e) => {
                return Step::Done(Err(e));
            },
            Ok(_) => {},
        }
        match pending {
            UnsubscribePending::Stored { topic, topic_id, to_delete } => {
                if to_delete {
                    Step::Ask(
                        Request::PersistDeleteTopic { topic_id },
                        UnsubscribePending::Deleted { topic },
                    )
                } else {
                    Step::Done(Ok(()))
                }
            },
            UnsubscribePending::Deleted { topic } => {
                let levels = split(&topic, '/');
                self.clear_topic_id(&levels);
                Step::Done(Ok(()))
            },
        }
    }

    /// Who gets a message that is published to a topic.
    pub fn get_subscribed(&self, topic: &str) -> (r: Subscribers)
        requires
            self.well_formed(),
        ensures
            r.well_formed(),
            r@ == topic::topic_subscribers(self@.nodes, levels_of(topic@)),
    {
        let levels = split(topic, '/');
        self.topics.find_subscribed(&levels)
    }
}

/// The messages retained at exactly the given topic.
pub open spec fn retained_at(
    nodes: Map<topic::Path, topic::NodeView>,
    topic: Seq<char>,
) -> Seq<publish::PublishView> {
    let path = levels_of(topic);
    if nodes.dom().contains(path) {
        match nodes[path].message {
            Some(m) => seq![m],
            None => seq![],
        }
    } else {
        seq![]
    }
}

/// The tree with a topic and what is kept at it.
pub open spec fn with_topic(
    v: SubscriptionsView,
    name: Seq<char>,
    node: topic::NodeView,
) -> SubscriptionsView {
    let path = levels_of(name);
    SubscriptionsView {
        nodes: topic::reached(v.nodes, path, path.len() as int).insert(path, node),
        ..v
    }
}

impl Subscriptions {
    /// Puts a topic into the tree. What is below it already is kept.
    pub(crate) fn insert_topic(&mut self, name: &str, topic_item: Topic)
        requires
            old(self).well_formed(),
            topic_item.well_formed(),
            topic_item.node().internal_id is Some,
        ensures
            final(self).well_formed(),
            final(self)@ == with_topic(old(self)@, name@, topic_item.node()),
    {
        let levels = split(name, '/');
        let ghost path = text::texts(levels@);
        assert(path.skip(0) =~= path);
        self.topics.reach(&levels, 0, levels.len());
        let ghost middle = self.topics@;
        proof {
            lemma_reached_valid(old(self).topics@, path, path.len() as int);
            assert(path.is_prefix_of(path)) by {
                assert(path.take(path.len() as int) =~= path);
            }
            topic::lemma_tree(topic_item);
            topic::lemma_root(topic_item);
            assert(topic::node_valid(topic_item.node()));
            lemma_insert_valid(middle, path, topic_item.node());
            topic::lemma_graft_insert(middle, path, topic_item.node());
        }
        let node = self.topics.node_mut(&levels, 0);
        node.take_node(topic_item);
    }

    /// Sets what the gauges show.
    pub(crate) fn set_guages(&mut self, subscriptions: i64, retained_messages: i64)
        requires
            old(self).well_formed(),
        ensures
            final(self).well_formed(),
            final(self)@ == (SubscriptionsView {
                subscriptions,
                retained_messages,
                ..old(self)@
            }),
    {
        self.guage_subscriptions = subscriptions;
        self.guage_retained_messages = retained_messages;
    }
}

} // verus!
