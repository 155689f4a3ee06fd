//! What the operations on subscriptions ask of the persistent store, and what they answer.

use super::matching;
use super::persist;
use super::persist::LoadRequest;
use super::persist::LoaderView;
use super::router;
use super::router::SessionId;
use super::router::SessionIdView;
use super::topic;
use super::topics;
use super::topics::RequestView;
use super::topics::RetainPendingView;
use super::topics::StepView;
use super::topics::SubscribePendingView;
use super::topics::SubscriptionsView;
use super::topics::UnsubscribePendingView;
use crate::messages::publish;
use crate::text;
use vstd::prelude::*;

verus! {

/// The levels of a topic are what stands between its slashes.
pub proof fn law_levels(topic: Seq<char>)
    ensures
        topics::levels_of(topic).len() >= 1,
        text::join_with(topics::levels_of(topic), '/') == topic,
        forall|i: int|
            0 <= i < topics::levels_of(topic).len() ==> !(#[trigger] topics::levels_of(
                topic,
            )[i]).contains('/'),
{
    text::law_split_join(topic, '/');
}

/// The key of a topic in the store, if it has one.
pub open spec fn key_at(m: Map<topic::Path, topic::NodeView>, path: topic::Path) -> Option<i32> {
    if m.dom().contains(path) {
        m[path].internal_id
    } else {
        None
    }
}

/// What `subscribe` asks of the store, where it grants everything and gives a new topic
/// the key `id`.
pub open spec fn subscribe_asks(
    step: (SubscriptionsView, StepView<SubscribePendingView, u8>),
    id: i32,
    steps: nat,
) -> Seq<RequestView>
    decreases steps,
{
    match step.1 {
        StepView::Done(_) => seq![],
        StepView::Ask(request, p) => if steps == 0 {
            seq![request]
        } else {
            seq![request] + subscribe_asks(
                topics::subscribe_answered(step.0, p, Ok(id)),
                id,
                (steps - 1) as nat,
            )
        },
    }
}

/// A subscription is stored under the keys of its session and its topic, with the quality
/// of service that is asked for: as a new one where the session had none at the topic, as
/// a change where it had another quality of service, and not at all where it had this
/// one. A topic that the store does not know yet is stored first, under its name, and has
/// the key that it is given.
pub proof fn law_subscribe_requests(
    v: SubscriptionsView,
    session: SessionIdView,
    topic: Seq<char>,
    qos: u8,
    id: i32,
)
    requires
        topic::tree_valid(v.nodes),
    ensures
        ({
            let path = topics::levels_of(topic);
            let key = match key_at(v.nodes, path) {
                Some(known) => known,
                None => id,
            };
            let first = if key_at(v.nodes, path) is Some {
                seq![]
            } else {
                seq![RequestView::PersistTopic { topic }]
            };
            let known = matching::clients_at(v.nodes, path);
            let session_id = session.internal_id;
            let second = if !known.dom().contains(session.session) {
                seq![RequestView::PersistSubscribe { session_id, topic_id: key, qos }]
            } else if known[session.session].1 != qos {
                seq![RequestView::PersistUpdateSubscribe { session_id, topic_id: key, qos }]
            } else {
                seq![]
            };
            let w = matching::subscribe_granted(v, session, topic, qos, id).0;
            &&& subscribe_asks(topics::subscribe_start(v, session, topic, qos), id, 2) == first
                + second
            &&& key_at(w.nodes, path) == Some(key)
            &&& forall|f: topic::Path|
                f != path ==> #[trigger] key_at(w.nodes, f) == key_at(v.nodes, f)
        }),
{
    reveal_with_fuel(subscribe_asks, 3);
    let path = topics::levels_of(topic);
    text::law_split_join(topic, '/');
    let start = topics::subscribe_start(v, session, topic, qos);
    assert(path.take(path.len() as int) =~= path);
    assert(path.is_prefix_of(path));
    assert(v.nodes.dom().contains(path) <==> start.0.nodes.dom().contains(path));
    assert(matching::clients_at(start.0.nodes, path) == matching::clients_at(v.nodes, path));
    assert(key_at(start.0.nodes, path) == key_at(v.nodes, path));
    let key = match key_at(v.nodes, path) {
        Some(known) => known,
        None => id,
    };
    let first = if key_at(v.nodes, path) is Some {
        seq![]
    } else {
        seq![RequestView::PersistTopic { topic }]
    };
    let known = matching::clients_at(v.nodes, path);
    let session_id = session.internal_id;
    let second = if !known.dom().contains(session.session) {
        seq![RequestView::PersistSubscribe { session_id, topic_id: key, qos }]
    } else if known[session.session].1 != qos {
        seq![RequestView::PersistUpdateSubscribe { session_id, topic_id: key, qos }]
    } else {
        seq![]
    };
    assert(subscribe_asks(start, id, 2) =~= first + second);
}

/// What a refused request of `subscribe` comes to: the fault of the store, but for a
/// change, where the session keeps the quality of service that it had.
pub proof fn law_subscribe_refused(
    v: SubscriptionsView,
    pending: SubscribePendingView,
    fault: Seq<char>,
)
    ensures
        topics::subscribe_answered(v, pending, Err(fault)) == (
            v,
            match pending {
                SubscribePendingView::Update { subscribed, .. } => StepView::<
                    SubscribePendingView,
                    u8,
                >::Done(Ok(subscribed)),
                _ => StepView::Done(Err(fault)),
            },
        ),
{
}

/// What `unsubscribe` asks of the store, where it grants everything.
pub open spec fn unsubscribe_asks(
    step: (SubscriptionsView, StepView<UnsubscribePendingView, ()>),
    steps: nat,
) -> Seq<RequestView>
    decreases steps,
{
    match step.1 {
        StepView::Done(_) => seq![],
        StepView::Ask(request, p) => if steps == 0 {
            seq![request]
        } else {
            seq![request] + unsubscribe_asks(
                topics::unsubscribe_answered(step.0, p, Ok(0)),
                (steps - 1) as nat,
            )
        },
    }
}

/// The end of a subscription is stored under the keys of its session and its topic; a topic
/// at which nothing is left is then ended too, and loses its key. Where there was no
/// subscription nothing is asked and nothing changes.
pub proof fn law_unsubscribe_requests(
    v: SubscriptionsView,
    session: SessionIdView,
    topic: Seq<char>,
)
    requires
        topic::tree_valid(v.nodes),
        matching::clients_at(v.nodes, topics::levels_of(topic)).dom().finite(),
    ensures
        ({
            let path = topics::levels_of(topic);
            let known = matching::clients_at(v.nodes, path);
            let asks = unsubscribe_asks(topics::unsubscribe_start(v, session, topic), 2);
            let w = matching::unsubscribe_granted(v, session, topic).0;
            if known.dom().contains(session.session) {
                let alone = known.dom() == set![session.session];
                let last = alone && matching::message_at(v.nodes, path) is None;
                key_at(v.nodes, path) matches Some(topic_id) && {
                    &&& asks == seq![
                        RequestView::PersistUnsubscribe {
                            session_id: session.internal_id,
                            topic_id,
                        },
                    ] + if last {
                        seq![RequestView::PersistDeleteTopic { topic_id }]
                    } else {
                        seq![]
                    }
                    &&& key_at(w.nodes, path) == if last {
                        None
                    } else {
                        Some(topic_id)
                    }
                }
            } else {
                asks.len() == 0 && w == v
            }
        }),
{
    reveal_with_fuel(unsubscribe_asks, 3);
    let path = topics::levels_of(topic);
    let known = matching::clients_at(v.nodes, path);
    if known.dom().contains(session.session) {
        assert(topic::node_valid(v.nodes[path]));
        let rest = known.remove(session.session).dom();
        assert(rest =~= known.dom().remove(session.session));
        if known.dom().len() == 0 {
            assert(known.dom() =~= Set::empty());
        }
        if rest.len() == 0 {
            assert(rest =~= Set::empty());
            assert(known.dom() =~= set![session.session]) by {
                assert forall|k: Seq<char>| known.dom().contains(k) implies k
                    == session.session by {
                    if k != session.session {
                        assert(rest.contains(k));
                    }
                }
            }
        }
        if known.dom() == set![session.session] {
            assert(rest =~= Set::empty());
        }
        let topic_id = key_at(v.nodes, path)->0;
        let one = RequestView::PersistUnsubscribe { session_id: session.internal_id, topic_id };
        let last = known.dom() == set![session.session] && matching::message_at(
            v.nodes,
            path,
        ) is None;
        assert(unsubscribe_asks(topics::unsubscribe_start(v, session, topic), 2) =~= seq![one]
            + if last {
            seq![RequestView::PersistDeleteTopic { topic_id }]
        } else {
            seq![]
        });
    }
}

/// A refused request ends `unsubscribe` and `retain` with the fault of the store, and leaves
/// the tree as it is at that point.
pub proof fn law_refused(
    v: SubscriptionsView,
    unsubscribe: UnsubscribePendingView,
    retain: RetainPendingView,
    fault: Seq<char>,
)
    ensures
        topics::unsubscribe_answered(v, unsubscribe, Err(fault)) == (
            v,
            StepView::<UnsubscribePendingView, ()>::Done(Err(fault)),
        ),
        topics::retain_answered(v, retain, Err(fault)) == (
            v,
            StepView::<RetainPendingView, ()>::Done(Err(fault)),
        ),
{
}

/// What `retain` asks of the store, where it grants everything and gives a new topic the
/// key `id`.
pub open spec fn retain_asks(
    step: (SubscriptionsView, StepView<RetainPendingView, ()>),
    id: i32,
    steps: nat,
) -> Seq<RequestView>
    decreases steps,
{
    match step.1 {
        StepView::Done(_) => seq![],
        StepView::Ask(request, p) => if steps == 0 {
            seq![request]
        } else {
            seq![request] + retain_asks(
                topics::retain_answered(step.0, p, Ok(id)),
                id,
                (steps - 1) as nat,
            )
        },
    }
}

/// Whatever is retained at the topic is ended first, under the key of the topic; then a
/// message with contents is stored under that key as it is, and for an empty one the
/// topic is ended if nobody is subscribed to it. A topic that the store does not know yet
/// is stored before all that, under its name.
pub proof fn law_retain_requests(v: SubscriptionsView, message: publish::PublishView, id: i32)
    requires
        topic::tree_valid(v.nodes),
        matching::clients_at(v.nodes, topics::levels_of(message.topic)).dom().finite(),
    ensures
        ({
            let path = topics::levels_of(message.topic);
            let key = match key_at(v.nodes, path) {
                Some(known) => known,
                None => id,
            };
            let nobody = matching::clients_at(v.nodes, path) == Map::<
                Seq<char>,
                (SessionIdView, u8),
            >::empty();
            let first = if key_at(v.nodes, path) is Some {
                seq![]
            } else {
                seq![RequestView::PersistTopic { topic: message.topic }]
            };
            let last = if message.message.len() > 0 {
                seq![RequestView::PersistRetain { topic_id: key, message }]
            } else if nobody {
                seq![RequestView::PersistDeleteTopic { topic_id: key }]
            } else {
                seq![]
            };
            let w = matching::retain_granted(topics::retain_start(v, message), id, 4).0;
            &&& retain_asks(topics::retain_start(v, message), id, 4) == first + seq![
                RequestView::PersistDeleteRetain { topic_id: key },
            ] + last
            &&& key_at(w.nodes, path) == if message.message.len() == 0 && nobody {
                None
            } else {
                Some(key)
            }
        }),
{
    reveal_with_fuel(retain_asks, 5);
    reveal_with_fuel(matching::retain_granted, 5);
    let path = topics::levels_of(message.topic);
    text::law_split_join(message.topic, '/');
    let start = topics::retain_start(v, message);
    assert(path.take(path.len() as int) =~= path);
    assert(path.is_prefix_of(path));
    assert(v.nodes.dom().contains(path) <==> start.0.nodes.dom().contains(path));
    assert(matching::clients_at(start.0.nodes, path) == matching::clients_at(v.nodes, path));
    assert(key_at(start.0.nodes, path) == key_at(v.nodes, path));
    let known = matching::clients_at(v.nodes, path);
    let empty = Map::<Seq<char>, (SessionIdView, u8)>::empty();
    assert((known.dom().len() == 0) == (known == empty)) by {
        if known.dom().len() == 0 {
            assert(known.dom() =~= Set::empty());
            assert(known =~= empty);
        }
    }
    let key = match key_at(v.nodes, path) {
        Some(known) => known,
        None => id,
    };
    let first = if key_at(v.nodes, path) is Some {
        seq![]
    } else {
        seq![RequestView::PersistTopic { topic: message.topic }]
    };
    let last = if message.message.len() > 0 {
        seq![RequestView::PersistRetain { topic_id: key, message }]
    } else if known == empty {
        seq![RequestView::PersistDeleteTopic { topic_id: key }]
    } else {
        seq![]
    };
    assert(retain_asks(start, id, 4) =~= first + seq![
        RequestView::PersistDeleteRetain { topic_id: key },
    ] + last);
}

/// A message is forwarded as it is, but not as a retained one and with at most the quality
/// of service of the subscription.
pub proof fn law_forwarded(m: publish::PublishView, qos: u8)
    ensures
        ({
            let f = router::forwarded(m, qos);
            &&& f.topic == m.topic
            &&& f.message == m.message
            &&& f.identifier == m.identifier
            &&& f.dup == m.dup
            &&& !f.retain
            &&& f.qos <= qos && f.qos <= m.qos
            &&& f.qos == qos || f.qos == m.qos
        }),
{
}

proof fn lemma_last_counts(m: Map<topic::Path, topic::NodeView>, list: Seq<topic::Path>, s: SessionIdView)
    requires
        list.len() > 0,
        matching::has_subscription(m, list.last(), s),
    ensures
        topic::subscribed_at(m, list).dom().contains(s),
        topic::subscribed_at(m, list)[s] == m[list.last()].clients[s.session].1,
{
}

proof fn lemma_exact_is_last(
    m: Map<topic::Path, topic::NodeView>,
    frontier: Seq<topic::Path>,
    path: topic::Path,
    n: int,
)
    requires
        0 <= n <= path.len(),
        frontier.len() > 0,
        frontier.last() == path.take(n),
        forall|k: int| 0 <= k <= path.len() ==> m.dom().contains(#[trigger] path.take(k)),
    ensures
        topic::matching_levels(m, frontier, path.skip(n)).len() > 0,
        topic::matching_levels(m, frontier, path.skip(n)).last() == path,
    decreases path.len() - n,
{
    let rest = path.skip(n);
    if n == path.len() {
        assert(path.take(n) =~= path);
    } else {
        assert(rest[0] == path[n]);
        assert(rest.skip(1) =~= path.skip(n + 1));
        assert(path.take(n).push(path[n]) =~= path.take(n + 1));
        let next = topic::next_levels(m, frontier, path[n]);
        assert(m.dom().contains(path.take(n + 1)));
        assert(next.last() == path.take(n + 1));
        lemma_exact_is_last(m, next, path, n + 1);
    }
}

/// A session that is subscribed to a topic itself gets its messages with the quality of
/// service of that subscription, whatever filters with wildcards it has besides.
pub proof fn law_exact_filter_counts(
    m: Map<topic::Path, topic::NodeView>,
    levels: topic::Path,
    s: SessionIdView,
)
    requires
        topic::tree_valid(m),
        matching::has_subscription(m, levels, s),
    ensures
        topic::topic_subscribers(m, levels).dom().contains(s),
        topic::topic_subscribers(m, levels)[s] == m[levels].clients[s.session].1,
{
    let root: topic::Path = seq![];
    let start: Seq<topic::Path> = seq![root];
    assert forall|k: int| 0 <= k <= levels.len() implies m.dom().contains(
        #[trigger] levels.take(k),
    ) by {
        matching::lemma_prefix_in_tree(m, levels, k);
    }
    assert(start.last() == root);
    assert(levels.take(0) =~= root);
    assert(levels.skip(0) =~= levels);
    lemma_exact_is_last(m, start, levels, 0);
    lemma_last_counts(m, topic::matching_levels(m, start, levels), s);
}

/// For each stored topic in turn its retained message is asked for, if it has one, and then
/// its subscriptions, each under its own key; when no topic is left all is done.
pub proof fn law_load_requests(l: LoaderView)
    ensures
        match l.wants() {
            LoadRequest::Message { message_id } => l.topics.len() > 0
                && l.topics[0].retained_message_id == Some(message_id) && l.message is None,
            LoadRequest::Subscriptions { topic_id } => l.topics.len() > 0 && topic_id
                == l.topics[0].topic_id && (l.topics[0].retained_message_id is None
                || l.message is Some),
            LoadRequest::Finished => l.topics.len() == 0,
        },
{
}

/// Of the stored subscriptions to a topic each counts under the name of its session, with
/// the session and the quality of service as stored; of two under one name the later one.
pub proof fn law_stored_subscriptions(list: Seq<(SessionId, u8)>, i: int)
    requires
        0 <= i < list.len(),
        forall|j: int| i < j < list.len() ==> (#[trigger] list[j]).0@.session
            != list[i].0@.session,
    ensures
        ({
            let clients = persist::stored_clients(list);
            &&& clients.dom().contains(list[i].0@.session)
            &&& clients[list[i].0@.session] == (list[i].0@, list[i].1)
        }),
    decreases list.len(),
{
    let rest = list.drop_last();
    if i < list.len() - 1 {
        assert(rest[i] == list[i]);
        assert forall|j: int| i < j < rest.len() implies (#[trigger] rest[j]).0@.session
            != rest[i].0@.session by {
            assert(rest[j] == list[j]);
        }
        law_stored_subscriptions(rest, i);
        assert(list[list.len() - 1].0@.session != list[i].0@.session);
    }
}

/// Whoever counts as subscribed to a stored topic is in the list.
pub proof fn law_stored_subscribers(list: Seq<(SessionId, u8)>, name: Seq<char>)
    ensures
        persist::stored_clients(list).dom().contains(name) <==> exists|i: int|
            0 <= i < list.len() && (#[trigger] list[i]).0@.session == name,
    decreases list.len(),
{
    if list.len() > 0 {
        let rest = list.drop_last();
        law_stored_subscribers(rest, name);
        if exists|i: int| 0 <= i < rest.len() && (#[trigger] rest[i]).0@.session == name {
            let i = choose|i: int| 0 <= i < rest.len() && (#[trigger] rest[i]).0@.session == name;
            assert(list[i].0@.session == name);
        }
        assert(list[list.len() - 1] == list.last());
        if exists|i: int| 0 <= i < list.len() && (#[trigger] list[i]).0@.session == name {
            let i = choose|i: int| 0 <= i < list.len() && (#[trigger] list[i]).0@.session == name;
            if i < rest.len() {
                assert(rest[i].0@.session == name);
            }
        }
    }
}

/// A stored topic becomes a level with its key, its retained message and its subscriptions.
pub proof fn law_stored_node(
    topic_id: i32,
    message: Option<publish::PublishView>,
    list: Seq<(SessionId, u8)>,
)
    ensures
        ({
            let node = persist::stored_node(topic_id, message, list);
            &&& node.internal_id == Some(topic_id)
            &&& node.message == message
            &&& node.clients == persist::stored_clients(list)
        }),
{
}

/// A topic from the store keeps its key, and so do all others.
pub proof fn law_loaded_key(v: SubscriptionsView, name: Seq<char>, node: topic::NodeView)
    ensures
        ({
            let path = topics::levels_of(name);
            let w = topics::with_topic(v, name, node);
            &&& key_at(w.nodes, path) == node.internal_id
            &&& forall|f: topic::Path|
                f != path ==> #[trigger] key_at(w.nodes, f) == key_at(v.nodes, f)
            &&& w.subscriptions == v.subscriptions
            &&& w.retained_messages == v.retained_messages
        }),
{
}

/// What is found at a topic is the message that is retained at exactly its levels.
pub proof fn law_retained_found(m: Map<topic::Path, topic::NodeView>, topic: Seq<char>)
    ensures
        topics::retained_at(m, topic) == match matching::message_at(m, topics::levels_of(topic)) {
            Some(message) => seq![message],
            None => seq![],
        },
{
}

/// A session that was subscribed while its new subscription was stored is answered with
/// 0x80 and not counted again; otherwise it is answered with the quality of service.
pub proof fn law_subscribed_meanwhile(
    v: SubscriptionsView,
    session: SessionIdView,
    topic: Seq<char>,
    qos: u8,
    id: i32,
)
    ensures
        ({
            let known = v.nodes[topics::levels_of(topic)].clients.dom().contains(session.session);
            let (w, step) = topics::subscribe_answered(
                v,
                SubscribePendingView::New { session, topic, qos },
                Ok(id),
            );
            &&& step == StepView::<SubscribePendingView, u8>::Done(
                Ok(
                    if known {
                        0x80
                    } else {
                        qos
                    },
                ),
            )
            &&& known ==> w.subscriptions == v.subscriptions
            &&& w.nodes[topics::levels_of(topic)].clients[session.session] == (session, qos)
        }),
{
}

} // verus!
