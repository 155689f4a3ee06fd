//! Which topics a filter matches, and what the operations on subscriptions amount to.

use super::router::SessionIdView;
use super::topic;
use super::topics;
use super::topics::RequestView;
use super::topics::RetainPendingView;
use super::topics::StepView;
use super::topics::SubscribePendingView;
use super::topics::SubscriptionsView;
use super::topics::UnsubscribePendingView;
use crate::messages::publish;
use crate::text;
use vstd::prelude::*;

verus! {

/// Whether a topic filter matches a topic: level by level the same or `+`, where a last
/// level `#` stands for one or more levels.
pub open spec fn filter_matches(filter: topic::Path, levels: topic::Path) -> bool
    decreases levels.len(),
{
    if levels.len() == 0 {
        filter.len() == 0
    } else {
        ||| filter == seq!["#"@]
        ||| {
            &&& filter.len() > 0
            &&& filter[0] == "+"@ || filter[0] == levels[0]
            &&& filter_matches(filter.skip(1), levels.skip(1))
        }
    }
}

/// Whether a session is subscribed to a filter.
pub open spec fn has_subscription(
    m: Map<topic::Path, topic::NodeView>,
    filter: topic::Path,
    s: SessionIdView,
) -> bool {
    &&& m.dom().contains(filter)
    &&& m[filter].clients.dom().contains(s.session)
    &&& m[filter].clients[s.session].0 == s
}

pub proof fn lemma_prefix_in_tree(m: Map<topic::Path, topic::NodeView>, f: topic::Path, n: int)
    requires
        topic::tree_valid(m),
        m.dom().contains(f),
        0 <= n <= f.len(),
    ensures
        m.dom().contains(f.take(n)),
    decreases f.len() - n,
{
    if n == f.len() {
        assert(f.take(n) =~= f);
    } else {
        lemma_prefix_in_tree(m, f, n + 1);
        assert(f.take(n + 1) =~= f.take(n).push(f[n]));
    }
}

/// Whether a filter goes on from one level of a frontier and then matches.
spec fn goes_on(p: topic::Path, f: topic::Path, levels: topic::Path) -> bool {
    p.is_prefix_of(f) && filter_matches(f.skip(p.len() as int), levels)
}

proof fn lemma_hash_levels(
    m: Map<topic::Path, topic::NodeView>,
    frontier: Seq<topic::Path>,
    f: topic::Path,
)
    ensures
        topic::hash_levels(m, frontier).contains(f) <==> m.dom().contains(f) && exists|i: int|
            0 <= i < frontier.len() && f == (#[trigger] frontier[i]).push("#"@),
    decreases frontier.len(),
{
    if frontier.len() > 0 {
        let rest = frontier.drop_last();
        let p = frontier.last().push("#"@);
        lemma_hash_levels(m, rest, f);
        let before = topic::hash_levels(m, rest);
        let all = topic::hash_levels(m, frontier);
        if all.contains(f) {
            let k = choose|k: int| 0 <= k < all.len() && all[k] == f;
            if k < before.len() {
                assert(before[k] == f);
                assert(before.contains(f));
                let i = choose|i: int|
                    0 <= i < rest.len() && f == (#[trigger] rest[i]).push("#"@);
                assert(frontier[i] == rest[i]);
            } else {
                assert(f == p);
                assert(frontier[frontier.len() - 1].push("#"@) == f);
            }
        }
        if m.dom().contains(f) && exists|i: int|
            0 <= i < frontier.len() && f == (#[trigger] frontier[i]).push("#"@) {
            let i = choose|i: int|
                0 <= i < frontier.len() && f == (#[trigger] frontier[i]).push("#"@);
            if i < rest.len() {
                assert(rest[i] == frontier[i]);
                let k = choose|k: int| 0 <= k < before.len() && before[k] == f;
                assert(all[k] == f);
            } else {
                assert(all[all.len() - 1] == f);
            }
        }
    }
}

proof fn lemma_next_levels(
    m: Map<topic::Path, topic::NodeView>,
    frontier: Seq<topic::Path>,
    level: Seq<char>,
    f: topic::Path,
)
    ensures
        topic::next_levels(m, frontier, level).contains(f) <==> m.dom().contains(f) && exists|
            i: int,
        |
            0 <= i < frontier.len() && (f == (#[trigger] frontier[i]).push("+"@) || f
                == frontier[i].push(level)),
    decreases frontier.len(),
{
    if frontier.len() > 0 {
        let rest = frontier.drop_last();
        let plus = frontier.last().push("+"@);
        let same = frontier.last().push(level);
        lemma_next_levels(m, rest, level, f);
        let before = topic::next_levels(m, rest, level);
        let all = topic::next_levels(m, frontier, level);
        let one: Seq<topic::Path> = if m.dom().contains(plus) {
            seq![plus]
        } else {
            seq![]
        };
        let two: Seq<topic::Path> = if m.dom().contains(same) {
            seq![same]
        } else {
            seq![]
        };
        assert(all == before + one + two);
        if all.contains(f) {
            let k = choose|k: int| 0 <= k < all.len() && all[k] == f;
            if k < before.len() {
                assert(before[k] == f);
                assert(before.contains(f));
                let i = choose|i: int|
                    0 <= i < rest.len() && (f == (#[trigger] rest[i]).push("+"@) || f
                        == rest[i].push(level));
                assert(frontier[i] == rest[i]);
            } else {
                assert(f == plus || f == same);
                assert(frontier[frontier.len() - 1] == frontier.last());
            }
        }
        if m.dom().contains(f) && exists|i: int|
            0 <= i < frontier.len() && (f == (#[trigger] frontier[i]).push("+"@) || f
                == frontier[i].push(level)) {
            let i = choose|i: int|
                0 <= i < frontier.len() && (f == (#[trigger] frontier[i]).push("+"@) || f
                    == frontier[i].push(level));
            if i < rest.len() {
                assert(rest[i] == frontier[i]);
                let k = choose|k: int| 0 <= k < before.len() && before[k] == f;
                assert(all[k] == f);
            } else if f == plus {
                assert(all[before.len() as int] == f);
            } else {
                assert(all[all.len() - 1] == f);
            }
        }
    }
}

/// The levels that count for a topic are those whose path is a filter that matches it.
proof fn lemma_matching_levels(
    m: Map<topic::Path, topic::NodeView>,
    frontier: Seq<topic::Path>,
    levels: topic::Path,
    f: topic::Path,
)
    requires
        topic::tree_valid(m),
        forall|i: int| 0 <= i < frontier.len() ==> m.dom().contains(#[trigger] frontier[i]),
    ensures
        topic::matching_levels(m, frontier, levels).contains(f) <==> m.dom().contains(f)
            && exists|i: int|
            0 <= i < frontier.len() && goes_on(#[trigger] frontier[i], f, levels),
    decreases levels.len(),
{
    let all = topic::matching_levels(m, frontier, levels);
    let right = m.dom().contains(f) && exists|i: int|
        0 <= i < frontier.len() && goes_on(#[trigger] frontier[i], f, levels);
    if levels.len() == 0 {
        if all.contains(f) {
            let i = choose|i: int| 0 <= i < frontier.len() && frontier[i] == f;
            assert(f.skip(f.len() as int) =~= seq![]);
            assert(frontier[i].is_prefix_of(f)) by {
                assert(f.take(f.len() as int) =~= f);
            }
            assert(goes_on(frontier[i], f, levels));
        }
        if right {
            let i = choose|i: int|
                0 <= i < frontier.len() && goes_on(#[trigger] frontier[i], f, levels);
            assert(frontier[i] =~= f) by {
                assert(f.skip(frontier[i].len() as int).len() == 0);
                assert(f.take(f.len() as int) =~= f);
            }
        }
    } else {
        let next = topic::next_levels(m, frontier, levels[0]);
        let hashes = topic::hash_levels(m, frontier);
        let later = topic::matching_levels(m, next, levels.skip(1));
        assert forall|i: int| 0 <= i < next.len() implies m.dom().contains(#[trigger] next[i]) by {
            assert(next.contains(next[i]));
            lemma_next_levels(m, frontier, levels[0], next[i]);
        }
        lemma_hash_levels(m, frontier, f);
        lemma_matching_levels(m, next, levels.skip(1), f);
        assert(all == hashes + later);
        if all.contains(f) {
            let k = choose|k: int| 0 <= k < all.len() && all[k] == f;
            if k < hashes.len() {
                assert(hashes[k] == f);
                assert(hashes.contains(f));
                let i = choose|i: int|
                    0 <= i < frontier.len() && f == (#[trigger] frontier[i]).push("#"@);
                let p = frontier[i];
                assert(f.take(p.len() as int) =~= p);
                assert(f.skip(p.len() as int) =~= seq!["#"@]);
                assert(goes_on(frontier[i], f, levels));
            } else {
                assert(later[k - hashes.len()] == f);
                assert(later.contains(f));
                let j = choose|j: int|
                    0 <= j < next.len() && goes_on(#[trigger] next[j], f, levels.skip(1));
                let n = next[j];
                assert(next.contains(n));
                lemma_next_levels(m, frontier, levels[0], n);
                let i = choose|i: int|
                    0 <= i < frontier.len() && (n == (#[trigger] frontier[i]).push("+"@) || n
                        == frontier[i].push(levels[0]));
                let p = frontier[i];
                let g = f.skip(p.len() as int);
                assert(n =~= f.take(n.len() as int));
                assert(p =~= f.take(p.len() as int)) by {
                    assert(forall|h: int| 0 <= h < p.len() ==> p[h] == n[h]);
                }
                assert(g[0] == n[p.len() as int]);
                assert(g.skip(1) =~= f.skip(n.len() as int));
                assert(goes_on(frontier[i], f, levels));
            }
        }
        if right {
            let i = choose|i: int|
                0 <= i < frontier.len() && goes_on(#[trigger] frontier[i], f, levels);
            let p = frontier[i];
            let g = f.skip(p.len() as int);
            assert(p =~= f.take(p.len() as int));
            if g == seq!["#"@] {
                assert(f =~= p.push("#"@)) by {
                    assert(f =~= p + g);
                }
                let k = choose|k: int| 0 <= k < hashes.len() && hashes[k] == f;
                assert(all[k] == f);
            } else {
                let n = p.push(g[0]);
                assert(n =~= f.take(p.len() as int + 1)) by {
                    assert(f =~= p + g);
                }
                lemma_prefix_in_tree(m, f, p.len() as int + 1);
                lemma_next_levels(m, frontier, levels[0], n);
                assert(next.contains(n));
                let j = choose|j: int| 0 <= j < next.len() && next[j] == n;
                assert(g.skip(1) =~= f.skip(n.len() as int));
                assert(goes_on(next[j], f, levels.skip(1)));
                assert(later.contains(f));
                let k = choose|k: int| 0 <= k < later.len() && later[k] == f;
                assert(all[hashes.len() + k] == f);
            }
        }
    }
}

proof fn lemma_subscribed_at(
    m: Map<topic::Path, topic::NodeView>,
    levels: Seq<topic::Path>,
    s: SessionIdView,
)
    ensures
        topic::subscribed_at(m, levels).dom().contains(s) <==> exists|i: int|
            0 <= i < levels.len() && topic::subscribers(
                m[#[trigger] levels[i]].clients,
            ).dom().contains(s),
        topic::subscribed_at(m, levels).dom().contains(s) ==> exists|i: int|
            0 <= i < levels.len() && topic::subscribers(
                m[#[trigger] levels[i]].clients,
            ).dom().contains(s) && topic::subscribed_at(m, levels)[s] == m[levels[i]].clients[s.session].1,
    decreases levels.len(),
{
    if levels.len() > 0 {
        let rest = levels.drop_last();
        lemma_subscribed_at(m, rest, s);
        let last = topic::subscribers(m[levels.last()].clients);
        let all = topic::subscribed_at(m, levels);
        assert(levels[levels.len() - 1] == levels.last());
        if all.dom().contains(s) && !last.dom().contains(s) {
            assert(topic::subscribed_at(m, rest).dom().contains(s));
            let i = choose|i: int|
                0 <= i < rest.len() && topic::subscribers(
                    m[#[trigger] rest[i]].clients,
                ).dom().contains(s) && topic::subscribed_at(m, rest)[s]
                    == m[rest[i]].clients[s.session].1;
            assert(levels[i] == rest[i]);
        }
        if exists|i: int|
            0 <= i < levels.len() && topic::subscribers(
                m[#[trigger] levels[i]].clients,
            ).dom().contains(s) {
            let i = choose|i: int|
                0 <= i < levels.len() && topic::subscribers(
                    m[#[trigger] levels[i]].clients,
                ).dom().contains(s);
            if i < rest.len() {
                assert(rest[i] == levels[i]);
            }
        }
    }
}

/// A message goes to a session if and only if the session is subscribed to a filter that
/// matches the topic, and with the quality of service of such a subscription.
pub proof fn law_delivery(
    m: Map<topic::Path, topic::NodeView>,
    levels: topic::Path,
    s: SessionIdView,
)
    requires
        topic::tree_valid(m),
    ensures
        topic::topic_subscribers(m, levels).dom().contains(s) <==> exists|f: topic::Path|
            filter_matches(f, levels) && #[trigger] has_subscription(m, f, s),
        topic::topic_subscribers(m, levels).dom().contains(s) ==> exists|f: topic::Path|
            filter_matches(f, levels) && #[trigger] has_subscription(m, f, s)
                && topic::topic_subscribers(m, levels)[s] == m[f].clients[s.session].1,
{
    let root: topic::Path = seq![];
    let start: Seq<topic::Path> = seq![root];
    let found = topic::matching_levels(m, start, levels);
    assert forall|f: topic::Path| found.contains(f) <==> m.dom().contains(f) && filter_matches(
        f,
        levels,
    ) by {
        lemma_matching_levels(m, start, levels, f);
        assert(f.skip(0) =~= f);
        assert(f.take(0) =~= root);
        assert(start[0] == root);
        assert(goes_on(start[0], f, levels) == filter_matches(f, levels));
    }
    lemma_subscribed_at(m, found, s);
    let result = topic::subscribed_at(m, found);
    if result.dom().contains(s) {
        let i = choose|i: int|
            0 <= i < found.len() && topic::subscribers(
                m[#[trigger] found[i]].clients,
            ).dom().contains(s) && result[s] == m[found[i]].clients[s.session].1;
        assert(found.contains(found[i]));
        assert(has_subscription(m, found[i], s));
    }
    if exists|f: topic::Path| filter_matches(f, levels) && #[trigger] has_subscription(m, f, s) {
        let f = choose|f: topic::Path|
            filter_matches(f, levels) && #[trigger] has_subscription(m, f, s);
        assert(found.contains(f));
        let i = choose|i: int| 0 <= i < found.len() && found[i] == f;
        assert(topic::subscribers(m[found[i]].clients).dom().contains(s));
    }
}

/// The subscriptions to a filter; none where the tree has no such path.
pub open spec fn clients_at(m: Map<topic::Path, topic::NodeView>, f: topic::Path) -> Map<
    Seq<char>,
    (SessionIdView, u8),
> {
    if m.dom().contains(f) {
        m[f].clients
    } else {
        Map::empty()
    }
}

/// The message retained at a path.
pub open spec fn message_at(m: Map<topic::Path, topic::NodeView>, f: topic::Path) -> Option<
    publish::PublishView,
> {
    if m.dom().contains(f) {
        m[f].message
    } else {
        None
    }
}

/// `subscribe` from start to end where the store grants every request; `id` is the key
/// that it gives to a new topic.
pub open spec fn subscribe_granted(
    v: SubscriptionsView,
    session: SessionIdView,
    topic: Seq<char>,
    qos: u8,
    id: i32,
) -> (SubscriptionsView, StepView<SubscribePendingView, u8>) {
    let first = topics::subscribe_start(v, session, topic, qos);
    match first.1 {
        StepView::Done(_) => first,
        StepView::Ask(_, p) => {
            let second = topics::subscribe_answered(first.0, p, Ok(id));
            match second.1 {
                StepView::Done(_) => second,
                StepView::Ask(_, p) => topics::subscribe_answered(second.0, p, Ok(id)),
            }
        },
    }
}

/// `unsubscribe` from start to end where the store grants every request.
pub open spec fn unsubscribe_granted(
    v: SubscriptionsView,
    session: SessionIdView,
    topic: Seq<char>,
) -> (SubscriptionsView, StepView<UnsubscribePendingView, ()>) {
    let first = topics::unsubscribe_start(v, session, topic);
    match first.1 {
        StepView::Done(_) => first,
        StepView::Ask(_, p) => {
            let second = topics::unsubscribe_answered(first.0, p, Ok(0));
            match second.1 {
                StepView::Done(_) => second,
                StepView::Ask(_, p) => topics::unsubscribe_answered(second.0, p, Ok(0)),
            }
        },
    }
}

/// `retain` from its first answer on, where the store grants every request.
pub open spec fn retain_granted(
    step: (SubscriptionsView, StepView<RetainPendingView, ()>),
    id: i32,
    requests: nat,
) -> (SubscriptionsView, StepView<RetainPendingView, ()>)
    decreases requests,
{
    match step.1 {
        StepView::Done(_) => step,
        StepView::Ask(_, p) => if requests == 0 {
            step
        } else {
            retain_granted(
                topics::retain_answered(step.0, p, Ok(id)),
                id,
                (requests - 1) as nat,
            )
        },
    }
}

proof fn lemma_path_reached(m: Map<topic::Path, topic::NodeView>, path: topic::Path)
    ensures
        topic::reached(m, path, path.len() as int).dom().contains(path),
{
    assert(path.take(path.len() as int) =~= path);
    assert(path.is_prefix_of(path));
}

/// What changes in the tree when `subscribe` is granted: only the subscriptions at the
/// path of the topic.
proof fn lemma_subscribe_granted(
    v: SubscriptionsView,
    session: SessionIdView,
    topic: Seq<char>,
    qos: u8,
    id: i32,
)
    requires
        topic::tree_valid(v.nodes),
    ensures
        ({
            let path = topics::levels_of(topic);
            let (w, step) = subscribe_granted(v, session, topic, qos, id);
            let known = clients_at(v.nodes, path);
            &&& step == StepView::<SubscribePendingView, u8>::Done(Ok(qos))
            &&& w.nodes.dom().contains(path)
            &&& w.nodes[path].clients == if known.dom().contains(session.session)
                && known[session.session].1 == qos {
                known
            } else {
                known.insert(session.session, (session, qos))
            }
            &&& forall|f: topic::Path|
                f != path ==> #[trigger] clients_at(w.nodes, f) == clients_at(v.nodes, f)
            &&& forall|f: topic::Path| #[trigger]
                message_at(w.nodes, f) == message_at(v.nodes, f)
            &&& forall|f: topic::Path| #[trigger]
                v.nodes.dom().contains(f) ==> w.nodes.dom().contains(f)
        }),
{
    let path = topics::levels_of(topic);
    text::law_split_join(topic, '/');
    lemma_path_reached(v.nodes, path);
    let first = topics::subscribe_start(v, session, topic, qos);
    assert(path.take(path.len() as int) =~= path);
    assert(!path.is_prefix_of(path.take(path.len() - 1)));
    assert(v.nodes.dom().contains(path) <==> first.0.nodes.dom().contains(path));
    assert(clients_at(first.0.nodes, path) == clients_at(v.nodes, path));
    if topics::needs_id(first.0.nodes, path) {
        lemma_path_reached(first.0.nodes, path);
    }
}

/// Once a subscription is granted the answer is the quality of service that was asked
/// for, and every topic that the filter matches is delivered to the session; nothing that
/// is retained and no other subscription changes.
///
/// The one exception is a session that is subscribed already, with the same quality of
/// service, under another generation or key: that subscription stays as it is.
pub proof fn law_subscribe_delivers(
    v: SubscriptionsView,
    session: SessionIdView,
    topic: Seq<char>,
    qos: u8,
    id: i32,
    levels: topic::Path,
)
    requires
        topic::tree_valid(v.nodes),
        ({
            let known = clients_at(v.nodes, topics::levels_of(topic));
            known.dom().contains(session.session) && known[session.session].1 == qos
                ==> known[session.session].0 == session
        }),
    ensures
        ({
            let path = topics::levels_of(topic);
            let (w, step) = subscribe_granted(v, session, topic, qos, id);
            &&& step == StepView::<SubscribePendingView, u8>::Done(Ok(qos))
            &&& has_subscription(w.nodes, path, session)
            &&& w.nodes[path].clients[session.session].1 == qos
            &&& filter_matches(path, levels) ==> topic::topic_subscribers(
                w.nodes,
                levels,
            ).dom().contains(session)
            &&& forall|f: topic::Path|
                f != path ==> #[trigger] clients_at(w.nodes, f) == clients_at(v.nodes, f)
            &&& forall|f: topic::Path| #[trigger]
                message_at(w.nodes, f) == message_at(v.nodes, f)
        }),
{
    let path = topics::levels_of(topic);
    let w = subscribe_granted(v, session, topic, qos, id).0;
    lemma_subscribe_granted(v, session, topic, qos, id);
    assert(has_subscription(w.nodes, path, session));
    lemma_subscribe_valid(v, session, topic, qos, id);
    law_delivery(w.nodes, levels, session);
}

/// A granted subscription leaves a valid tree.
proof fn lemma_subscribe_valid(
    v: SubscriptionsView,
    session: SessionIdView,
    topic: Seq<char>,
    qos: u8,
    id: i32,
)
    requires
        topic::tree_valid(v.nodes),
    ensures
        topic::tree_valid(subscribe_granted(v, session, topic, qos, id).0.nodes),
{
    let path = topics::levels_of(topic);
    let parents = topics::with_parents(v.nodes, path);
    text::law_split_join(topic, '/');
    topics::lemma_reached_valid(v.nodes, path, path.len() - 1);
    let keyed = if topics::needs_id(parents, path) {
        let m = topic::reached(parents, path, path.len() as int);
        lemma_path_reached(parents, path);
        topics::lemma_reached_valid(parents, path, path.len() as int);
        assert(topic::node_valid(m[path]));
        topics::lemma_insert_valid(
            m,
            path,
            topic::NodeView { internal_id: Some(id), ..m[path] },
        );
        topics::with_id(parents, path, id)
    } else {
        parents
    };
    assert(topic::tree_valid(keyed));
    assert(topic::node_valid(keyed[path]));
    let node = topic::NodeView {
        clients: keyed[path].clients.insert(session.session, (session, qos)),
        ..keyed[path]
    };
    assert forall|k: Seq<char>| node.clients.dom().contains(k) implies (
    #[trigger] node.clients[k]).0.session == k by {
        if k != session.session {
            assert(keyed[path].clients[k].0.session == k);
        }
    }
    topics::lemma_insert_valid(keyed, path, node);
}

/// The end of a subscription leaves a valid tree where it is granted.
proof fn lemma_unsubscribe_valid(v: SubscriptionsView, session: SessionIdView, topic: Seq<char>)
    requires
        topic::tree_valid(v.nodes),
    ensures
        topic::tree_valid(unsubscribe_granted(v, session, topic).0.nodes),
{
    let path = topics::levels_of(topic);
    let first = topics::unsubscribe_start(v, session, topic);
    if clients_at(v.nodes, path).dom().contains(session.session) {
        assert(topic::node_valid(v.nodes[path]));
        let node = topic::NodeView {
            clients: v.nodes[path].clients.remove(session.session),
            ..v.nodes[path]
        };
        assert(v.nodes[path].clients.dom().len() > 0) by {
            if v.nodes[path].clients.dom().len() == 0 {
                assert(v.nodes[path].clients.dom() =~= Set::empty());
            }
        }
        assert forall|k: Seq<char>| node.clients.dom().contains(k) implies (
        #[trigger] node.clients[k]).0.session == k by {
            assert(v.nodes[path].clients[k].0.session == k);
        }
        topics::lemma_insert_valid(v.nodes, path, node);
        if node.message is None && node.clients.dom().len() == 0 {
            topics::lemma_insert_valid(
                first.0.nodes,
                path,
                topic::NodeView { internal_id: None, ..node },
            );
        }
    }
}

/// Retaining a message leaves a valid tree where it is granted.
proof fn lemma_retain_valid(v: SubscriptionsView, message: publish::PublishView, id: i32)
    requires
        topic::tree_valid(v.nodes),
    ensures
        topic::tree_valid(retain_granted(topics::retain_start(v, message), id, 4).0.nodes),
{
    reveal_with_fuel(retain_granted, 5);
    let path = topics::levels_of(message.topic);
    text::law_split_join(message.topic, '/');
    let parents = topics::with_parents(v.nodes, path);
    topics::lemma_reached_valid(v.nodes, path, path.len() - 1);
    let keyed = if topics::needs_id(parents, path) {
        let m = topic::reached(parents, path, path.len() as int);
        lemma_path_reached(parents, path);
        topics::lemma_reached_valid(parents, path, path.len() as int);
        assert(topic::node_valid(m[path]));
        topics::lemma_insert_valid(
            m,
            path,
            topic::NodeView { internal_id: Some(id), ..m[path] },
        );
        topics::with_id(parents, path, id)
    } else {
        parents
    };
    assert(topic::node_valid(keyed[path]));
    topics::lemma_insert_valid(
        keyed,
        path,
        topic::NodeView { message: Some(message), ..keyed[path] },
    );
    let node = topic::NodeView { message: None, ..keyed[path] };
    topics::lemma_insert_valid(keyed, path, node);
    if node.clients.dom().len() == 0 {
        topics::lemma_insert_valid(
            topics::with_message(keyed, path, None),
            path,
            topic::NodeView { internal_id: None, ..node },
        );
    }
}

/// Every operation that is granted leaves a valid tree, so that what is said of valid
/// trees holds after it as well.
pub proof fn law_stays_valid(
    v: SubscriptionsView,
    session: SessionIdView,
    topic: Seq<char>,
    qos: u8,
    message: publish::PublishView,
    id: i32,
)
    requires
        topic::tree_valid(v.nodes),
    ensures
        topic::tree_valid(subscribe_granted(v, session, topic, qos, id).0.nodes),
        topic::tree_valid(unsubscribe_granted(v, session, topic).0.nodes),
        topic::tree_valid(retain_granted(topics::retain_start(v, message), id, 4).0.nodes),
{
    lemma_subscribe_valid(v, session, topic, qos, id);
    lemma_unsubscribe_valid(v, session, topic);
    lemma_retain_valid(v, message, id);
}

/// Once the end of a subscription is granted, the session is no longer subscribed to the
/// filter; no other subscription and nothing that is retained changes.
pub proof fn law_unsubscribe(
    v: SubscriptionsView,
    session: SessionIdView,
    topic: Seq<char>,
    other: SessionIdView,
)
    requires
        topic::tree_valid(v.nodes),
    ensures
        ({
            let path = topics::levels_of(topic);
            let (w, step) = unsubscribe_granted(v, session, topic);
            &&& step == StepView::<UnsubscribePendingView, ()>::Done(Ok(()))
            &&& clients_at(w.nodes, path) == clients_at(v.nodes, path).remove(session.session)
            &&& other.session == session.session ==> !has_subscription(w.nodes, path, other)
            &&& forall|f: topic::Path|
                f != path ==> #[trigger] clients_at(w.nodes, f) == clients_at(v.nodes, f)
            &&& forall|f: topic::Path| #[trigger]
                message_at(w.nodes, f) == message_at(v.nodes, f)
        }),
{
    let path = topics::levels_of(topic);
    let w = unsubscribe_granted(v, session, topic).0;
    assert(clients_at(w.nodes, path) =~= clients_at(v.nodes, path).remove(session.session));
}

/// Subscribing a session that was not subscribed and unsubscribing it again gives back
/// the subscriptions of every filter.
pub proof fn law_unsubscribe_undoes(
    v: SubscriptionsView,
    session: SessionIdView,
    topic: Seq<char>,
    qos: u8,
    id: i32,
    f: topic::Path,
)
    requires
        topic::tree_valid(v.nodes),
        !clients_at(v.nodes, topics::levels_of(topic)).dom().contains(session.session),
    ensures
        ({
            let w = subscribe_granted(v, session, topic, qos, id).0;
            let u = unsubscribe_granted(w, session, topic).0;
            clients_at(u.nodes, f) == clients_at(v.nodes, f)
        }),
{
    let path = topics::levels_of(topic);
    let w = subscribe_granted(v, session, topic, qos, id).0;
    lemma_subscribe_granted(v, session, topic, qos, id);
    lemma_subscribe_valid(v, session, topic, qos, id);
    law_unsubscribe(w, session, topic, session);
    let u = unsubscribe_granted(w, session, topic).0;
    let known = clients_at(v.nodes, path);
    assert(known.insert(session.session, (session, qos)).remove(session.session) =~= known);
    assert(clients_at(u.nodes, f) == clients_at(v.nodes, f)) by {
        if f != path {
            assert(clients_at(u.nodes, f) == clients_at(w.nodes, f));
            assert(clients_at(w.nodes, f) == clients_at(v.nodes, f));
        }
    }
}

/// Once a message is retained it is what is found at its topic, or nothing if it is
/// empty; no subscription and no message at another topic changes.
pub proof fn law_retain(v: SubscriptionsView, message: publish::PublishView, id: i32)
    requires
        topic::tree_valid(v.nodes),
    ensures
        ({
            let path = topics::levels_of(message.topic);
            let (w, step) = retain_granted(topics::retain_start(v, message), id, 4);
            &&& step == StepView::<RetainPendingView, ()>::Done(Ok(()))
            &&& topics::retained_at(w.nodes, message.topic) == if message.message.len() > 0 {
                seq![message]
            } else {
                seq![]
            }
            &&& forall|f: topic::Path| #[trigger]
                clients_at(w.nodes, f) == clients_at(v.nodes, f)
            &&& forall|f: topic::Path|
                f != path ==> #[trigger] message_at(w.nodes, f) == message_at(v.nodes, f)
        }),
{
    reveal_with_fuel(retain_granted, 5);
    let path = topics::levels_of(message.topic);
    text::law_split_join(message.topic, '/');
    let first = topics::retain_start(v, message);
    assert(path.take(path.len() as int) =~= path);
    assert(v.nodes.dom().contains(path) <==> first.0.nodes.dom().contains(path));
    if topics::needs_id(first.0.nodes, path) {
        lemma_path_reached(first.0.nodes, path);
    }
    let found = match first.1 {
        StepView::Ask(RequestView::PersistTopic { .. }, p) => topics::retain_answered(
            first.0,
            p,
            Ok(id),
        ),
        _ => first,
    };
    assert(found.1 == topics::retain_found(found.0, message));
    assert(found.0.nodes.dom().contains(path));
    assert(forall|f: topic::Path| #[trigger]
        clients_at(found.0.nodes, f) == clients_at(v.nodes, f));
    assert(forall|f: topic::Path| #[trigger]
        message_at(found.0.nodes, f) == message_at(v.nodes, f));
    let w = retain_granted(topics::retain_start(v, message), id, 4).0;
    assert(w.nodes.dom().contains(path));
    assert(clients_at(w.nodes, path) == clients_at(v.nodes, path)) by {
        assert(clients_at(found.0.nodes, path) == clients_at(v.nodes, path));
    }
    assert forall|f: topic::Path| #[trigger] clients_at(w.nodes, f) == clients_at(v.nodes, f) by {
        assert(clients_at(found.0.nodes, f) == clients_at(v.nodes, f));
    }
    assert forall|f: topic::Path| f != path implies #[trigger] message_at(w.nodes, f)
        == message_at(v.nodes, f) by {
        assert(message_at(found.0.nodes, f) == message_at(v.nodes, f));
    }
}

/// Where the store grants every request, the gauge of subscriptions goes up by one with a
/// subscription that was not there and down by one with the end of one that was, and
/// stays otherwise.
pub proof fn law_guage_subscriptions(
    v: SubscriptionsView,
    session: SessionIdView,
    topic: Seq<char>,
    qos: u8,
    id: i32,
)
    requires
        topic::tree_valid(v.nodes),
    ensures
        ({
            let known = clients_at(v.nodes, topics::levels_of(topic)).dom().contains(
                session.session,
            );
            let s = subscribe_granted(v, session, topic, qos, id).0;
            let u = unsubscribe_granted(v, session, topic).0;
            &&& s.subscriptions == if known {
                v.subscriptions
            } else {
                v.subscriptions.wrapping_add(1)
            }
            &&& u.subscriptions == if known {
                v.subscriptions.wrapping_sub(1)
            } else {
                v.subscriptions
            }
            &&& s.retained_messages == v.retained_messages
            &&& u.retained_messages == v.retained_messages
        }),
{
    let path = topics::levels_of(topic);
    text::law_split_join(topic, '/');
    let first = topics::subscribe_start(v, session, topic, qos);
    assert(path.take(path.len() as int) =~= path);
    assert(v.nodes.dom().contains(path) <==> first.0.nodes.dom().contains(path));
    assert(clients_at(first.0.nodes, path) == clients_at(v.nodes, path));
    if topics::needs_id(first.0.nodes, path) {
        lemma_path_reached(first.0.nodes, path);
    }
}

/// Where the store grants every request, the gauge of retained messages goes up by one
/// with a message at a topic that had none and down by one with the end of one, and stays
/// otherwise.
pub proof fn law_guage_retained(v: SubscriptionsView, message: publish::PublishView, id: i32)
    requires
        topic::tree_valid(v.nodes),
    ensures
        ({
            let w = retain_granted(topics::retain_start(v, message), id, 4).0;
            let had = message_at(v.nodes, topics::levels_of(message.topic)) is Some;
            let kept = message.message.len() > 0;
            &&& w.retained_messages == if kept && !had {
                v.retained_messages.wrapping_add(1)
            } else if had && !kept {
                v.retained_messages.wrapping_sub(1)
            } else {
                v.retained_messages
            }
            &&& w.subscriptions == v.subscriptions
        }),
{
    reveal_with_fuel(retain_granted, 5);
    let path = topics::levels_of(message.topic);
    text::law_split_join(message.topic, '/');
    let first = topics::retain_start(v, message);
    assert(path.take(path.len() as int) =~= path);
    assert(v.nodes.dom().contains(path) <==> first.0.nodes.dom().contains(path));
    assert(message_at(first.0.nodes, path) == message_at(v.nodes, path));
    if topics::needs_id(first.0.nodes, path) {
        lemma_path_reached(first.0.nodes, path);
    }
}

/// A topic from the store is found again as it was stored, with its retained message and
/// its subscriptions; what stands at other topics stays.
pub proof fn law_topic_loaded(v: SubscriptionsView, name: Seq<char>, node: topic::NodeView)
    ensures
        ({
            let path = topics::levels_of(name);
            let w = topics::with_topic(v, name, node);
            &&& topics::retained_at(w.nodes, name) == match node.message {
                Some(m) => seq![m],
                None => seq![],
            }
            &&& clients_at(w.nodes, path) == node.clients
            &&& forall|f: topic::Path|
                f != path ==> #[trigger] clients_at(w.nodes, f) == clients_at(v.nodes, f)
            &&& forall|f: topic::Path|
                f != path ==> #[trigger] message_at(w.nodes, f) == message_at(v.nodes, f)
        }),
{
}

/// Where the store refuses a request of `subscribe`, no subscription and no retained
/// message changes with that answer.
pub proof fn law_refused_subscribe(
    v: SubscriptionsView,
    pending: SubscribePendingView,
    fault: Seq<char>,
)
    ensures
        topics::subscribe_answered(v, pending, Err(fault)).0 == v,
        topics::subscribe_answered(v, pending, Err(fault)).1 is Done,
{
}

} // verus!
