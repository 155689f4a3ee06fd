//! The tree of topic levels.

use super::router::SessionId;
use super::router::SessionIdView;
use crate::messages::publish;
use crate::messages::MQTTMessagePublish;
use crate::text;
use crate::text::text_equal;
use super::subscribers::Subscribers;
use vstd::prelude::*;

verus! {

/// A path from the root: one text for each level.
pub type Path = Seq<Seq<char>>;

/// A subscription of a session.
pub struct TopicEntry {
    pub session: SessionId,
    pub qos: u8,
}

/// A level of the tree, with what is kept at it.
pub struct Topic {
    topics: Vec<(String, Topic)>,
    internal_id: Option<i32>,
    clients: Vec<TopicEntry>,
    message: Option<MQTTMessagePublish>,
}

/// What is kept at a path.
#[verifier::ext_equal]
pub struct NodeView {
    /// The key of the topic in the persistent store.
    pub internal_id: Option<i32>,
    /// The subscriptions, by the name of the session.
    pub clients: Map<Seq<char>, (SessionIdView, u8)>,
    /// The retained message.
    pub message: Option<publish::PublishView>,
}

/// The contents of a message, if there is one.
pub open spec fn message_view(message: Option<MQTTMessagePublish>) -> Option<
    publish::PublishView,
> {
    match message {
        Some(m) => Some(m@),
        None => None,
    }
}

/// A level at which nothing is kept yet.
pub open spec fn fresh_node(internal_id: Option<i32>) -> NodeView {
    NodeView { internal_id, clients: Map::empty(), message: None }
}

/// Whether `key` first occurs at position `i`.
spec fn first_at(list: Seq<(String, Topic)>, key: Seq<char>, i: int) -> bool {
    &&& 0 <= i < list.len()
    &&& list[i].0@ == key
    &&& forall|j: int| 0 <= j < i ==> (#[trigger] list[j]).0@ != key
}

/// The next level under `key`.
spec fn child(list: Seq<(String, Topic)>, key: Seq<char>) -> Option<Topic> {
    if exists|i: int| first_at(list, key, i) {
        Some(list[choose|i: int| first_at(list, key, i)].1)
    } else {
        None
    }
}

/// The level at the end of a path.
spec fn find(t: Topic, path: Path) -> Option<Topic>
    decreases path.len(),
{
    if path.len() == 0 {
        Some(t)
    } else {
        match child(t.topics@, path[0]) {
            Some(c) => find(c, path.skip(1)),
            None => None,
        }
    }
}

/// The subscriptions of a level by the name of their session.
spec fn client_map(clients: Seq<TopicEntry>) -> Map<Seq<char>, (SessionIdView, u8)>
    decreases clients.len(),
{
    if clients.len() == 0 {
        Map::empty()
    } else {
        let e = clients.last();
        client_map(clients.drop_last()).insert(e.session.session@, (e.session@, e.qos))
    }
}

/// Each session has one subscription.
spec fn distinct(clients: Seq<TopicEntry>) -> bool {
    forall|i: int, j: int|
        0 <= i < j < clients.len() ==> (#[trigger] clients[i]).session.session@ != (
        #[trigger] clients[j]).session.session@
}

impl Topic {
    /// What is kept at this level itself.
    pub closed spec fn node(&self) -> NodeView {
        NodeView {
            internal_id: self.internal_id,
            clients: client_map(self.clients@),
            message: message_view(self.message),
        }
    }

    /// No session is listed twice, here or below.
    pub closed spec fn well_formed(&self) -> bool {
        forall|p: Path| (#[trigger] find(*self, p)) matches Some(t) ==> distinct(t.clients@)
    }
}

impl View for Topic {
    type V = Map<Path, NodeView>;

    closed spec fn view(&self) -> Map<Path, NodeView> {
        Map::new(|p: Path| find(*self, p) is Some, |p: Path| find(*self, p)->0.node())
    }
}

proof fn lemma_child_first(list: Seq<(String, Topic)>, key: Seq<char>, i: int)
    requires
        first_at(list, key, i),
    ensures
        child(list, key) == Some(list[i].1),
{
    let j = choose|j: int| first_at(list, key, j);
    assert(first_at(list, key, j));
    if j < i {
        assert(list[j].0@ != key);
    } else if i < j {
        assert(list[i].0@ != key);
    }
}

proof fn lemma_client_map(clients: Seq<TopicEntry>, i: int)
    requires
        distinct(clients),
        0 <= i < clients.len(),
    ensures
        client_map(clients).dom().contains(clients[i].session.session@),
        client_map(clients)[clients[i].session.session@] == (clients[i].session@, clients[i].qos),
    decreases clients.len(),
{
    if i < clients.len() - 1 {
        assert(distinct(clients.drop_last()));
        assert(clients.drop_last()[i] == clients[i]);
        lemma_client_map(clients.drop_last(), i);
        assert(clients[i].session.session@ != clients[clients.len() - 1].session.session@);
    }
}

proof fn lemma_client_map_key(clients: Seq<TopicEntry>, key: Seq<char>) -> (i: int)
    requires
        client_map(clients).dom().contains(key),
    ensures
        0 <= i < clients.len(),
        clients[i].session.session@ == key,
    decreases clients.len(),
{
    if clients.last().session.session@ == key {
        clients.len() - 1
    } else {
        lemma_client_map_key(clients.drop_last(), key)
    }
}

impl Topic {
    /// A level with nothing below it and nothing kept at it.
    pub fn new(internal_id: Option<i32>) -> (r: Topic)
        ensures
            r.well_formed(),
            r.node() == fresh_node(internal_id),
            r@ == map![Seq::<Seq<char>>::empty() => fresh_node(internal_id)],
    {
        let r = Topic { topics: Vec::new(), internal_id, clients: Vec::new(), message: None };
        proof {
            assert(r.node() =~= fresh_node(internal_id));
            assert forall|p: Path| p.len() > 0 implies #[trigger] find(r, p) is None by {
                assert(forall|i: int| !first_at(r.topics@, p[0], i));
            }
            assert forall|p: Path| (#[trigger] find(r, p)) matches Some(t) ==> distinct(
                t.clients@,
            ) by {
                if p.len() == 0 {
                    assert(find(r, p) == Some(r));
                }
            }
            let root = Seq::<Seq<char>>::empty();
            assert(find(r, root) == Some(r));
            assert(forall|p: Path| p.len() == 0 ==> p =~= root);
            assert(r@ =~= map![root => fresh_node(internal_id)]);
        }
        r
    }

    /// The position of the next level under `level`.
    fn position(&self, level: &str) -> (r: Option<usize>)
        ensures
            match r {
                Some(i) => first_at(self.topics@, level@, i as int),
                None => child(self.topics@, level@) is None,
            },
    {
        let mut i: usize = 0;
        while i < self.topics.len()
            invariant
                i <= self.topics@.len(),
                forall|j: int| 0 <= j < i ==> (#[trigger] self.topics@[j]).0@ != level@,
            decreases self.topics@.len() - i,
        {
            if text_equal(&self.topics[i].0, level) {
                return Some(i);
            }
            i += 1;
        }
        assert(forall|k: int| !first_at(self.topics@, level@, k));
        None
    }
}


/// The part of a tree below a path, seen from there.
pub open spec fn below(m: Map<Path, NodeView>, path: Path) -> Map<Path, NodeView> {
    Map::new(|q: Path| m.dom().contains(path + q), |q: Path| m[path + q])
}

/// A tree whose part below a path is replaced.
pub open spec fn graft(m: Map<Path, NodeView>, path: Path, part: Map<Path, NodeView>) -> Map<
    Path,
    NodeView,
> {
    Map::new(
        |q: Path|
            if path.is_prefix_of(q) {
                part.dom().contains(q.skip(path.len() as int))
            } else {
                m.dom().contains(q)
            },
        |q: Path|
            if path.is_prefix_of(q) {
                part[q.skip(path.len() as int)]
            } else {
                m[q]
            },
    )
}

/// Changing what is kept at a path changes nothing else in the tree.
pub proof fn lemma_graft_insert(m: Map<Path, NodeView>, path: Path, n: NodeView)
    ensures
        graft(m, path, below(m, path).insert(seq![], n)) == m.insert(path, n),
{
    let root: Path = seq![];
    let changed = graft(m, path, below(m, path).insert(root, n));
    assert forall|q: Path| path.is_prefix_of(q) implies path + (#[trigger] q.skip(
        path.len() as int,
    )) == q && (q.skip(path.len() as int) == root <==> q == path) by {
        assert(path + q.skip(path.len() as int) =~= q);
        if q.skip(path.len() as int) == root {
            assert(q =~= path);
        } else if q == path {
            assert(q.skip(path.len() as int) =~= root);
        }
    }
    assert(changed =~= m.insert(path, n));
}

/// Looking up a path level by level.
proof fn lemma_find_step(t: Topic, i: int, path: Path)
    requires
        path.len() > 0,
        first_at(t.topics@, path[0], i),
    ensures
        find(t, path) == find(t.topics@[i].1, path.skip(1)),
{
    lemma_child_first(t.topics@, path[0], i);
}

pub proof fn lemma_root(t: Topic)
    ensures
        t@.dom().contains(seq![]),
        t@[seq![]] == t.node(),
{
    assert(find(t, seq![]) == Some(t));
}

/// Replacing the next level under one key.
proof fn lemma_replace_child(before: Topic, after: Topic, i: int)
    requires
        0 <= i < before.topics@.len(),
        first_at(before.topics@, before.topics@[i].0@, i),
        after.topics@ == before.topics@.update(i, after.topics@[i]),
        after.topics@[i].0@ == before.topics@[i].0@,
        after.internal_id == before.internal_id,
        after.clients == before.clients,
        after.message == before.message,
    ensures
        forall|key: Seq<char>|
            key != before.topics@[i].0@ ==> #[trigger] child(after.topics@, key) == child(
                before.topics@,
                key,
            ),
        child(after.topics@, before.topics@[i].0@) == Some(after.topics@[i].1),
        child(before.topics@, before.topics@[i].0@) == Some(before.topics@[i].1),
        after.node() == before.node(),
{
    let k = before.topics@[i].0@;
    assert forall|key: Seq<char>, j: int| first_at(after.topics@, key, j) == first_at(
        before.topics@,
        key,
        j,
    ) by {
        assert forall|h: int| 0 <= h < before.topics@.len() implies (#[trigger] after.topics@[h]).0@
            == before.topics@[h].0@ by {}
        if first_at(before.topics@, key, j) {
            assert(first_at(after.topics@, key, j));
        }
        if first_at(after.topics@, key, j) {
            assert forall|h: int| 0 <= h < j implies (#[trigger] before.topics@[h]).0@ != key by {
                assert(after.topics@[h].0@ != key);
            }
        }
    }
    lemma_child_first(after.topics@, k, i);
    lemma_child_first(before.topics@, k, i);
    assert forall|key: Seq<char>| key != k implies #[trigger] child(after.topics@, key) == child(
        before.topics@,
        key,
    ) by {
        if exists|j: int| first_at(before.topics@, key, j) {
            let j = choose|j: int| first_at(before.topics@, key, j);
            assert(first_at(after.topics@, key, j));
            lemma_child_first(before.topics@, key, j);
            lemma_child_first(after.topics@, key, j);
        } else {
            assert(forall|j: int| !first_at(after.topics@, key, j));
        }
    }
}

/// What replacing the next level under one key does to the tree.
proof fn lemma_replace_view(before: Topic, after: Topic, i: int, path: Path, part: Map<Path, NodeView>)
    requires
        0 <= i < before.topics@.len(),
        path.len() > 0,
        first_at(before.topics@, path[0], i),
        after.topics@ == before.topics@.update(i, after.topics@[i]),
        after.topics@[i].0@ == before.topics@[i].0@,
        after.internal_id == before.internal_id,
        after.clients == before.clients,
        after.message == before.message,
        after.topics@[i].1@ == graft(before.topics@[i].1@, path.skip(1), part),
    ensures
        after@ == graft(before@, path, part),
        before.well_formed() && after.topics@[i].1.well_formed() ==> after.well_formed(),
{
    lemma_replace_child(before, after, i);
    let old_child = before.topics@[i].1;
    let new_child = after.topics@[i].1;
    let goal = graft(before@, path, part);
    assert forall|q: Path|
        #![trigger after@.dom().contains(q)]
        #![trigger goal.dom().contains(q)]
        (after@.dom().contains(q) <==> goal.dom().contains(q)) && (after@.dom().contains(q)
            ==> after@[q] == goal[q]) by {
        if q.len() == 0 {
            assert(find(after, q) == Some(after));
            assert(find(before, q) == Some(before));
            assert(!path.is_prefix_of(q));
        } else if q[0] == path[0] {
            let rest = q.skip(1);
            assert(find(after, q) == find(new_child, rest));
            assert(find(before, q) == find(old_child, rest));
            assert(path.is_prefix_of(q) == path.skip(1).is_prefix_of(rest)) by {
                assert(path =~= seq![path[0]] + path.skip(1));
                assert(q =~= seq![q[0]] + rest);
                if path.skip(1).is_prefix_of(rest) {
                    assert(q.take(path.len() as int) =~= path);
                }
                if path.is_prefix_of(q) {
                    assert(rest.take(path.len() - 1) =~= path.skip(1));
                }
            }
            if path.is_prefix_of(q) {
                assert(q.skip(path.len() as int) =~= rest.skip(path.skip(1).len() as int));
            }
            let inner = graft(old_child@, path.skip(1), part);
            assert(after@.dom().contains(q) <==> new_child@.dom().contains(rest));
            assert(before@.dom().contains(q) <==> old_child@.dom().contains(rest));
            assert(goal.dom().contains(q) <==> inner.dom().contains(rest));
            if after@.dom().contains(q) {
                assert(after@[q] == new_child@[rest]);
                if !path.is_prefix_of(q) {
                    assert(before@[q] == old_child@[rest]);
                }
                assert(goal[q] == inner[rest]);
            }
        } else {
            assert(find(after, q) == find(before, q));
            assert(!path.is_prefix_of(q));
        }
    }
    assert(after@ =~= goal);
    if before.well_formed() && new_child.well_formed() {
        assert forall|p: Path| (#[trigger] find(after, p)) matches Some(t) ==> distinct(
            t.clients@,
        ) by {
            if p.len() == 0 {
                assert(find(before, p) == Some(before));
            } else if p[0] == path[0] {
                assert(find(after, p) == find(new_child, p.skip(1)));
            } else {
                assert(find(after, p) == find(before, p));
            }
        }
    }
}

/// The part below a path is the part of the next level below the rest of the path.
proof fn lemma_below_step(t: Topic, i: int, path: Path)
    requires
        path.len() > 0,
        first_at(t.topics@, path[0], i),
    ensures
        below(t@, path) == below(t.topics@[i].1@, path.skip(1)),
{
    lemma_child_first(t.topics@, path[0], i);
    assert forall|q: Path| #[trigger] find(t, path + q) == find(
        t.topics@[i].1,
        path.skip(1) + q,
    ) by {
        assert((path + q).skip(1) =~= path.skip(1) + q);
    }
    assert(below(t@, path) =~= below(t.topics@[i].1@, path.skip(1)));
}

impl Topic {
    /// The level at the end of a path, to be changed.
    pub(crate) fn node_mut(&mut self, levels: &Vec<String>, from: usize) -> (r: &mut Topic)
        requires
            from <= levels@.len(),
            old(self).well_formed(),
            old(self)@.dom().contains(text::texts(levels@).skip(from as int)),
        ensures
            r.well_formed(),
            r@ == below(old(self)@, text::texts(levels@).skip(from as int)),
            final(r).well_formed() ==> final(self).well_formed(),
            final(self)@ == graft(
                old(self)@,
                text::texts(levels@).skip(from as int),
                final(r)@,
            ),
        decreases levels@.len() - from,
    {
        let ghost path = text::texts(levels@).skip(from as int);
        let ghost before = *self;
        if from == levels.len() {
            proof {
                assert(path =~= seq![]);
                assert forall|q: Path|
                    #![trigger path + q]
                    path + q == q by {
                    assert(path + q =~= q);
                }
                assert(below(before@, path) =~= before@);
                assert forall|q: Path| #[trigger] q.skip(0) == q by {
                    assert(q.skip(0) =~= q);
                }
                assert forall|q: Path| path.is_prefix_of(q) by {
                    assert(q.take(0) =~= path);
                }
                assert forall|part: Map<Path, NodeView>| #[trigger]
                    graft(before@, path, part) == part by {
                    assert(graft(before@, path, part) =~= part);
                }
            }
            return self;
        }
        match self.position(&levels[from]) {
            Some(i) => {
                proof {
                    assert(path[0] == levels@[from as int]@);
                    assert(path.skip(1) =~= text::texts(levels@).skip(from + 1));
                    lemma_find_step(before, i as int, path);
                    lemma_below_step(before, i as int, path);
                    let c = before.topics@[i as int].1;
                    lemma_child_first(before.topics@, path[0], i as int);
                    assert forall|p: Path| (#[trigger] find(c, p)) matches Some(t) ==> distinct(
                        t.clients@,
                    ) by {
                        let q = seq![path[0]] + p;
                        assert(q.skip(1) =~= p);
                        assert(find(before, q) == find(c, p));
                    }
                }
                let ghost after = *final(self);
                let c = &mut self.topics[i].1;
                let r = c.node_mut(levels, from + 1);
                proof {
                    lemma_replace_view(before, after, i as int, path, final(r)@);
                }
                r
            },
            None => {
                proof {
                    assert(path[0] == levels@[from as int]@);
                    assert(find(before, path) is None);
                    assert(false);
                }
                self
            },
        }
    }
}


/// A tree in which the first `n` levels of a path exist; new levels are empty.
pub open spec fn reached(m: Map<Path, NodeView>, path: Path, n: int) -> Map<Path, NodeView> {
    Map::new(
        |q: Path| m.dom().contains(q) || (q.len() <= n && q.is_prefix_of(path)),
        |q: Path|
            if m.dom().contains(q) {
                m[q]
            } else {
                fresh_node(None)
            },
    )
}

/// Replacing a whole tree.
proof fn lemma_graft_root(m: Map<Path, NodeView>, part: Map<Path, NodeView>)
    ensures
        graft(m, seq![], part) == part,
{
    let root: Path = seq![];
    assert forall|q: Path| #[trigger] q.skip(0) == q && root.is_prefix_of(q) by {
        assert(q.skip(0) =~= q);
        assert(q.take(0) =~= root);
    }
    assert(graft(m, root, part) =~= part);
}

/// Appending an empty level under a new key.
proof fn lemma_push_child(before: Topic, after: Topic, key: Seq<char>)
    requires
        child(before.topics@, key) is None,
        after.topics@.len() == before.topics@.len() + 1,
        after.topics@.drop_last() == before.topics@,
        after.topics@.last().0@ == key,
        after.topics@.last().1@ == map![Seq::<Seq<char>>::empty() => fresh_node(None)],
        after.topics@.last().1.well_formed(),
        after.internal_id == before.internal_id,
        after.clients == before.clients,
        after.message == before.message,
    ensures
        first_at(after.topics@, key, before.topics@.len() as int),
        after@ == before@.insert(seq![key], fresh_node(None)),
        before.well_formed() ==> after.well_formed(),
{
    let n = before.topics@.len() as int;
    let c = after.topics@[n].1;
    assert forall|j: int| 0 <= j < n implies (#[trigger] after.topics@[j]) == before.topics@[j] by {
        assert(after.topics@.drop_last()[j] == after.topics@[j]);
    }
    // The key is new: else it would have a first position.
    assert(forall|j: int| 0 <= j < n ==> (#[trigger] before.topics@[j]).0@ != key) by {
        if exists|j: int| 0 <= j < n && (#[trigger] before.topics@[j]).0@ == key {
            let j = choose|j: int| 0 <= j < n && (#[trigger] before.topics@[j]).0@ == key;
            lemma_has_first(before.topics@, key, j);
        }
    }
    assert(first_at(after.topics@, key, n));
    lemma_child_first(after.topics@, key, n);
    assert forall|k: Seq<char>| k != key implies #[trigger] child(after.topics@, k) == child(
        before.topics@,
        k,
    ) by {
        if exists|j: int| first_at(before.topics@, k, j) {
            let j = choose|j: int| first_at(before.topics@, k, j);
            lemma_child_first(before.topics@, k, j);
            assert(first_at(after.topics@, k, j));
            lemma_child_first(after.topics@, k, j);
        } else {
            assert forall|j: int| !first_at(after.topics@, k, j) by {
                if first_at(after.topics@, k, j) {
                    assert(first_at(before.topics@, k, j));
                }
            }
        }
    }
    let root = Seq::<Seq<char>>::empty();
    let goal = before@.insert(seq![key], fresh_node(None));
    assert forall|q: Path|
        #![trigger after@.dom().contains(q)]
        #![trigger goal.dom().contains(q)]
        (after@.dom().contains(q) <==> goal.dom().contains(q)) && (after@.dom().contains(q)
            ==> after@[q] == goal[q]) by {
        if q.len() == 0 {
            assert(find(after, q) == Some(after));
            assert(find(before, q) == Some(before));
        } else if q[0] == key {
            assert(find(after, q) == find(c, q.skip(1)));
            assert(find(before, q) is None);
            assert(after@.dom().contains(q) <==> c@.dom().contains(q.skip(1)));
            if q.len() == 1 {
                assert(q =~= seq![key]);
                assert(q.skip(1) =~= root);
                assert(after@[q] == c@[root]);
            } else {
                assert(q.skip(1).len() > 0);
                assert(q != seq![key]);
            }
        } else {
            assert(find(after, q) == find(before, q));
            assert(q != seq![key]);
        }
    }
    assert(after@ =~= goal);
    if before.well_formed() {
        assert forall|p: Path| (#[trigger] find(after, p)) matches Some(t) ==> distinct(
            t.clients@,
        ) by {
            if p.len() == 0 {
                assert(find(before, p) == Some(before));
            } else if p[0] == key {
                assert(find(after, p) == find(c, p.skip(1)));
            } else {
                assert(find(after, p) == find(before, p));
            }
        }
    }
}

/// A key that occurs has a first position.
proof fn lemma_has_first(list: Seq<(String, Topic)>, key: Seq<char>, j: int)
    requires
        0 <= j < list.len(),
        list[j].0@ == key,
    ensures
        child(list, key) is Some,
    decreases j,
{
    if exists|h: int| 0 <= h < j && (#[trigger] list[h]).0@ == key {
        let h = choose|h: int| 0 <= h < j && (#[trigger] list[h]).0@ == key;
        lemma_has_first(list, key, h);
    } else {
        assert(first_at(list, key, j));
    }
}

/// Reaching the levels of a path from the next level on.
proof fn lemma_reached_step(m: Map<Path, NodeView>, path: Path, n: int)
    requires
        0 < n <= path.len(),
        m.dom().contains(seq![]),
        m.dom().contains(seq![path[0]]),
    ensures
        graft(
            m,
            seq![path[0]],
            reached(below(m, seq![path[0]]), path.skip(1), n - 1),
        ) == reached(m, path, n),
{
    let one: Path = seq![path[0]];
    let inner = reached(below(m, one), path.skip(1), n - 1);
    let left = graft(m, one, inner);
    let right = reached(m, path, n);
    assert forall|q: Path|
        #![trigger left.dom().contains(q)]
        #![trigger right.dom().contains(q)]
        (left.dom().contains(q) <==> right.dom().contains(q)) && (left.dom().contains(q)
            ==> left[q] == right[q]) by {
        if one.is_prefix_of(q) {
            let rest = q.skip(1);
            assert(q[0] == one[0]) by {
                assert(q.take(1)[0] == q[0]);
            }
            assert(one + rest =~= q);
            assert(rest.is_prefix_of(path.skip(1)) == q.is_prefix_of(path)) by {
                if q.is_prefix_of(path) {
                    assert(rest =~= path.skip(1).take(rest.len() as int));
                }
                if rest.is_prefix_of(path.skip(1)) {
                    assert(q =~= path.take(q.len() as int));
                }
            }
            assert(below(m, one).dom().contains(rest) <==> m.dom().contains(q));
        } else if q.is_prefix_of(path) {
            if q.len() > 0 {
                assert(q[0] == path.take(q.len() as int)[0]);
                assert(one =~= q.take(1));
            }
            assert(q =~= seq![]);
        }
    }
    assert(left =~= right);
}

impl Topic {
    /// The position of the next level under `level`, which is made if it is not there.
    fn child_or_new(&mut self, level: &str) -> (r: usize)
        requires
            old(self).well_formed(),
        ensures
            final(self).well_formed(),
            first_at(final(self).topics@, level@, r as int),
            final(self)@ == (if old(self)@.dom().contains(seq![level@]) {
                old(self)@
            } else {
                old(self)@.insert(seq![level@], fresh_node(None))
            }),
    {
        let ghost before = *self;
        let ghost one: Path = seq![level@];
        proof {
            assert(one.skip(1) =~= seq![]);
            assert(find(before, one) == child(before.topics@, level@)) by {
                match child(before.topics@, level@) {
                    Some(c) => {
                        assert(find(c, one.skip(1)) == Some(c));
                    },
                    None => {},
                }
            }
        }
        match self.position(level) {
            Some(i) => {
                proof {
                    lemma_child_first(before.topics@, level@, i as int);
                }
                i
            },
            None => {
                let i = self.topics.len();
                self.topics.push((level.to_owned(), Topic::new(None)));
                proof {
                    assert(self.topics@.drop_last() =~= before.topics@);
                    lemma_push_child(before, *self, level@);
                }
                i
            },
        }
    }

    /// Makes the first `n` levels of a path, counted from `from`.
    pub(crate) fn reach(&mut self, levels: &Vec<String>, from: usize, n: usize)
        requires
            from + n <= levels@.len(),
            old(self).well_formed(),
        ensures
            final(self).well_formed(),
            final(self)@ == reached(old(self)@, text::texts(levels@).skip(from as int), n as int),
        decreases n,
    {
        let ghost path = text::texts(levels@).skip(from as int);
        let ghost before = *self;
        proof {
            lemma_root(before);
        }
        if n == 0 {
            proof {
                assert(forall|q: Path| q.len() == 0 ==> q =~= seq![]);
                assert(reached(before@, path, 0) =~= before@);
            }
            return;
        }
        assert(from < levels.len());
        let i = self.child_or_new(&levels[from]);
        let ghost middle = *self;
        proof {
            assert(path[0] == levels@[from as int]@);
            assert(path.skip(1) =~= text::texts(levels@).skip(from + 1));
            lemma_child_first(middle.topics@, path[0], i as int);
            let c = middle.topics@[i as int].1;
            assert forall|p: Path| (#[trigger] find(c, p)) matches Some(t) ==> distinct(
                t.clients@,
            ) by {
                let q = seq![path[0]] + p;
                assert(q.skip(1) =~= p);
                assert(find(middle, q) == find(c, p));
            }
        }
        self.topics[i].1.reach(levels, from + 1, n - 1);
        proof {
            let one: Path = seq![path[0]];
            let part = self.topics@[i as int].1@;
            assert(one.skip(1) =~= seq![]);
            lemma_below_step(middle, i as int, one);
            assert(below(middle.topics@[i as int].1@, seq![]) =~= middle.topics@[i as int].1@) by {
                assert forall|q: Path|
                    #![trigger one.skip(1) + q]
                    one.skip(1) + q == q by {
                    assert(one.skip(1) + q =~= q);
                }
            }
            lemma_graft_root(middle.topics@[i as int].1@, part);
            assert(self.topics@ =~= middle.topics@.update(i as int, self.topics@[i as int]));
            lemma_replace_view(middle, *self, i as int, one, part);
            assert(middle@.dom().contains(one));
            lemma_root(middle);
            lemma_reached_step(middle@, path, n as int);
            assert(reached(middle@, path, n as int) =~= reached(before@, path, n as int)) by {
                assert(one =~= path.take(1));
                assert(one.is_prefix_of(path));
            }
        }
    }
}


/// Changing what is kept at the root of a tree.
proof fn lemma_change_node(before: Topic, after: Topic)
    requires
        before.well_formed(),
        after.topics == before.topics,
        distinct(after.clients@),
    ensures
        after.well_formed(),
        after@ == before@.insert(seq![], after.node()),
{
    let root: Path = seq![];
    assert forall|q: Path| q.len() > 0 implies #[trigger] find(after, q) == find(before, q) by {}
    assert forall|q: Path| q.len() == 0 implies q == root by {
        assert(q =~= root);
    }
    assert(find(after, root) == Some(after));
    assert(after@ =~= before@.insert(root, after.node()));
    assert forall|p: Path| (#[trigger] find(after, p)) matches Some(t) ==> distinct(t.clients@) by {
        if p.len() > 0 {
            assert(find(after, p) == find(before, p));
        }
    }
}

proof fn lemma_client_map_update(clients: Seq<TopicEntry>, i: int, e: TopicEntry)
    requires
        distinct(clients),
        0 <= i < clients.len(),
        clients[i].session.session@ == e.session.session@,
    ensures
        distinct(clients.update(i, e)),
        client_map(clients.update(i, e)) == client_map(clients).insert(
            e.session.session@,
            (e.session@, e.qos),
        ),
{
    let after = clients.update(i, e);
    assert forall|j: int, k: int| 0 <= j < k < after.len() implies (
    #[trigger] after[j]).session.session@ != (#[trigger] after[k]).session.session@ by {
        assert(clients[j].session.session@ != clients[k].session.session@);
    }
    let goal = client_map(clients).insert(e.session.session@, (e.session@, e.qos));
    assert forall|key: Seq<char>|
        #![trigger client_map(after).dom().contains(key)]
        #![trigger goal.dom().contains(key)]
        (client_map(after).dom().contains(key) <==> goal.dom().contains(key)) && (client_map(
            after,
        ).dom().contains(key) ==> client_map(after)[key] == goal[key]) by {
        if client_map(after).dom().contains(key) {
            let j = lemma_client_map_key(after, key);
            lemma_client_map(after, j);
            lemma_client_map(clients, j);
        }
        if goal.dom().contains(key) {
            if key == e.session.session@ {
                lemma_client_map(after, i);
            } else {
                let j = lemma_client_map_key(clients, key);
                lemma_client_map(clients, j);
                lemma_client_map(after, j);
            }
        }
    }
    assert(client_map(after) =~= goal);
}

proof fn lemma_client_map_remove(clients: Seq<TopicEntry>, i: int)
    requires
        distinct(clients),
        0 <= i < clients.len(),
    ensures
        distinct(clients.remove(i)),
        client_map(clients.remove(i)) == client_map(clients).remove(clients[i].session.session@),
{
    let after = clients.remove(i);
    assert forall|j: int| 0 <= j < after.len() implies #[trigger] after[j] == clients[if j < i {
        j
    } else {
        j + 1
    }] by {}
    assert(distinct(after)) by {
        assert forall|j: int, k: int| 0 <= j < k < after.len() implies (
        #[trigger] after[j]).session.session@ != (#[trigger] after[k]).session.session@ by {}
    }
    let goal = client_map(clients).remove(clients[i].session.session@);
    assert forall|key: Seq<char>|
        #![trigger client_map(after).dom().contains(key)]
        #![trigger goal.dom().contains(key)]
        (client_map(after).dom().contains(key) <==> goal.dom().contains(key)) && (client_map(
            after,
        ).dom().contains(key) ==> client_map(after)[key] == goal[key]) by {
        if client_map(after).dom().contains(key) {
            let j = lemma_client_map_key(after, key);
            lemma_client_map(after, j);
            let h = if j < i {
                j
            } else {
                j + 1
            };
            assert(after[j] == clients[h]);
            lemma_client_map(clients, h);
            assert(clients[h].session.session@ != clients[i].session.session@);
        }
        if goal.dom().contains(key) {
            let h = lemma_client_map_key(clients, key);
            lemma_client_map(clients, h);
            assert(h != i);
            let j = if h < i {
                h
            } else {
                h - 1
            };
            assert(after[j] == clients[h]);
            lemma_client_map(after, j);
        }
    }
    assert(client_map(after) =~= goal);
}

/// A list of subscriptions holds as many as its map.
proof fn lemma_client_map_len(clients: Seq<TopicEntry>)
    requires
        distinct(clients),
    ensures
        client_map(clients).dom().finite(),
        client_map(clients).dom().len() == clients.len(),
    decreases clients.len(),
{
    if clients.len() > 0 {
        let rest = clients.drop_last();
        assert(distinct(rest)) by {
            assert forall|j: int, k: int| 0 <= j < k < rest.len() implies (
            #[trigger] rest[j]).session.session@ != (#[trigger] rest[k]).session.session@ by {
                assert(clients[j].session.session@ != clients[k].session.session@);
            }
        }
        lemma_client_map_len(rest);
        let key = clients.last().session.session@;
        if client_map(rest).dom().contains(key) {
            let j = lemma_client_map_key(rest, key);
            assert(clients[j].session.session@ != clients[clients.len() - 1].session.session@);
        }
        assert(client_map(clients).dom() =~= client_map(rest).dom().insert(key));
    }
}

/// The key of a subscription is the name of its session.
pub proof fn lemma_client_keys(t: Topic)
    ensures
        forall|k: Seq<char>|
            t.node().clients.dom().contains(k) ==> (#[trigger] t.node().clients[k]).0.session == k,
{
    assert forall|k: Seq<char>| t.node().clients.dom().contains(k) implies (
    #[trigger] t.node().clients[k]).0.session == k by {
        lemma_client_entry_key(t.clients@, k);
    }
}

proof fn lemma_client_entry_key(clients: Seq<TopicEntry>, k: Seq<char>)
    requires
        client_map(clients).dom().contains(k),
    ensures
        client_map(clients)[k].0.session == k,
    decreases clients.len(),
{
    if clients.last().session.session@ != k {
        lemma_client_entry_key(clients.drop_last(), k);
    }
}

impl Topic {
    /// Sets the key of the topic in the persistent store.
    pub fn set_internal_id(&mut self, internal_id: Option<i32>)
        requires
            old(self).well_formed(),
        ensures
            final(self).well_formed(),
            final(self)@ == old(self)@.insert(
                seq![],
                (NodeView { internal_id, ..old(self).node() }),
            ),
            final(self).node() == (NodeView { internal_id, ..old(self).node() }),
    {
        let ghost before = *self;
        self.internal_id = internal_id;
        proof {
            assert(find(before, seq![]) == Some(before));
            lemma_change_node(before, *self);
        }
    }

    /// The key of the topic in the persistent store.
    pub fn get_internal_id(&self) -> (r: Option<i32>)
        ensures
            r == self.node().internal_id,
    {
        self.internal_id
    }

    /// How many sessions are subscribed here.
    pub fn get_num_subscribed(&self) -> (r: usize)
        requires
            self.well_formed(),
        ensures
            self.node().clients.dom().finite(),
            r == self.node().clients.dom().len(),
    {
        proof {
            assert(find(*self, seq![]) == Some(*self));
            lemma_client_map_len(self.clients@);
        }
        self.clients.len()
    }

    /// Where the subscription of a session stands.
    fn client_position(&self, client: &str) -> (r: Option<usize>)
        ensures
            match r {
                Some(i) => i < self.clients@.len() && self.clients@[i as int].session.session@
                    == client@,
                None => !client_map(self.clients@).dom().contains(client@),
            },
    {
        let mut i: usize = 0;
        while i < self.clients.len()
            invariant
                i <= self.clients@.len(),
                forall|j: int|
                    0 <= j < i ==> (#[trigger] self.clients@[j]).session.session@ != client@,
            decreases self.clients@.len() - i,
        {
            if text_equal(&self.clients[i].session.session, client) {
                return Some(i);
            }
            i += 1;
        }
        proof {
            if client_map(self.clients@).dom().contains(client@) {
                let j = lemma_client_map_key(self.clients@, client@);
                assert(self.clients@[j].session.session@ != client@);
            }
        }
        None
    }

    /// Stores the subscription of a session; `true` if it is a new one.
    pub fn set_subscribed(&mut self, session: SessionId, qos: u8) -> (r: bool)
        requires
            old(self).well_formed(),
        ensures
            final(self).well_formed(),
            r == !old(self).node().clients.dom().contains(session.session@),
            final(self).node() == (NodeView {
                clients: old(self).node().clients.insert(session.session@, (session@, qos)),
                ..old(self).node()
            }),
            final(self)@ == old(self)@.insert(seq![], final(self).node()),
    {
        let ghost before = *self;
        proof {
            assert(find(before, seq![]) == Some(before));
        }
        let found = self.client_position(&session.session);
        let entry = TopicEntry { session, qos };
        let new = match found {
            Some(i) => {
                proof {
                    lemma_client_map(before.clients@, i as int);
                    lemma_client_map_update(before.clients@, i as int, entry);
                }
                self.clients.set(i, entry);
                false
            },
            None => {
                self.clients.push(entry);
                proof {
                    assert(self.clients@.drop_last() =~= before.clients@);
                    assert(distinct(self.clients@)) by {
                        assert forall|j: int, k: int| 0 <= j < k < self.clients@.len() implies (
                        #[trigger] self.clients@[j]).session.session@ != (
                        #[trigger] self.clients@[k]).session.session@ by {
                            lemma_client_map(before.clients@, j);
                        }
                    }
                }
                true
            },
        };
        proof {
            lemma_change_node(before, *self);
        }
        new
    }

    /// Forgets the subscription of a session; `true` if there was one.
    pub fn set_unsubscribed(&mut self, client: &str) -> (r: bool)
        requires
            old(self).well_formed(),
        ensures
            final(self).well_formed(),
            r == old(self).node().clients.dom().contains(client@),
            final(self).node() == (NodeView {
                clients: old(self).node().clients.remove(client@),
                ..old(self).node()
            }),
            final(self)@ == old(self)@.insert(seq![], final(self).node()),
    {
        let ghost before = *self;
        proof {
            assert(find(before, seq![]) == Some(before));
        }
        let removed = match self.client_position(client) {
            Some(i) => {
                proof {
                    lemma_client_map(before.clients@, i as int);
                    lemma_client_map_remove(before.clients@, i as int);
                }
                let _entry = self.clients.remove(i);
                true
            },
            None => {
                assert(client_map(before.clients@).remove(client@) =~= client_map(before.clients@));
                false
            },
        };
        proof {
            lemma_change_node(before, *self);
        }
        removed
    }

    /// The quality of service of a session that is subscribed here.
    pub fn get_subscribed(&self, session: &SessionId) -> (r: Option<u8>)
        requires
            self.well_formed(),
        ensures
            r == (if self.node().clients.dom().contains(session.session@) {
                Some(self.node().clients[session.session@].1)
            } else {
                None
            }),
    {
        proof {
            assert(find(*self, seq![]) == Some(*self));
        }
        match self.client_position(&session.session) {
            Some(i) => {
                proof {
                    lemma_client_map(self.clients@, i as int);
                }
                Some(self.clients[i].qos)
            },
            None => None,
        }
    }

    /// The retained message.
    pub fn get_message(&self) -> (r: Option<&MQTTMessagePublish>)
        ensures
            match r {
                Some(m) => self.node().message == Some(m@),
                None => self.node().message is None,
            },
    {
        match &self.message {
            Some(m) => Some(m),
            None => None,
        }
    }

    /// Sets or drops the retained message.
    pub fn set_message(&mut self, message: Option<MQTTMessagePublish>)
        requires
            old(self).well_formed(),
        ensures
            final(self).well_formed(),
            final(self).node() == (NodeView {
                message: message_view(message),
                ..old(self).node()
            }),
            final(self)@ == old(self)@.insert(seq![], final(self).node()),
    {
        let ghost before = *self;
        self.message = message;
        proof {
            assert(find(before, seq![]) == Some(before));
            lemma_change_node(before, *self);
        }
    }

    /// Takes over what is kept at another level, not what is below it.
    pub(crate) fn take_node(&mut self, other: Topic)
        requires
            old(self).well_formed(),
            other.well_formed(),
        ensures
            final(self).well_formed(),
            final(self).node() == other.node(),
            final(self)@ == old(self)@.insert(seq![], other.node()),
    {
        let ghost before = *self;
        proof {
            assert(find(other, seq![]) == Some(other));
        }
        self.internal_id = other.internal_id;
        self.clients = other.clients;
        self.message = other.message;
        proof {
            lemma_change_node(before, *self);
        }
    }
}


/// Whether a tree holds together: every level has the one above it, subscriptions are
/// listed under the name of their session, and where something is kept the persistent
/// store knows the topic.
pub open spec fn tree_valid(m: Map<Path, NodeView>) -> bool {
    &&& m.dom().contains(seq![])
    &&& forall|q: Path, k: Seq<char>| #[trigger]
        m.dom().contains(q.push(k)) ==> m.dom().contains(q)
    &&& forall|q: Path| #[trigger] m.dom().contains(q) ==> node_valid(m[q])
}

/// The conditions on one level.
pub open spec fn node_valid(n: NodeView) -> bool {
    &&& forall|k: Seq<char>|
        n.clients.dom().contains(k) ==> (#[trigger] n.clients[k]).0.session == k
    &&& n.clients.dom().finite()
    &&& (n.clients.dom().len() > 0 || n.message is Some) ==> n.internal_id is Some
}

proof fn lemma_find_push(t: Topic, q: Path, k: Seq<char>)
    ensures
        find(t, q.push(k)) == match find(t, q) {
            Some(n) => child(n.topics@, k),
            None => None,
        },
    decreases q.len(),
{
    if q.len() == 0 {
        assert(q.push(k).skip(1) =~= seq![]);
        assert(q.push(k)[0] == k);
        match child(t.topics@, k) {
            Some(c) => {
                assert(find(c, q.push(k).skip(1)) == Some(c));
            },
            None => {},
        }
    } else {
        assert(q.push(k)[0] == q[0]);
        assert(q.push(k).skip(1) =~= q.skip(1).push(k));
        match child(t.topics@, q[0]) {
            Some(c) => {
                lemma_find_push(c, q.skip(1), k);
            },
            None => {},
        }
    }
}

/// Below a path and one more level.
proof fn lemma_below_below(m: Map<Path, NodeView>, p: Path, k: Seq<char>)
    ensures
        below(below(m, p), seq![k]) == below(m, p.push(k)),
        below(m, p).dom().contains(seq![k]) == m.dom().contains(p.push(k)),
{
    assert(p + seq![k] =~= p.push(k));
    assert forall|q: Path|
        #![trigger p + (seq![k] + q)]
        p + (seq![k] + q) == p.push(k) + q by {
        assert(p + (seq![k] + q) =~= p.push(k) + q);
    }
    assert(below(below(m, p), seq![k]) =~= below(m, p.push(k)));
}

impl Topic {
    /// The next level under `level`.
    fn next_level(&self, level: &str) -> (r: Option<&Topic>)
        requires
            self.well_formed(),
        ensures
            match r {
                Some(c) => {
                    &&& self@.dom().contains(seq![level@])
                    &&& c@ == below(self@, seq![level@])
                    &&& c.well_formed()
                },
                None => !self@.dom().contains(seq![level@]),
            },
    {
        let ghost one: Path = seq![level@];
        proof {
            assert(one =~= Seq::<Seq<char>>::empty().push(level@));
            lemma_find_push(*self, seq![], level@);
            assert(find(*self, one) == child(self.topics@, level@));
        }
        match self.position(level) {
            Some(i) => {
                proof {
                    lemma_child_first(self.topics@, level@, i as int);
                    lemma_below_step(*self, i as int, one);
                    let c = self.topics@[i as int].1;
                    assert(one.skip(1) =~= seq![]);
                    assert(below(c@, one.skip(1)) =~= c@) by {
                        assert forall|q: Path|
                            #![trigger one.skip(1) + q]
                            one.skip(1) + q == q by {
                            assert(one.skip(1) + q =~= q);
                        }
                    }
                    assert forall|p: Path| (#[trigger] find(c, p)) matches Some(t) ==> distinct(
                        t.clients@,
                    ) by {
                        let q = one + p;
                        assert(q.skip(1) =~= p);
                        assert(find(*self, q) == find(c, p));
                    }
                }
                Some(&self.topics[i].1)
            },
            None => None,
        }
    }

    /// The level at the end of a path.
    pub(crate) fn find_node(&self, levels: &Vec<String>) -> (r: Option<&Topic>)
        requires
            self.well_formed(),
        ensures
            match r {
                Some(t) => {
                    &&& self@.dom().contains(text::texts(levels@))
                    &&& t.node() == self@[text::texts(levels@)]
                    &&& t.well_formed()
                },
                None => !self@.dom().contains(text::texts(levels@)),
            },
    {
        let ghost path = text::texts(levels@);
        let mut current = self;
        let mut i: usize = 0;
        proof {
            assert(path.take(0) =~= seq![]);
            assert(find(*self, path.take(0)) == Some(*self));
        }
        while i < levels.len()
            invariant
                self.well_formed(),
                i <= levels@.len(),
                path == text::texts(levels@),
                find(*self, path.take(i as int)) == Some(*current),
            decreases levels@.len() - i,
        {
            proof {
                assert(path.take(i + 1) =~= path.take(i as int).push(path[i as int]));
                lemma_find_push(*self, path.take(i as int), path[i as int]);
            }
            match current.position(&levels[i]) {
                Some(at) => {
                    proof {
                        lemma_child_first(current.topics@, path[i as int], at as int);
                    }
                    current = &current.topics[at].1;
                    i += 1;
                },
                None => {
                    proof {
                        lemma_find_prefix(*self, path, i + 1);
                    }
                    return None;
                },
            }
        }
        proof {
            assert(path.take(i as int) =~= path);
            assert forall|p: Path| (#[trigger] find(*current, p)) matches Some(t) ==> distinct(
                t.clients@,
            ) by {
                lemma_find_append(*self, path, p);
            }
        }
        Some(current)
    }
}

proof fn lemma_find_append(t: Topic, p: Path, q: Path)
    ensures
        find(t, p + q) == match find(t, p) {
            Some(n) => find(n, q),
            None => None,
        },
    decreases p.len(),
{
    if p.len() == 0 {
        assert(p + q =~= q);
    } else {
        assert((p + q)[0] == p[0]);
        assert((p + q).skip(1) =~= p.skip(1) + q);
        match child(t.topics@, p[0]) {
            Some(c) => {
                lemma_find_append(c, p.skip(1), q);
            },
            None => {},
        }
    }
}

proof fn lemma_find_prefix(t: Topic, path: Path, n: int)
    requires
        0 <= n <= path.len(),
        find(t, path.take(n)) is None,
    ensures
        find(t, path) is None,
{
    assert(path =~= path.take(n) + path.skip(n));
    lemma_find_append(t, path.take(n), path.skip(n));
}

/// A tree has its root, and with every level the one above it; subscriptions are listed
/// under the name of their session.
pub proof fn lemma_tree(t: Topic)
    requires
        t.well_formed(),
    ensures
        t@.dom().contains(seq![]),
        forall|q: Path, k: Seq<char>| #[trigger]
            t@.dom().contains(q.push(k)) ==> t@.dom().contains(q),
        forall|q: Path| #[trigger]
            t@.dom().contains(q) ==> {
                &&& t@[q].clients.dom().finite()
                &&& forall|k: Seq<char>|
                    t@[q].clients.dom().contains(k) ==> (
                    #[trigger] t@[q].clients[k]).0.session == k
            },
{
    lemma_root(t);
    assert forall|q: Path, k: Seq<char>| #[trigger] t@.dom().contains(q.push(k)) implies t@.dom().contains(
        q,
    ) by {
        lemma_find_push(t, q, k);
    }
    assert forall|q: Path| #[trigger] t@.dom().contains(q) implies {
        &&& t@[q].clients.dom().finite()
        &&& forall|k: Seq<char>|
            t@[q].clients.dom().contains(k) ==> (#[trigger] t@[q].clients[k]).0.session == k
    } by {
        let n = find(t, q)->0;
        assert(find(t, q) == Some(n));
        lemma_client_map_len(n.clients@);
        lemma_client_keys(n);
    }
}

/// The subscriptions at a level, by session.
pub open spec fn subscribers(clients: Map<Seq<char>, (SessionIdView, u8)>) -> Map<
    SessionIdView,
    u8,
> {
    Map::new(
        |s: SessionIdView| clients.dom().contains(s.session) && clients[s.session].0 == s,
        |s: SessionIdView| clients[s.session].1,
    )
}

/// The levels `#` right below the levels of a frontier.
pub open spec fn hash_levels(m: Map<Path, NodeView>, frontier: Seq<Path>) -> Seq<Path>
    decreases frontier.len(),
{
    if frontier.len() == 0 {
        seq![]
    } else {
        let p = frontier.last().push("#"@);
        hash_levels(m, frontier.drop_last()) + if m.dom().contains(p) {
            seq![p]
        } else {
            seq![]
        }
    }
}

/// The levels right below those of a frontier that match a level of a topic.
pub open spec fn next_levels(m: Map<Path, NodeView>, frontier: Seq<Path>, level: Seq<char>) -> Seq<
    Path,
>
    decreases frontier.len(),
{
    if frontier.len() == 0 {
        seq![]
    } else {
        let plus = frontier.last().push("+"@);
        let same = frontier.last().push(level);
        next_levels(m, frontier.drop_last(), level) + (if m.dom().contains(plus) {
            seq![plus]
        } else {
            seq![]
        }) + (if m.dom().contains(same) {
            seq![same]
        } else {
            seq![]
        })
    }
}

/// The levels whose subscriptions match a topic, in the order in which they count: where
/// a session occurs more than once, the last one does.
pub open spec fn matching_levels(m: Map<Path, NodeView>, frontier: Seq<Path>, levels: Path) -> Seq<
    Path,
>
    decreases levels.len(),
{
    if levels.len() == 0 {
        frontier
    } else {
        hash_levels(m, frontier) + matching_levels(
            m,
            next_levels(m, frontier, levels[0]),
            levels.skip(1),
        )
    }
}

/// The sessions subscribed at the given levels, with the quality of service that the last
/// of them gives.
pub open spec fn subscribed_at(m: Map<Path, NodeView>, levels: Seq<Path>) -> Map<SessionIdView, u8>
    decreases levels.len(),
{
    if levels.len() == 0 {
        Map::empty()
    } else {
        subscribed_at(m, levels.drop_last()).union_prefer_right(
            subscribers(m[levels.last()].clients),
        )
    }
}

/// Who gets a message that is published to a topic.
pub open spec fn topic_subscribers(m: Map<Path, NodeView>, levels: Path) -> Map<
    SessionIdView,
    u8,
> {
    subscribed_at(m, matching_levels(m, seq![seq![]], levels))
}

proof fn lemma_subscribed_push(m: Map<Path, NodeView>, levels: Seq<Path>, p: Path)
    ensures
        subscribed_at(m, levels.push(p)) == subscribed_at(m, levels).union_prefer_right(
            subscribers(m[p].clients),
        ),
{
    assert(levels.push(p).drop_last() =~= levels);
}

proof fn lemma_no_frontier(m: Map<Path, NodeView>, levels: Path)
    ensures
        matching_levels(m, seq![], levels) == Seq::<Path>::empty(),
    decreases levels.len(),
{
    if levels.len() > 0 {
        lemma_no_frontier(m, levels.skip(1));
        assert(matching_levels(m, seq![], levels) =~= Seq::<Path>::empty());
    }
}

impl Topic {
    /// Adds the sessions that are subscribed at this level.
    fn add_clients(&self, found: &mut Subscribers)
        requires
            self.well_formed(),
            old(found).well_formed(),
        ensures
            final(found).well_formed(),
            final(found)@ == old(found)@.union_prefer_right(subscribers(self.node().clients)),
    {
        let ghost before = found@;
        let ghost list = self.clients@;
        proof {
            assert(find(*self, seq![]) == Some(*self));
            assert(list.take(0) =~= seq![]);
            assert(before.union_prefer_right(subscribers(client_map(list.take(0)))) =~= before);
        }
        let mut i: usize = 0;
        while i < self.clients.len()
            invariant
                i <= list.len(),
                list == self.clients@,
                distinct(list),
                found.well_formed(),
                found@ == before.union_prefer_right(subscribers(client_map(list.take(i as int)))),
            decreases list.len() - i,
        {
            let e = &self.clients[i];
            proof {
                let done = list.take(i as int);
                let next = list.take(i + 1);
                assert(next.drop_last() =~= done);
                assert(next.last() == list[i as int]);
                assert(!client_map(done).dom().contains(e.session.session@)) by {
                    if client_map(done).dom().contains(e.session.session@) {
                        let j = lemma_client_map_key(done, e.session.session@);
                        assert(list[j].session.session@ != list[i as int].session.session@);
                    }
                }
                assert(subscribers(client_map(next)) =~= subscribers(client_map(done)).insert(
                    e.session@,
                    e.qos,
                ));
                assert(before.union_prefer_right(subscribers(client_map(next)))
                    =~= before.union_prefer_right(subscribers(client_map(done))).insert(
                    e.session@,
                    e.qos,
                ));
            }
            found.insert(e.session.clone(), e.qos);
            i += 1;
        }
        assert(list.take(i as int) =~= list);
    }

    /// Who gets a message that is published to a topic.
    pub(crate) fn find_subscribed(&self, levels: &Vec<String>) -> (r: Subscribers)
        requires
            self.well_formed(),
        ensures
            r.well_formed(),
            r@ == topic_subscribers(self@, text::texts(levels@)),
    {
        let ghost m = self@;
        let ghost path = text::texts(levels@);
        let mut found = Subscribers::new();
        let mut frontier: Vec<&Topic> = Vec::new();
        frontier.push(self);
        let ghost mut paths: Seq<Path> = seq![seq![]];
        let ghost mut visited: Seq<Path> = seq![];
        let mut i: usize = 0;
        proof {
            lemma_root(*self);
            assert(below(m, seq![]) =~= m) by {
                let root: Path = seq![];
                assert forall|q: Path|
                    #![trigger root + q]
                    root + q == q by {
                    assert(root + q =~= q);
                }
            }
            assert(path.skip(0) =~= path);
            assert(visited + matching_levels(m, paths, path) =~= matching_levels(m, paths, path));
        }
        while i < levels.len()
            invariant
                i <= levels@.len(),
                m == self@,
                path == text::texts(levels@),
                found.well_formed(),
                found@ == subscribed_at(m, visited),
                frontier@.len() == paths.len(),
                forall|j: int|
                    0 <= j < paths.len() ==> (#[trigger] frontier@[j]).well_formed()
                        && m.dom().contains(paths[j]) && frontier@[j]@ == below(m, paths[j]),
                visited + matching_levels(m, paths, path.skip(i as int)) == matching_levels(
                    m,
                    seq![seq![]],
                    path,
                ),
            decreases levels@.len() - i,
        {
            let ghost start = visited;
            let mut next: Vec<&Topic> = Vec::new();
            let ghost mut next_paths: Seq<Path> = seq![];
            let mut j: usize = 0;
            proof {
                assert(paths.take(0) =~= seq![]);
                assert(start + hash_levels(m, paths.take(0)) =~= start);
            }
            while j < frontier.len()
                invariant
                    i < levels@.len(),
                    j <= frontier@.len(),
                    m == self@,
                    path == text::texts(levels@),
                    found.well_formed(),
                    found@ == subscribed_at(m, visited),
                    visited == start + hash_levels(m, paths.take(j as int)),
                    next_paths == next_levels(m, paths.take(j as int), path[i as int]),
                    frontier@.len() == paths.len(),
                    forall|h: int|
                        0 <= h < paths.len() ==> (#[trigger] frontier@[h]).well_formed()
                            && m.dom().contains(paths[h]) && frontier@[h]@ == below(m, paths[h]),
                    next@.len() == next_paths.len(),
                    forall|h: int|
                        0 <= h < next_paths.len() ==> (#[trigger] next@[h]).well_formed()
                            && m.dom().contains(next_paths[h]) && next@[h]@ == below(
                            m,
                            next_paths[h],
                        ),
                decreases frontier@.len() - j,
            {
                let t = frontier[j];
                let ghost p = paths[j as int];
                proof {
                    assert(paths.take(j + 1).drop_last() =~= paths.take(j as int));
                    assert(paths.take(j + 1).last() == p);
                    lemma_below_below(m, p, "#"@);
                    lemma_below_below(m, p, "+"@);
                    lemma_below_below(m, p, path[i as int]);
                }
                match t.next_level("#") {
                    Some(c) => {
                        c.add_clients(&mut found);
                        proof {
                            let hash = p.push("#"@);
                            lemma_root(*c);
                            assert(hash + seq![] =~= hash);
                            lemma_subscribed_push(m, visited, hash);
                            visited = visited.push(hash);
                            assert(visited =~= start + (hash_levels(m, paths.take(j as int))
                                + seq![hash]));
                        }
                    },
                    None => {
                        assert(hash_levels(m, paths.take(j + 1)) =~= hash_levels(
                            m,
                            paths.take(j as int),
                        ));
                    },
                }
                let ghost at_first = next_paths;
                match t.next_level("+") {
                    Some(c) => {
                        next.push(c);
                        proof {
                            next_paths = next_paths.push(p.push("+"@));
                        }
                    },
                    None => {},
                }
                match t.next_level(&levels[i]) {
                    Some(c) => {
                        next.push(c);
                        proof {
                            next_paths = next_paths.push(p.push(path[i as int]));
                        }
                    },
                    None => {},
                }
                assert(next_paths =~= next_levels(m, paths.take(j + 1), path[i as int]));
                j += 1;
            }
            proof {
                assert(paths.take(j as int) =~= paths);
                let rest = path.skip(i as int);
                assert(rest[0] == path[i as int]);
                assert(rest.skip(1) =~= path.skip(i + 1));
                assert(start + (hash_levels(m, paths) + matching_levels(
                    m,
                    next_paths,
                    rest.skip(1),
                )) =~= visited + matching_levels(m, next_paths, rest.skip(1)));
                paths = next_paths;
            }
            frontier = next;
            i += 1;
            if frontier.len() == 0 {
                proof {
                    assert(paths =~= seq![]);
                    lemma_no_frontier(m, path.skip(i as int));
                    assert(visited =~= matching_levels(m, seq![seq![]], path));
                }
                return found;
            }
        }
        let ghost before = visited;
        assert(path.skip(i as int) =~= seq![]);
        let mut j: usize = 0;
        assert(before + paths.take(0) =~= before);
        while j < frontier.len()
            invariant
                j <= frontier@.len(),
                m == self@,
                found.well_formed(),
                found@ == subscribed_at(m, before + paths.take(j as int)),
                frontier@.len() == paths.len(),
                forall|h: int|
                    0 <= h < paths.len() ==> (#[trigger] frontier@[h]).well_formed()
                        && m.dom().contains(paths[h]) && frontier@[h]@ == below(m, paths[h]),
            decreases frontier@.len() - j,
        {
            let t = frontier[j];
            t.add_clients(&mut found);
            proof {
                let p = paths[j as int];
                lemma_root(*t);
                assert(p + seq![] =~= p);
                lemma_subscribed_push(m, before + paths.take(j as int), p);
                assert((before + paths.take(j as int)).push(p) =~= before + paths.take(j + 1));
            }
            j += 1;
        }
        assert(paths.take(j as int) =~= paths);
        found
    }
}

} // verus!
