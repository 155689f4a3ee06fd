//! The sessions that get a message.

use super::router::SessionId;
use super::router::SessionIdView;
use vstd::prelude::*;

verus! {

/// A list of sessions, each with a quality of service.
pub struct Subscribers {
    entries: Vec<(SessionId, u8)>,
}

/// A list as a map; of two entries for a session the later one counts.
pub open spec fn entry_map(entries: Seq<(SessionId, u8)>) -> Map<SessionIdView, u8>
    decreases entries.len(),
{
    if entries.len() == 0 {
        Map::empty()
    } else {
        entry_map(entries.drop_last()).insert(entries.last().0@, entries.last().1)
    }
}

/// No session is listed twice.
pub open spec fn entries_distinct(entries: Seq<(SessionId, u8)>) -> bool {
    forall|i: int, j: int|
        0 <= i < j < entries.len() ==> (#[trigger] entries[i]).0@ != (#[trigger] entries[j]).0@
}

impl View for Subscribers {
    type V = Map<SessionIdView, u8>;

    closed spec fn view(&self) -> Map<SessionIdView, u8> {
        entry_map(self.entries@)
    }
}

proof fn lemma_entry_map(entries: Seq<(SessionId, u8)>, i: int)
    requires
        entries_distinct(entries),
        0 <= i < entries.len(),
    ensures
        entry_map(entries).dom().contains(entries[i].0@),
        entry_map(entries)[entries[i].0@] == entries[i].1,
    decreases entries.len(),
{
    if i < entries.len() - 1 {
        assert(entries_distinct(entries.drop_last()));
        assert(entries.drop_last()[i] == entries[i]);
        lemma_entry_map(entries.drop_last(), i);
        assert(entries[i].0@ != entries[entries.len() - 1].0@);
    }
}

proof fn lemma_entry_key(entries: Seq<(SessionId, u8)>, key: SessionIdView) -> (i: int)
    requires
        entry_map(entries).dom().contains(key),
    ensures
        0 <= i < entries.len(),
        entries[i].0@ == key,
    decreases entries.len(),
{
    if entries.last().0@ == key {
        entries.len() - 1
    } else {
        lemma_entry_key(entries.drop_last(), key)
    }
}

proof fn lemma_entry_update(entries: Seq<(SessionId, u8)>, i: int, e: (SessionId, u8))
    requires
        entries_distinct(entries),
        0 <= i < entries.len(),
        entries[i].0@ == e.0@,
    ensures
        entries_distinct(entries.update(i, e)),
        entry_map(entries.update(i, e)) == entry_map(entries).insert(e.0@, e.1),
{
    let after = entries.update(i, e);
    assert forall|j: int, k: int| 0 <= j < k < after.len() implies (#[trigger] after[j]).0@ != (
    #[trigger] after[k]).0@ by {
        assert(entries[j].0@ != entries[k].0@);
    }
    let goal = entry_map(entries).insert(e.0@, e.1);
    assert forall|key: SessionIdView|
        #![trigger entry_map(after).dom().contains(key)]
        #![trigger goal.dom().contains(key)]
        (entry_map(after).dom().contains(key) <==> goal.dom().contains(key)) && (entry_map(
            after,
        ).dom().contains(key) ==> entry_map(after)[key] == goal[key]) by {
        if entry_map(after).dom().contains(key) {
            let j = lemma_entry_key(after, key);
            lemma_entry_map(after, j);
            lemma_entry_map(entries, j);
        }
        if goal.dom().contains(key) {
            if key == e.0@ {
                lemma_entry_map(after, i);
            } else {
                let j = lemma_entry_key(entries, key);
                lemma_entry_map(entries, j);
                lemma_entry_map(after, j);
            }
        }
    }
    assert(entry_map(after) =~= goal);
}

impl Subscribers {
    /// Each session has one entry.
    pub closed spec fn well_formed(&self) -> bool {
        entries_distinct(self.entries@)
    }

    /// No sessions.
    pub fn new() -> (r: Subscribers)
        ensures
            r.well_formed(),
            r@ == Map::<SessionIdView, u8>::empty(),
    {
        Subscribers { entries: Vec::new() }
    }

    /// Where the entry of a session stands.
    fn position(&self, session: &SessionId) -> (r: Option<usize>)
        ensures
            match r {
                Some(i) => i < self.entries@.len() && self.entries@[i as int].0@ == session@,
                None => !entry_map(self.entries@).dom().contains(session@),
            },
    {
        let mut i: usize = 0;
        while i < self.entries.len()
            invariant
                i <= self.entries@.len(),
                forall|j: int| 0 <= j < i ==> (#[trigger] self.entries@[j]).0@ != session@,
            decreases self.entries@.len() - i,
        {
            if self.entries[i].0.same(session) {
                return Some(i);
            }
            i += 1;
        }
        proof {
            if entry_map(self.entries@).dom().contains(session@) {
                let j = lemma_entry_key(self.entries@, session@);
                assert(self.entries@[j].0@ != session@);
            }
        }
        None
    }

    /// Sets the quality of service of a session.
    pub fn insert(&mut self, session: SessionId, qos: u8)
        requires
            old(self).well_formed(),
        ensures
            final(self).well_formed(),
            final(self)@ == old(self)@.insert(session@, qos),
    {
        let ghost before = self.entries@;
        match self.position(&session) {
            Some(i) => {
                let entry = (session, qos);
                proof {
                    lemma_entry_update(before, i as int, entry);
                }
                self.entries.set(i, entry);
            },
            None => {
                self.entries.push((session, qos));
                proof {
                    assert(self.entries@.drop_last() =~= before);
                    assert forall|j: int, k: int| 0 <= j < k < self.entries@.len() implies (
                    #[trigger] self.entries@[j]).0@ != (#[trigger] self.entries@[k]).0@ by {
                        lemma_entry_map(before, j);
                    }
                }
            },
        }
    }

    /// The quality of service of a session.
    pub fn get(&self, session: &SessionId) -> (r: Option<u8>)
        requires
            self.well_formed(),
        ensures
            r == (if self@.dom().contains(session@) {
                Some(self@[session@])
            } else {
                None
            }),
    {
        match self.position(session) {
            Some(i) => {
                proof {
                    lemma_entry_map(self.entries@, i as int);
                }
                Some(self.entries[i].1)
            },
            None => None,
        }
    }

    /// Whether a session is listed.
    pub fn contains_key(&self, session: &SessionId) -> (r: bool)
        requires
            self.well_formed(),
        ensures
            r == self@.dom().contains(session@),
    {
        self.get(session).is_some()
    }

    /// The entries, one for each session.
    pub fn into_entries(self) -> (r: Vec<(SessionId, u8)>)
        requires
            self.well_formed(),
        ensures
            entries_distinct(r@),
            entry_map(r@) == self@,
    {
        self.entries
    }
}

} // verus!
