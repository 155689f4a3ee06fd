//! The brokers that run.

use crate::broker::BrokerId;
use crate::broker::BrokerIdView;
use vstd::prelude::*;

verus! {

/// The brokers in the order in which they were started.
pub struct Brokers {
    ids: Vec<BrokerId>,
}

impl View for Brokers {
    type V = Seq<BrokerIdView>;

    closed spec fn view(&self) -> Seq<BrokerIdView> {
        self.ids@.map_values(|id: BrokerId| id@)
    }
}

impl Brokers {
    /// No brokers.
    pub fn new() -> (r: Brokers)
        ensures
            r@ == Seq::<BrokerIdView>::empty(),
    {
        let r = Brokers { ids: Vec::new() };
        assert(r@ =~= Seq::<BrokerIdView>::empty());
        r
    }

    /// The position of a broker, and whether it has to be started because it is new.
    pub fn get_broker(&mut self, id: &BrokerId) -> (r: (usize, bool))
        ensures
            r.1 == !old(self)@.contains(id@),
            final(self)@ == (if r.1 {
                old(self)@.push(id@)
            } else {
                old(self)@
            }),
            r.0 < final(self)@.len(),
            final(self)@[r.0 as int] == id@,
            r.1 ==> r.0 == old(self)@.len(),
    {
        let ghost before = self@;
        let mut i: usize = 0;
        while i < self.ids.len()
            invariant
                i <= self.ids@.len(),
                before == self@,
                before == old(self)@,
                forall|j: int| 0 <= j < i ==> #[trigger] before[j] != id@,
            decreases self.ids@.len() - i,
        {
            if self.ids[i].same(id) {
                assert(before[i as int] == id@);
                return (i, false);
            }
            i += 1;
        }
        self.ids.push(id.clone());
        assert(self@ =~= before.push(id@));
        (i, true)
    }
}

/// No broker is started twice.
pub proof fn law_brokers_distinct(ids: Seq<BrokerIdView>, id: BrokerIdView)
    requires
        ids.no_duplicates(),
    ensures
        (if ids.contains(id) {
            ids
        } else {
            ids.push(id)
        }).no_duplicates(),
{
}

} // verus!
