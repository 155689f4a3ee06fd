//! A list of names without repetition.

use crate::text;
use crate::text::text_equal;
use vstd::prelude::*;

verus! {

/// Names in the order in which they came, none of them twice.
pub struct Names {
    names: Vec<String>,
}

impl View for Names {
    type V = Seq<Seq<char>>;

    closed spec fn view(&self) -> Seq<Seq<char>> {
        text::texts(self.names@)
    }
}

/// A list with a name in it.
pub open spec fn with_name(list: Seq<Seq<char>>, name: Seq<char>) -> Seq<Seq<char>> {
    if list.contains(name) {
        list
    } else {
        list.push(name)
    }
}

/// A list with several names in it.
pub open spec fn with_names(list: Seq<Seq<char>>, names: Seq<Seq<char>>) -> Seq<Seq<char>>
    decreases names.len(),
{
    if names.len() == 0 {
        list
    } else {
        with_name(with_names(list, names.drop_last()), names.last())
    }
}

/// A list without several names.
pub open spec fn without_names(list: Seq<Seq<char>>, names: Seq<Seq<char>>) -> Seq<Seq<char>> {
    list.filter(|n: Seq<char>| !names.contains(n))
}

impl Names {
    /// No names.
    pub fn new() -> (r: Names)
        ensures
            r@ == Seq::<Seq<char>>::empty(),
    {
        let r = Names { names: Vec::new() };
        assert(r@ =~= Seq::<Seq<char>>::empty());
        r
    }

    /// Whether a name is in the list.
    pub fn contains(&self, name: &str) -> (r: bool)
        ensures
            r == self@.contains(name@),
    {
        let mut i: usize = 0;
        while i < self.names.len()
            invariant
                i <= self.names@.len(),
                forall|j: int| 0 <= j < i ==> #[trigger] self@[j] != name@,
            decreases self.names@.len() - i,
        {
            if text_equal(&self.names[i], name) {
                assert(self@[i as int] == name@);
                return true;
            }
            i += 1;
        }
        false
    }

    /// Adds a name.
    pub fn insert(&mut self, name: String)
        ensures
            final(self)@ == with_name(old(self)@, name@),
    {
        if !self.contains(&name) {
            let ghost before = self@;
            self.names.push(name);
            assert(self@ =~= before.push(name@));
        }
    }

    /// Adds several names.
    pub fn insert_all(&mut self, names: Vec<String>)
        ensures
            final(self)@ == with_names(old(self)@, text::texts(names@)),
    {
        let ghost list = text::texts(names@);
        let ghost before = self@;
        let mut i: usize = 0;
        assert(list.take(0) =~= seq![]);
        while i < names.len()
            invariant
                i <= names@.len(),
                list == text::texts(names@),
                self@ == with_names(before, list.take(i as int)),
            decreases names@.len() - i,
        {
            assert(list.take(i + 1).drop_last() =~= list.take(i as int));
            self.insert(names[i].clone());
            i += 1;
        }
        assert(list.take(i as int) =~= list);
    }

    /// Removes all names that are listed.
    pub fn remove_all(&mut self, names: &Vec<String>)
        ensures
            final(self)@ == without_names(old(self)@, text::texts(names@)),
    {
        let ghost gone = text::texts(names@);
        let ghost keep = |n: Seq<char>| !gone.contains(n);
        let ghost list = self@;
        let mut kept: Vec<String> = Vec::new();
        let mut i: usize = 0;
        proof {
            assert(list.take(0) =~= seq![]);
            reveal(Seq::filter);
            assert(text::texts(kept@) =~= list.take(0).filter(keep));
        }
        while i < self.names.len()
            invariant
                i <= self.names@.len(),
                list == self@,
                gone == text::texts(names@),
                keep == |n: Seq<char>| !gone.contains(n),
                text::texts(kept@) == list.take(i as int).filter(keep),
            decreases self.names@.len() - i,
        {
            let ghost before = text::texts(kept@);
            proof {
                assert(list.take(i + 1).drop_last() =~= list.take(i as int));
                assert(list.take(i + 1).last() == list[i as int]);
                reveal(Seq::filter);
            }
            if !listed(names, &self.names[i]) {
                kept.push(self.names[i].clone());
                assert(text::texts(kept@) =~= before.push(list[i as int]));
            }
            i += 1;
        }
        assert(list.take(i as int) =~= list);
        self.names = kept;
    }

    /// The names.
    pub fn to_vec(&self) -> (r: Vec<String>)
        ensures
            text::texts(r@) == self@,
    {
        text::clone_strings(&self.names)
    }

    /// Removes all names.
    pub fn clear(&mut self)
        ensures
            final(self)@ == Seq::<Seq<char>>::empty(),
    {
        self.names = Vec::new();
        assert(self@ =~= Seq::<Seq<char>>::empty());
    }
}

/// Whether a string is in a list.
fn listed(names: &Vec<String>, name: &str) -> (r: bool)
    ensures
        r == text::texts(names@).contains(name@),
{
    let ghost list = text::texts(names@);
    let mut i: usize = 0;
    while i < names.len()
        invariant
            i <= names@.len(),
            list == text::texts(names@),
            forall|j: int| 0 <= j < i ==> #[trigger] list[j] != name@,
        decreases names@.len() - i,
    {
        if text_equal(&names[i], name) {
            assert(list[i as int] == name@);
            return true;
        }
        i += 1;
    }
    false
}

} // verus!
