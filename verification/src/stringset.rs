//! A set of strings kept in a vector without repeats.
use vstd::prelude::*;
use crate::text::{strings_view, strs_view};

verus! {

/// A finite set of strings: the tags of a file, or the paths that are
/// ignored. The items are kept in the order in which they came in.
#[derive(Debug)]
pub struct StringSet {
    pub items: Vec<String>,
}

impl View for StringSet {
    type V = Set<Seq<char>>;

    open spec fn view(&self) -> Set<Seq<char>> {
        strings_view(self.items@).to_set()
    }
}

impl StringSet {
    /// No item occurs twice.
    pub open spec fn wf(&self) -> bool {
        strings_view(self.items@).no_duplicates()
    }

    /// The items as a sequence, in order.
    pub open spec fn seq(&self) -> Seq<Seq<char>> {
        strings_view(self.items@)
    }

    /// The empty set.
    pub fn new() -> (r: StringSet)
        ensures
            r.wf(),
            r@ == Set::<Seq<char>>::empty(),
    {
        let r = StringSet { items: Vec::new() };
        assert(r@ =~= Set::<Seq<char>>::empty());
        r
    }

    /// Where `s` stands in the items, if it is there.
    pub fn position(&self, s: &str) -> (r: Option<usize>)
        ensures
            match r {
                Some(i) => i < self.items@.len() && self.items@[i as int]@ == s@,
                None => !self@.contains(s@),
            },
    {
        let key = s.to_owned();
        let mut i: usize = 0;
        while i < self.items.len()
            invariant
                key@ == s@,
                i <= self.items@.len(),
                forall|j: int| 0 <= j < i ==> self.items@[j]@ != s@,
            decreases self.items@.len() - i,
        {
            if self.items[i] == key {
                return Some(i);
            }
            i = i + 1;
        }
        assert forall|x: Seq<char>| self@.contains(x) implies x != s@ by {
            let j = choose|j: int| 0 <= j < self.seq().len() && self.seq()[j] == x;
            assert(self.seq()[j] == self.items@[j]@);
        }
        None
    }

    /// Whether `s` is in the set.
    pub fn contains(&self, s: &str) -> (r: bool)
        ensures
            r == self@.contains(s@),
    {
        match self.position(s) {
            Some(i) => {
                assert(self.seq()[i as int] == s@);
                true
            },
            None => false,
        }
    }

    /// Adds `s`; says whether it was new.
    pub fn insert(&mut self, s: String) -> (r: bool)
        requires
            old(self).wf(),
        ensures
            final(self).wf(),
            final(self)@ == old(self)@.insert(s@),
            r == !old(self)@.contains(s@),
    {
        if self.contains(s.as_str()) {
            assert(self@ =~= old(self)@.insert(s@));
            false
        } else {
            let ghost sv = s@;
            self.items.push(s);
            assert(self.seq() =~= old(self).seq().push(sv));
            proof {
                old(self).seq().lemma_push_to_set_commute(sv);
            }
            true
        }
    }

    /// Takes `s` out; says whether it was there.
    pub fn remove(&mut self, s: &str) -> (r: bool)
        requires
            old(self).wf(),
        ensures
            final(self).wf(),
            final(self)@ == old(self)@.remove(s@),
            r == old(self)@.contains(s@),
    {
        match self.position(s) {
            Some(i) => {
                assert(self.seq()[i as int] == s@);
                self.items.remove(i);
                assert(self.seq() =~= old(self).seq().remove(i as int));
                assert forall|x: Seq<char>| self@.contains(x) <==> old(self)@.remove(s@).contains(
                    x,
                ) by {
                    if old(self)@.remove(s@).contains(x) {
                        let j = choose|j: int|
                            0 <= j < old(self).seq().len() && old(self).seq()[j] == x;
                        if j < i {
                            assert(self.seq()[j] == x);
                        } else {
                            assert(self.seq()[j - 1] == x);
                        }
                    }
                    if self@.contains(x) {
                        let j = choose|j: int| 0 <= j < self.seq().len() && self.seq()[j] == x;
                        if j < i {
                            assert(old(self).seq()[j] == x);
                        } else {
                            assert(old(self).seq()[j + 1] == x);
                        }
                    }
                }
                assert(self@ =~= old(self)@.remove(s@));
                true
            },
            None => {
                assert(self@ =~= old(self)@.remove(s@));
                false
            },
        }
    }

    /// The number of items.
    pub fn len(&self) -> (r: usize)
        requires
            self.wf(),
        ensures
            r == self@.len(),
    {
        proof {
            self.seq().unique_seq_to_set();
        }
        self.items.len()
    }

    /// Removes every item.
    pub fn clear(&mut self)
        ensures
            final(self).wf(),
            final(self)@ == Set::<Seq<char>>::empty(),
    {
        self.items.clear();
        assert(self@ =~= Set::<Seq<char>>::empty());
    }

    /// A copy of the set, with the items in the same order.
    pub fn copy(&self) -> (r: StringSet)
        ensures
            r.seq() == self.seq(),
            r@ == self@,
            r.wf() == self.wf(),
    {
        let mut items: Vec<String> = Vec::new();
        let mut i: usize = 0;
        while i < self.items.len()
            invariant
                i <= self.items@.len(),
                strings_view(items@) =~= self.seq().take(i as int),
            decreases self.items@.len() - i,
        {
            let ghost before = strings_view(items@);
            items.push(self.items[i].clone());
            assert(strings_view(items@) =~= before.push(self.seq()[i as int]));
            assert(self.seq().take(i + 1) =~= self.seq().take(i as int).push(self.seq()[i as int]));
            i = i + 1;
        }
        assert(self.seq().take(self.items@.len() as int) =~= self.seq());
        StringSet { items }
    }

    /// Adds every item of `other`.
    pub fn extend(&mut self, other: &StringSet)
        requires
            old(self).wf(),
        ensures
            final(self).wf(),
            final(self)@ == old(self)@.union(other@),
    {
        let mut i: usize = 0;
        while i < other.items.len()
            invariant
                self.wf(),
                i <= other.items@.len(),
                self@ == old(self)@.union(other.seq().take(i as int).to_set()),
            decreases other.items@.len() - i,
        {
            let item = other.items[i].clone();
            self.insert(item);
            assert(other.seq().take(i + 1).to_set() =~= other.seq().take(i as int).to_set().insert(
                other.seq()[i as int],
            )) by {
                assert(other.seq().take(i + 1) =~= other.seq().take(i as int).push(
                    other.seq()[i as int],
                ));
                other.seq().take(i as int).lemma_push_to_set_commute(other.seq()[i as int]);
            }
            i = i + 1;
            assert(self@ =~= old(self)@.union(other.seq().take(i as int).to_set()));
        }
        assert(other.seq().take(other.items@.len() as int) =~= other.seq());
    }

    /// The set of the given strings.
    pub fn from_strs(strs: &[&str]) -> (r: StringSet)
        ensures
            r.wf(),
            r@ == strs_view(strs@).to_set(),
    {
        let mut r = StringSet::new();
        let ghost all = strs_view(strs@);
        let mut i: usize = 0;
        while i < strs.len()
            invariant
                r.wf(),
                i <= strs@.len(),
                all == strs_view(strs@),
                r@ == all.take(i as int).to_set(),
            decreases strs@.len() - i,
        {
            r.insert(strs[i].to_owned());
            assert(all.take(i + 1) =~= all.take(i as int).push(all[i as int]));
            proof {
                all.take(i as int).lemma_push_to_set_commute(all[i as int]);
            }
            i = i + 1;
            assert(r@ =~= all.take(i as int).to_set());
        }
        assert(all.take(strs@.len() as int) =~= all);
        r
    }
}

} // verus!
