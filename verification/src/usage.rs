//! A set of layer slots, kept as a list in which no slot occurs twice.

use vstd::prelude::*;
use crate::layout::KeyLoc;

verus! {

/// The slots seen so far.
#[derive(Debug)]
pub struct KeySet {
    seen: Vec<KeyLoc>,
}

impl View for KeySet {
    type V = Set<KeyLoc>;

    closed spec fn view(&self) -> Set<KeyLoc> {
        self.seen@.to_set()
    }
}

impl KeySet {
    /// Nothing occurs twice in the list.
    pub closed spec fn well_formed(&self) -> bool {
        self.seen@.no_duplicates()
    }

    /// The empty set.
    pub fn new() -> (r: Self)
        ensures
            r@ == Set::<KeyLoc>::empty(),
            r.well_formed(),
    {
        let r = KeySet { seen: Vec::new() };
        assert(r.seen@.to_set() =~= Set::<KeyLoc>::empty());
        r
    }

    /// Whether `loc` is in the set.
    pub fn contains(&self, loc: &KeyLoc) -> (r: bool)
        ensures
            r == self@.contains(*loc),
    {
        let mut i: usize = 0;
        while i < self.seen.len()
            invariant
                i <= self.seen@.len(),
                forall|j: int| 0 <= j < i ==> self.seen@[j] != *loc,
            decreases self.seen@.len() - i,
        {
            if self.seen[i] == *loc {
                return true;
            }
            i += 1;
        }
        false
    }

    /// Adds `loc`; the result says whether it was new.
    pub fn insert(&mut self, loc: KeyLoc) -> (r: bool)
        requires
            old(self).well_formed(),
        ensures
            final(self).well_formed(),
            final(self)@ == old(self)@.insert(loc),
            r == !old(self)@.contains(loc),
    {
        if self.contains(&loc) {
            assert(self@.insert(loc) =~= self@);
            false
        } else {
            let ghost before = self.seen@;
            self.seen.push(loc);
            proof {
                assert(self.seen@ == before.push(loc));
                assert forall|x: KeyLoc| self.seen@.contains(x) <==> before.contains(x) || x == loc by {
                    if before.contains(x) {
                        let i = choose|i: int| 0 <= i < before.len() && before[i] == x;
                        assert(self.seen@[i] == x);
                    }
                    if x == loc {
                        assert(self.seen@[before.len() as int] == x);
                    }
                }
                assert(self.seen@.to_set() =~= before.to_set().insert(loc));
            }
            true
        }
    }

    /// Number of slots in the set.
    pub fn len(&self) -> (r: usize)
        requires
            self.well_formed(),
        ensures
            r == self@.len(),
    {
        proof {
            self.seen@.unique_seq_to_set();
        }
        self.seen.len()
    }
}

} // verus!
