//! Small stepping helpers: a single-pass wrapper around an optional iterator and a
//! half-open range over any type that knows its successor.

use vstd::prelude::*;
use vstd::std_specs::cmp::PartialEqSpec;
use vstd::std_specs::iter::IteratorSpec;

verus! {

/// Either exactly one pass that carries no item, or the passes of an inner iterator.
///
/// `One(true)` has its single pass still ahead, `One(false)` has spent it.
pub enum OneIter<I> {
    One(bool),
    Iter(I),
}

impl<I> OneIter<I> {
    /// Wraps `value`: an absent iterator becomes one pass without an item.
    pub fn new(value: Option<I>) -> (r: Self)
        ensures
            r == match value {
                Some(i) => OneIter::Iter(i),
                None => OneIter::One(true),
            },
    {
        match value {
            Some(i) => OneIter::Iter(i),
            None => OneIter::One(true),
        }
    }
}

impl<I: Iterator> OneIter<I> {
    /// Advances by one pass.
    ///
    /// Without an inner iterator the first call yields `Some(None)` and every later
    /// call `None`. With one, each item of the inner iterator is yielded inside `Some`.
    pub fn next(&mut self) -> (r: Option<Option<I::Item>>)
        ensures
            match (*old(self), *final(self)) {
                (OneIter::One(left), after) => {
                    &&& after == OneIter::<I>::One(false)
                    &&& r == if left { Some(None::<I::Item>) } else { None }
                },
                (OneIter::Iter(before), OneIter::Iter(after)) => {
                    &&& after.obeys_prophetic_iter_laws() == before.obeys_prophetic_iter_laws()
                    &&& before.obeys_prophetic_iter_laws() ==> {
                        if before.remaining().len() > 0 {
                            &&& after.remaining() == before.remaining().drop_first()
                            &&& r == Some(Some(before.remaining()[0]))
                        } else {
                            &&& after.remaining() == before.remaining()
                            &&& r is None
                        }
                    }
                },
                (OneIter::Iter(_), OneIter::One(_)) => false,
            },
    {
        match self {
            OneIter::One(left) => {
                if *left {
                    *left = false;
                    Some(None)
                } else {
                    None
                }
            },
            OneIter::Iter(i) => {
                match i.next() {
                    Some(item) => Some(Some(item)),
                    None => None,
                }
            },
        }
    }
}

/// A type whose values are visited one after the other.
pub trait Step: Copy {
    /// The value after `self`, if there is one.
    spec fn successor(self) -> Option<Self>;

    fn next_element(self) -> (r: Option<Self>)
        ensures
            r == self.successor(),
    ;
}

/// The values from a starting point up to, but not including, `end`.
#[derive(Debug, Clone, Copy)]
pub struct Range<T> {
    at: Option<T>,
    end: T,
}

impl<T> Range<T> {
    /// The value the next pass yields, if the range is not spent.
    pub closed spec fn cursor(self) -> Option<T> {
        self.at
    }

    /// The value at which the range stops.
    pub closed spec fn bound(self) -> T {
        self.end
    }

    pub fn new(at: T, end: T) -> (r: Self)
        ensures
            r.cursor() == Some(at),
            r.bound() == end,
    {
        Self { at: Some(at), end }
    }
}

impl<T: Step + PartialEq> Range<T> {
    /// What the cursor becomes once `now` has been yielded: its successor, unless
    /// there is none or the successor is the bound.
    pub open spec fn advance(now: T, end: T) -> Option<T> {
        match now.successor() {
            Some(n) => if n.eq_spec(&end) { None } else { Some(n) },
            None => None,
        }
    }

    /// Yields the cursor and moves it on. A spent range stays spent.
    pub fn next(&mut self) -> (r: Option<T>)
        ensures
            r == old(self).cursor(),
            final(self).bound() == old(self).bound(),
            old(self).cursor() is None ==> final(self).cursor() is None,
            T::obeys_eq_spec() ==> (old(self).cursor() matches Some(now) ==> final(self).cursor()
                == Self::advance(now, old(self).bound())),
    {
        let out = self.at;
        if let Some(now) = out {
            match now.next_element() {
                Some(n) => {
                    if n == self.end {
                        self.at = None;
                    } else {
                        self.at = Some(n);
                    }
                },
                None => {
                    self.at = None;
                },
            }
        }
        out
    }
}

} // verus!
