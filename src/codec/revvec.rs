//! A vector that is filled from the left, so that items pushed in reverse
//! order come out in order without a reversal.

use vstd::prelude::*;

verus! {

/// Each push puts its item in front of those pushed before.
pub struct RevVec<T> {
    inner: Vec<T>,
}

impl<T> View for RevVec<T> {
    type V = Seq<T>;

    /// The items, most recently pushed first.
    closed spec fn view(&self) -> Seq<T> {
        self.inner@
    }
}

impl<T> RevVec<T> {
    pub fn push(&mut self, t: T)
        ensures
            final(self)@ == seq![t] + old(self)@,
    {
        self.inner.insert(0, t);
        assert(self.inner@ =~= seq![t] + old(self)@);
    }

    pub fn new() -> (r: RevVec<T>)
        ensures
            r@ == Seq::<T>::empty(),
    {
        RevVec { inner: Vec::new() }
    }

    pub fn with_capacity(cap: usize) -> (r: RevVec<T>)
        ensures
            r@ == Seq::<T>::empty(),
    {
        RevVec { inner: Vec::with_capacity(cap) }
    }

    pub fn len(&self) -> (r: usize)
        ensures
            r == self@.len(),
    {
        self.inner.len()
    }

    /// The item at position `index`, counting from the most recent push.
    pub fn index(&self, index: usize) -> (r: &T)
        requires
            index < self@.len(),
        ensures
            *r == self@[index as int],
    {
        &self.inner[index]
    }

    /// The items in order, most recently pushed first.
    pub fn into_vec(self) -> (r: Vec<T>)
        ensures
            r@ == self@,
    {
        self.inner
    }
}

} // verus!
