//! Grow-only sets.

use crate::crdt::Crdt;
use crate::element::{Element, Sound};
use crate::items::{enumerates, Items};
use crate::table::meanings;
use vstd::prelude::*;

verus! {

/// Grow-only Set.
///
/// A set that only supports adding elements.
#[derive(Debug)]
pub struct GSet<T> {
    elements: Items<T>,
}

impl<T: Element> View for GSet<T> {
    type V = Set<T::V>;

    closed spec fn view(&self) -> Set<T::V> {
        self.elements@
    }
}

impl<T: Element> Clone for GSet<T> {
    fn clone(&self) -> (copy: Self)
        ensures
            copy.valid(),
            copy@ == self@,
    {
        GSet { elements: self.elements.duplicate() }
    }
}

impl<T: Element> Default for GSet<T> {
    fn default() -> (set: GSet<T>)
        ensures
            set.valid(),
            set@ == Set::<T::V>::empty(),
    {
        GSet::new()
    }
}

impl<T: Element> GSet<T> {
    /// Create a new grow-only set.
    pub fn new() -> (set: GSet<T>)
        ensures
            set.valid(),
            set@ == Set::<T::V>::empty(),
    {
        GSet { elements: Items::new() }
    }

    /// Add an element to the set.
    pub fn add(&mut self, element: T)
        requires
            old(self).valid(),
        ensures
            final(self).valid(),
            final(self)@ == old(self)@.insert(element.deep_view()),
    {
        self.elements.insert(element);
    }

    /// Check if the set contains an element.
    pub fn contains(&self, element: &T) -> (found: bool)
        ensures
            found == self@.contains(element.deep_view()),
    {
        self.elements.contains(element)
    }

    /// Get the number of elements.
    pub fn len(&self) -> (n: usize)
        requires
            self.valid(),
        ensures
            n == self@.len(),
    {
        self.elements.len()
    }

    /// Check if the set is empty.
    pub fn is_empty(&self) -> (empty: bool)
        requires
            self.valid(),
        ensures
            empty == (self@ == Set::<T::V>::empty()),
    {
        self.elements.len() == 0
    }

    /// All elements, in some order.
    pub fn iter(&self) -> (elements: Vec<&T>)
        requires
            self.valid(),
        ensures
            enumerates(meanings(elements@), self@),
    {
        self.elements.list()
    }
}

impl<T: Element> Sound for GSet<T> {
    closed spec fn valid(&self) -> bool {
        self.elements.wf()
    }
}

impl<T: Element> Crdt for GSet<T> {
    open spec fn join(ours: Set<T::V>, theirs: Set<T::V>) -> Set<T::V> {
        ours.union(theirs)
    }

    fn merge(&mut self, other: &Self) {
        self.elements.extend(&other.elements);
    }
}

/// Merging sets is commutative, associative and idempotent.
pub proof fn sets_converge<D>(a: Set<D>, b: Set<D>, c: Set<D>)
    ensures
        a.union(b) == b.union(a),
        a.union(b).union(c) == a.union(b.union(c)),
        a.union(a) == a,
        a.union(b).union(b) == a.union(b),
{
    assert(a.union(b) =~= b.union(a));
    assert(a.union(b).union(c) =~= a.union(b.union(c)));
    assert(a.union(a) =~= a);
    assert(a.union(b).union(b) =~= a.union(b));
}

/// A grow-only set never loses an element: not by an addition, and not by a merge
/// from either side.
pub proof fn elements_stay<D>(ours: Set<D>, theirs: Set<D>, added: D, element: D)
    ensures
        ours.contains(element) ==> ours.insert(added).contains(element),
        ours.contains(element) ==> ours.union(theirs).contains(element),
        theirs.contains(element) ==> ours.union(theirs).contains(element),
{
}

/// A merged set has exactly the elements of both sets.
pub proof fn merged_sets_have_the_elements_of_both<T: Element>(
    ours: Set<T::V>,
    theirs: Set<T::V>,
    element: T::V,
)
    ensures
        <GSet<T> as Crdt>::join(ours, theirs).contains(element) == (ours.contains(element)
            || theirs.contains(element)),
        <GSet<T> as Crdt>::join(ours, theirs) == <GSet<T> as Crdt>::join(theirs, ours),
{
    assert(<GSet<T> as Crdt>::join(ours, theirs) =~= <GSet<T> as Crdt>::join(theirs, ours));
}

} // verus!
