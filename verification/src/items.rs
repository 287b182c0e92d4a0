//! Sets of elements, kept as arrays without duplicates.

use crate::element::{CopyEntry, Element, Sound};
use crate::table::meanings;
use vstd::prelude::*;

verus! {

/// Whether a list holds the elements of a set, each once.
pub open spec fn enumerates<D>(list: Seq<D>, set: Set<D>) -> bool {
    &&& list.no_duplicates()
    &&& list.to_set() == set
}

/// What a list enumerates with one more element.
pub proof fn lemma_enumerates_push<D>(list: Seq<D>, set: Set<D>, item: D)
    requires
        enumerates(list, set),
        !set.contains(item),
    ensures
        enumerates(list.push(item), set.insert(item)),
{
    assert forall|i: int| 0 <= i < list.len() implies #[trigger] list[i] != item by {
        assert(list.to_set().contains(list[i]));
    }
    list.lemma_push_to_set_commute(item);
}

/// A set of elements. They stand in some order, which plays no part in what the
/// set means.
#[derive(Debug)]
pub struct Items<T> {
    items: Vec<T>,
}

impl<T: Element> View for Items<T> {
    type V = Set<T::V>;

    closed spec fn view(&self) -> Set<T::V> {
        meanings(self.items@).to_set()
    }
}

impl<T: Element> DeepView for Items<T> {
    type V = Set<T::V>;

    open spec fn deep_view(&self) -> Set<T::V> {
        self@
    }
}

impl<T: Element> Sound for Items<T> {
    open spec fn valid(&self) -> bool {
        self.wf()
    }
}

impl<T: Element> CopyEntry for Items<T> {
    fn replicate(&self) -> (copy: Self) {
        self.duplicate()
    }
}

impl<T: Element> Items<T> {
    /// Whether each element stands once.
    pub closed spec fn wf(&self) -> bool {
        meanings(self.items@).no_duplicates()
    }

    /// The elements in the order in which they stand.
    pub closed spec fn order(&self) -> Seq<T::V> {
        meanings(self.items@)
    }

    /// The elements stand once each.
    pub proof fn order_lists_the_items(&self)
        requires
            self.wf(),
        ensures
            enumerates(self.order(), self@),
            self.order().len() == self@.len(),
            self@.finite(),
    {
        self.order().unique_seq_to_set();
    }

    /// An empty set.
    pub fn new() -> (items: Self)
        ensures
            items.wf(),
            items@ == Set::<T::V>::empty(),
            items.order() == Seq::<T::V>::empty(),
    {
        let items = Items { items: Vec::new() };
        assert(items.order() =~= Seq::<T::V>::empty());
        assert(items@ =~= Set::<T::V>::empty());
        items
    }

    /// The number of elements.
    pub fn len(&self) -> (n: usize)
        requires
            self.wf(),
        ensures
            n == self@.len(),
            n == self.order().len(),
            (n == 0) == (self@ == Set::<T::V>::empty()),
    {
        proof {
            self.order_lists_the_items();
            if self.order().len() == 0 {
                assert(self@ =~= Set::<T::V>::empty());
            }
        }
        self.items.len()
    }

    /// The element at an index of the order.
    pub fn at(&self, index: usize) -> (item: &T)
        requires
            index < self.order().len(),
        ensures
            item.deep_view() == self.order()[index as int],
            self@.contains(item.deep_view()),
    {
        assert(self.order()[index as int] == self.items@[index as int].deep_view());
        &self.items[index]
    }

    /// Whether the set holds an element.
    pub fn contains(&self, item: &T) -> (found: bool)
        ensures
            found == self@.contains(item.deep_view()),
    {
        let mut i: usize = 0;
        while i < self.items.len()
            invariant
                i <= self.items@.len(),
                forall|k: int| 0 <= k < i ==> #[trigger] self.order()[k] != item.deep_view(),
            decreases self.items@.len() - i,
        {
            if self.items[i].same(item) {
                assert(self.order()[i as int] == item.deep_view());
                return true;
            }
            assert(self.order()[i as int] != item.deep_view());
            i = i + 1;
        }
        assert(!self.order().contains(item.deep_view()));
        false
    }

    /// Adds an element.
    pub fn insert(&mut self, item: T)
        requires
            old(self).wf(),
        ensures
            final(self).wf(),
            final(self)@ == old(self)@.insert(item.deep_view()),
    {
        let ghost before = self.order();
        if !self.contains(&item) {
            proof {
                lemma_enumerates_push(before, self@, item.deep_view());
            }
            self.items.push(item);
            assert(self.order() =~= before.push(item.deep_view()));
        } else {
            assert(self@ =~= self@.insert(item.deep_view()));
        }
    }

    /// Adds every element of another set.
    pub fn extend(&mut self, other: &Items<T>)
        requires
            old(self).wf(),
        ensures
            final(self).wf(),
            final(self)@ == old(self)@.union(other@),
    {
        let none: Items<T> = Items::new();
        self.absorb(other, &none);
        assert(old(self)@.union(other@.difference(none@)) =~= old(self)@.union(other@));
    }

    /// Adds every element of another set that is not in a third set.
    pub fn absorb(&mut self, other: &Items<T>, except: &Items<T>)
        requires
            old(self).wf(),
        ensures
            final(self).wf(),
            final(self)@ == old(self)@.union(other@.difference(except@)),
    {
        let ghost ours = self@;
        let ghost theirs = other.order();
        let mut i: usize = 0;
        assert(theirs.take(0).to_set() =~= Set::empty());
        assert(self@ =~= ours.union(theirs.take(0).to_set().difference(except@)));
        while i < other.items.len()
            invariant
                i <= other.items@.len(),
                theirs == other.order(),
                self.wf(),
                self@ == ours.union(theirs.take(i as int).to_set().difference(except@)),
            decreases other.items@.len() - i,
        {
            proof {
                theirs.take(i as int).lemma_push_to_set_commute(theirs[i as int]);
                assert(theirs.take(i + 1) =~= theirs.take(i as int).push(theirs[i as int]));
                assert(theirs[i as int] == other.items@[i as int].deep_view());
            }
            if !except.contains(&other.items[i]) {
                self.insert(other.items[i].duplicate());
            }
            i = i + 1;
            assert(self@ =~= ours.union(theirs.take(i as int).to_set().difference(except@)));
        }
        assert(theirs.take(i as int) =~= theirs);
    }

    /// Takes out every element of another set.
    pub fn retain_outside(&mut self, except: &Items<T>)
        requires
            old(self).wf(),
        ensures
            final(self).wf(),
            final(self)@ == old(self)@.difference(except@),
    {
        let mut kept: Items<T> = Items::new();
        kept.absorb(self, except);
        assert(Set::<T::V>::empty().union(self@.difference(except@)) =~= self@.difference(except@));
        *self = kept;
    }

    /// A set with copies of the elements.
    pub fn duplicate(&self) -> (copy: Self)
        ensures
            copy.wf(),
            copy@ == self@,
    {
        let mut copy: Items<T> = Items::new();
        copy.extend(self);
        assert(Set::<T::V>::empty().union(self@) =~= self@);
        copy
    }

    /// The set of some elements.
    pub fn from_list(list: &Vec<T>) -> (items: Self)
        ensures
            items.wf(),
            items@ == meanings(list@).to_set(),
    {
        let mut items: Items<T> = Items::new();
        let mut i: usize = 0;
        let ghost all = meanings(list@);
        assert(all.take(0).to_set() =~= Set::empty());
        while i < list.len()
            invariant
                i <= list@.len(),
                all == meanings(list@),
                items.wf(),
                items@ == all.take(i as int).to_set(),
            decreases list@.len() - i,
        {
            proof {
                all.take(i as int).lemma_push_to_set_commute(all[i as int]);
                assert(all.take(i + 1) =~= all.take(i as int).push(all[i as int]));
            }
            items.insert(list[i].duplicate());
            i = i + 1;
        }
        assert(all.take(i as int) =~= all);
        items
    }

    /// References to all elements, in some order.
    pub fn list(&self) -> (list: Vec<&T>)
        requires
            self.wf(),
        ensures
            enumerates(meanings(list@), self@),
    {
        let mut list: Vec<&T> = Vec::new();
        let mut i: usize = 0;
        while i < self.items.len()
            invariant
                i <= self.items@.len(),
                i == list@.len(),
                forall|k: int| 0 <= k < i ==> *(#[trigger] list@[k]) == self.items@[k],
            decreases self.items@.len() - i,
        {
            list.push(&self.items[i]);
            i = i + 1;
        }
        assert(meanings(list@) =~= self.order());
        list
    }
}

/// A list that enumerates a set has each element of the set, each once, and no other.
pub proof fn enumerations_have_each_element_once<D>(list: Seq<D>, set: Set<D>, item: D)
    requires
        enumerates(list, set),
    ensures
        list.contains(item) == set.contains(item),
        list.len() == set.len(),
        forall|i: int, j: int| 0 <= i < j < list.len() ==> list[i] != list[j],
{
    list.unique_seq_to_set();
    assert(list.to_set().contains(item) == list.contains(item));
}

} // verus!
