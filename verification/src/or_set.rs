//! Observed-remove sets.

use crate::clock::LogicalClock;
use crate::crdt::Crdt;
use crate::element::{Element, Sound};
use crate::items::{enumerates, lemma_enumerates_push, Items};
use crate::table::{gathered, meanings, pair_meanings, Table};
use vstd::prelude::*;

verus! {

/// The state of an observed-remove set: the tags of each element, and the tags
/// that were removed.
#[verifier::ext_equal]
#[verifier::reject_recursive_types(D)]
pub struct TaggedState<D> {
    /// The tags of each element
    pub elements: Map<D, Set<LogicalClock>>,
    /// The removed tags
    pub tombstones: Set<LogicalClock>,
}

impl<D> TaggedState<D> {
    /// The state of a new set.
    pub open spec fn empty() -> TaggedState<D> {
        TaggedState { elements: Map::empty(), tombstones: Set::empty() }
    }

    /// The tags of an element.
    pub open spec fn tags(self, element: D) -> Set<LogicalClock> {
        if self.elements.contains_key(element) {
            self.elements[element]
        } else {
            Set::empty()
        }
    }

    /// Whether an element is in the set: it has a tag.
    pub open spec fn has(self, element: D) -> bool {
        self.elements.contains_key(element) && self.elements[element] != Set::<
            LogicalClock,
        >::empty()
    }

    /// The elements of the set.
    pub open spec fn members(self) -> Set<D> {
        self.elements.dom().filter(|element: D| self.has(element))
    }

    /// The state after an element is added under a tag; a removed tag adds
    /// nothing.
    pub open spec fn added(self, element: D, tag: LogicalClock) -> TaggedState<D> {
        if self.tombstones.contains(tag) {
            self
        } else {
            TaggedState {
                elements: self.elements.insert(element, self.tags(element).insert(tag)),
                ..self
            }
        }
    }

    /// The state after an element is removed: all its tags are.
    pub open spec fn removed(self, element: D) -> TaggedState<D> {
        TaggedState {
            elements: self.elements.remove(element),
            tombstones: self.tombstones.union(self.tags(element)),
        }
    }

    /// The state of two replicas together: the tags of both that neither has
    /// removed.
    pub open spec fn joined(self, other: TaggedState<D>) -> TaggedState<D> {
        let tombstones = self.tombstones.union(other.tombstones);
        TaggedState {
            elements: Map::new(
                |element: D|
                    self.elements.contains_key(element) || other.elements.contains_key(element),
                |element: D|
                    self.tags(element).union(other.tags(element)).difference(tombstones),
            ),
            tombstones,
        }
    }

    /// Whether no tag of an element is a removed one.
    pub open spec fn live(self) -> bool {
        forall|element: D, tag: LogicalClock|
            self.elements.contains_key(element) && #[trigger] self.elements[element].contains(tag)
                ==> !self.tombstones.contains(tag)
    }
}

/// Observed-Remove Set (OR-Set).
///
/// A set that supports both adding and removing elements. Each element is tagged
/// with unique identifiers to handle concurrent add and remove operations.
#[derive(Debug)]
pub struct OrSet<T> {
    /// Elements with their tags
    elements: Table<T, Items<LogicalClock>>,
    /// Removed tags
    tombstones: Items<LogicalClock>,
}

impl<T: Element> View for OrSet<T> {
    type V = TaggedState<T::V>;

    closed spec fn view(&self) -> TaggedState<T::V> {
        TaggedState { elements: self.elements.deep_view(), tombstones: self.tombstones@ }
    }
}

impl<T: Element> Clone for OrSet<T> {
    fn clone(&self) -> (copy: Self)
        ensures
            self.valid() ==> copy.valid() && copy@ == self@,
    {
        OrSet { elements: self.elements.duplicate(), tombstones: self.tombstones.duplicate() }
    }
}

impl<T: Element> Default for OrSet<T> {
    fn default() -> (set: OrSet<T>)
        ensures
            set.valid(),
            set@ == TaggedState::<T::V>::empty(),
    {
        OrSet::new()
    }
}

/// The tags of two replicas together, before the removed ones are taken out of
/// the first replica's: the elements of the second up to some point.
spec fn half_joined<D>(
    ours: Map<D, Set<LogicalClock>>,
    theirs: Map<D, Set<LogicalClock>>,
    removed: Set<LogicalClock>,
    seen: Set<D>,
) -> Map<D, Set<LogicalClock>> {
    Map::new(
        |element: D| ours.contains_key(element) || seen.contains(element),
        |element: D|
            {
                let mine = if ours.contains_key(element) {
                    ours[element]
                } else {
                    Set::empty()
                };
                if seen.contains(element) {
                    mine.union(theirs[element].difference(removed))
                } else {
                    mine
                }
            },
    )
}

/// What some elements with their tags mean.
pub open spec fn tag_sets<T: DeepView>(elements: Seq<(T, Vec<LogicalClock>)>) -> Seq<
    (T::V, Set<LogicalClock>),
> {
    elements.map_values(
        |element: (T, Vec<LogicalClock>)| (element.0.deep_view(), element.1@.to_set()),
    )
}

/// The tags of a set, in some order.
fn tag_list(tags: &Items<LogicalClock>) -> (list: Vec<LogicalClock>)
    requires
        tags.wf(),
    ensures
        enumerates(list@, tags@),
{
    let references = tags.list();
    let mut list: Vec<LogicalClock> = Vec::new();
    let mut i: usize = 0;
    while i < references.len()
        invariant
            i <= references@.len(),
            i == list@.len(),
            forall|k: int| 0 <= k < i ==> #[trigger] list@[k] == *references@[k],
        decreases references@.len() - i,
    {
        list.push(*references[i]);
        i = i + 1;
    }
    assert(list@ =~= meanings(references@));
    list
}

impl<T: Element> OrSet<T> {
    /// Create a new OR-Set.
    pub fn new() -> (set: OrSet<T>)
        ensures
            set.valid(),
            set@ == TaggedState::<T::V>::empty(),
    {
        let set = OrSet { elements: Table::new(), tombstones: Items::new() };
        assert(set@ =~= TaggedState::<T::V>::empty());
        set
    }

    /// A set with some elements under their tags, and some removed tags; of two
    /// entries for one element the later one holds.
    pub fn from_parts(
        elements: Vec<(T, Vec<LogicalClock>)>,
        tombstones: &Vec<LogicalClock>,
    ) -> (set: OrSet<T>)
        ensures
            set.valid(),
            set@.elements == gathered(tag_sets(elements@)),
            set@.tombstones == tombstones@.to_set(),
    {
        let mut pairs: Vec<(T, Items<LogicalClock>)> = Vec::new();
        let ghost mut i: int = 0;
        for element in items: elements.into_iter()
            invariant
                items.seq() == elements@,
                i == items.index(),
                0 <= i <= elements@.len(),
                i == pairs@.len(),
                forall|k: int|
                    0 <= k < i ==> {
                        &&& (#[trigger] pairs@[k]).0 == elements@[k].0
                        &&& pairs@[k].1.valid()
                        &&& pairs@[k].1@ == elements@[k].1@.to_set()
                    },
        {
            assert(element == elements@[i]);
            let (value, tags) = element;
            let set = Items::from_list(&tags);
            assert(meanings(tags@) =~= tags@);
            pairs.push((value, set));
            proof {
                i = i + 1;
            }
        }
        assert(pair_meanings(pairs@) =~= tag_sets(elements@));
        assert(meanings(tombstones@) =~= tombstones@);
        OrSet { elements: Table::from_pairs(pairs), tombstones: Items::from_list(tombstones) }
    }

    /// The tags of every element that has an entry, in some order.
    pub fn tagged(&self) -> (elements: Vec<(&T, Vec<LogicalClock>)>)
        requires
            self.valid(),
        ensures
            gathered(tag_sets(elements@)) == self@.elements,
    {
        let pairs = self.elements.pairs();
        let mut elements: Vec<(&T, Vec<LogicalClock>)> = Vec::new();
        let mut i: usize = 0;
        while i < pairs.len()
            invariant
                i <= pairs@.len(),
                i == elements@.len(),
                forall|k: int| 0 <= k < pairs@.len() ==> (#[trigger] pairs@[k]).1.valid(),
                forall|k: int|
                    0 <= k < i ==> {
                        &&& *(#[trigger] elements@[k]).0 == *pairs@[k].0
                        &&& elements@[k].1@.to_set() == pairs@[k].1@
                    },
            decreases pairs@.len() - i,
        {
            let pair = &pairs[i];
            assert(pairs@[i as int].1.valid());
            let tags = tag_list(pair.1);
            elements.push((pair.0, tags));
            i = i + 1;
        }
        assert(tag_sets(elements@) =~= pair_meanings(pairs@));
        elements
    }

    /// The removed tags, in some order.
    pub fn tombstones(&self) -> (tags: Vec<LogicalClock>)
        requires
            self.valid(),
        ensures
            enumerates(tags@, self@.tombstones),
    {
        tag_list(&self.tombstones)
    }

    /// Add an element with a tag.
    pub fn add(&mut self, element: T, tag: LogicalClock)
        requires
            old(self).valid(),
        ensures
            final(self).valid(),
            final(self)@ == old(self)@.added(element.deep_view(), tag),
    {
        let ghost before = self@;
        if !self.tombstones.contains(&tag) {
            let mut tags: Items<LogicalClock> = match self.elements.get(&element) {
                Some(tags) => tags.duplicate(),
                None => Items::new(),
            };
            tags.insert(tag);
            self.elements.insert(element, tags);
            assert(self@ =~= before.added(element.deep_view(), tag));
        }
    }

    /// Remove an element (marks all its tags as tombstones).
    pub fn remove(&mut self, element: &T)
        requires
            old(self).valid(),
        ensures
            final(self).valid(),
            final(self)@ == old(self)@.removed(element.deep_view()),
    {
        let ghost before = self@;
        match self.elements.remove(element) {
            Some(tags) => {
                self.tombstones.extend(&tags);
            },
            None => {},
        }
        assert(self@ =~= before.removed(element.deep_view()));
    }

    /// Check if an element is in the set.
    pub fn contains(&self, element: &T) -> (found: bool)
        requires
            self.valid(),
        ensures
            found == self@.has(element.deep_view()),
    {
        match self.elements.get(element) {
            Some(tags) => tags.len() != 0,
            None => false,
        }
    }

    /// Get all elements, in some order.
    pub fn elements(&self) -> (elements: Vec<&T>)
        requires
            self.valid(),
        ensures
            enumerates(meanings(elements@), self@.members()),
    {
        let mut elements: Vec<&T> = Vec::new();
        let ghost order = self.elements.order();
        let n = self.elements.len();
        let mut i: usize = 0;
        proof {
            self.elements.order_lists_the_keys();
            assert(meanings(elements@) =~= Seq::empty());
            assert(order.take(0).to_set().filter(|e: T::V| self@.has(e)) =~= Set::empty());
            assert(meanings(elements@).to_set() =~= Set::empty());
        }
        while i < n
            invariant
                i <= n,
                n == order.len(),
                order == self.elements.order(),
                order.no_duplicates(),
                self.valid(),
                enumerates(
                    meanings(elements@),
                    order.take(i as int).to_set().filter(|e: T::V| self@.has(e)),
                ),
            decreases n - i,
        {
            let ghost seen = order.take(i as int).to_set();
            let ghost before = meanings(elements@);
            let key = self.elements.key_at(i);
            let tags = self.elements.value_at(i);
            proof {
                order.take(i as int).lemma_push_to_set_commute(order[i as int]);
                assert(order.take(i + 1) =~= order.take(i as int).push(order[i as int]));
                assert(!seen.contains(order[i as int])) by {
                    if seen.contains(order[i as int]) {
                        let k = choose|k: int|
                            0 <= k < i && order.take(i as int)[k] == order[i as int];
                        assert(order[k] == order[i as int]);
                    }
                }
            }
            let ghost shown = seen.filter(|e: T::V| self@.has(e));
            if tags.len() != 0 {
                proof {
                    lemma_enumerates_push(before, shown, key.deep_view());
                }
                elements.push(key);
                assert(meanings(elements@) =~= before.push(key.deep_view()));
                assert(seen.insert(order[i as int]).filter(|e: T::V| self@.has(e))
                    =~= shown.insert(key.deep_view()));
            } else {
                assert(seen.insert(order[i as int]).filter(|e: T::V| self@.has(e)) =~= shown);
            }
            i = i + 1;
        }
        proof {
            self.elements.order_lists_the_keys();
            assert(order.take(i as int) =~= order);
            assert(order.to_set().filter(|e: T::V| self@.has(e)) =~= self@.members());
        }
        elements
    }

    /// Get the number of elements.
    pub fn len(&self) -> (n: usize)
        requires
            self.valid(),
        ensures
            n == self@.members().len(),
            self@.members().finite(),
    {
        let elements = self.elements();
        proof {
            meanings(elements@).unique_seq_to_set();
        }
        elements.len()
    }

    /// Check if the set is empty.
    pub fn is_empty(&self) -> (empty: bool)
        requires
            self.valid(),
        ensures
            empty == (self@.members() == Set::<T::V>::empty()),
    {
        let n = self.len();
        proof {
            if n == 0 {
                assert(self@.members() =~= Set::<T::V>::empty());
            }
        }
        n == 0
    }
}

impl<T: Element> Sound for OrSet<T> {
    closed spec fn valid(&self) -> bool {
        self.elements.wf() && self.tombstones.wf()
    }
}

impl<T: Element> Crdt for OrSet<T> {
    open spec fn join(ours: TaggedState<T::V>, theirs: TaggedState<T::V>) -> TaggedState<T::V> {
        ours.joined(theirs)
    }

    fn merge(&mut self, other: &Self) {
        let ghost ours = self@;
        let ghost theirs = other@;
        // Merge tombstones first.
        self.tombstones.extend(&other.tombstones);
        let ghost removed = ours.tombstones.union(theirs.tombstones);
        // Merge elements, filtering out tombstoned tags.
        let ghost order = other.elements.order();
        let n = other.elements.len();
        let mut i: usize = 0;
        proof {
            other.elements.order_lists_the_keys();
            assert(order.take(0).to_set() =~= Set::empty());
            assert(self.elements.deep_view() =~= half_joined(
                ours.elements,
                theirs.elements,
                removed,
                order.take(0).to_set(),
            ));
        }
        while i < n
            invariant
                i <= n,
                n == order.len(),
                order == other.elements.order(),
                other.valid(),
                theirs == other@,
                self.valid(),
                self.tombstones@ == removed,
                order.no_duplicates(),
                self.elements.deep_view() == half_joined(
                    ours.elements,
                    theirs.elements,
                    removed,
                    order.take(i as int).to_set(),
                ),
            decreases n - i,
        {
            let ghost before = self.elements.deep_view();
            let ghost seen = order.take(i as int).to_set();
            let key = other.elements.key_at(i);
            let tags = other.elements.value_at(i);
            let ghost element = key.deep_view();
            proof {
                order.take(i as int).lemma_push_to_set_commute(order[i as int]);
                assert(order.take(i + 1) =~= order.take(i as int).push(order[i as int]));
                assert(!seen.contains(element)) by {
                    if seen.contains(element) {
                        let k = choose|k: int| 0 <= k < i && order.take(i as int)[k] == element;
                        assert(order[k] == order[i as int]);
                    }
                }
            }
            let mut entry: Items<LogicalClock> = match self.elements.get(key) {
                Some(mine) => mine.duplicate(),
                None => Items::new(),
            };
            let ghost mine = entry@;
            assert(theirs.elements[element] == tags@);
            assert(mine == if before.contains_key(element) {
                before[element]
            } else {
                Set::empty()
            });
            assert(before.contains_key(element) == ours.elements.contains_key(element));
            assert(mine == ours.tags(element));
            entry.absorb(tags, &self.tombstones);
            self.elements.insert(key.duplicate(), entry);
            i = i + 1;
            assert(self.elements.deep_view() =~= before.insert(
                element,
                mine.union(tags@.difference(removed)),
            ));
            assert(order.take(i as int).to_set() == seen.insert(element));
            assert(self.elements.deep_view() =~= half_joined(
                ours.elements,
                theirs.elements,
                removed,
                order.take(i as int).to_set(),
            ));
        }
        proof {
            other.elements.order_lists_the_keys();
            assert(order.take(i as int) =~= order);
        }
        // Remove tombstoned tags from existing elements.
        let ghost half = self.elements.deep_view();
        let ghost mine = self.elements.order();
        let m = self.elements.len();
        let mut j: usize = 0;
        proof {
            self.elements.order_lists_the_keys();
        }
        while j < m
            invariant
                j <= m,
                m == mine.len(),
                mine == self.elements.order(),
                mine.no_duplicates(),
                mine.to_set() == half.dom(),
                self.valid(),
                self.tombstones@ == removed,
                self.elements.deep_view().dom() == half.dom(),
                forall|k: int|
                    0 <= k < j ==> self.elements.deep_view()[#[trigger] mine[k]]
                        == half[mine[k]].difference(removed),
                forall|k: int|
                    j <= k < m ==> self.elements.deep_view()[#[trigger] mine[k]] == half[mine[k]],
            decreases m - j,
        {
            let ghost before = self.elements.deep_view();
            let ghost element = mine[j as int];
            let tags = self.elements.value_at_mut(j);
            tags.retain_outside(&self.tombstones);
            assert(self.elements.deep_view() =~= before.insert(
                element,
                half[element].difference(removed),
            ));
            j = j + 1;
        }
        proof {
            let joined = ours.joined(theirs);
            assert forall|element: T::V| half.contains_key(element) implies #[trigger] self@.elements[element]
                == joined.elements[element] by {
                assert(mine.to_set().contains(element));
                let k = choose|k: int| 0 <= k < mine.len() && mine[k] == element;
                assert(self.elements.deep_view()[mine[k]] == half[mine[k]].difference(removed));
                assert(half[element].difference(removed) =~= ours.tags(element).union(
                    theirs.tags(element),
                ).difference(removed));
            }
            assert(half.dom() =~= joined.elements.dom());
            assert(self@.elements =~= joined.elements);
            assert(self@ =~= joined);
        }
    }
}

/// Merging sets is commutative and associative, and merging the same set again
/// changes nothing; merging a set with itself changes nothing where no removed
/// tag is left on an element.
pub proof fn or_sets_converge<D>(a: TaggedState<D>, b: TaggedState<D>, c: TaggedState<D>)
    ensures
        a.joined(b) == b.joined(a),
        a.joined(b).joined(c) == a.joined(b.joined(c)),
        a.joined(b).joined(b) == a.joined(b),
        a.live() ==> a.joined(a) == a,
{
    lemma_join_commutes(a, b);
    lemma_join_associates(a, b, c);
    let ab = a.joined(b);
    assert forall|e: D| ab.elements.contains_key(e) implies #[trigger] ab.joined(b).elements[e]
        == ab.elements[e] by {
        assert(ab.joined(b).elements[e] =~= ab.elements[e]);
    }
    assert(ab.joined(b).tombstones =~= ab.tombstones);
    assert(ab.joined(b).elements =~= ab.elements);
    if a.live() {
        assert forall|e: D| a.elements.contains_key(e) implies #[trigger] a.joined(a).elements[e]
            == a.elements[e] by {
            assert(a.joined(a).elements[e] =~= a.elements[e]);
        }
        assert(a.joined(a).elements =~= a.elements);
        assert(a.joined(a).tombstones =~= a.tombstones);
    }
}

proof fn lemma_join_commutes<D>(a: TaggedState<D>, b: TaggedState<D>)
    ensures
        a.joined(b) == b.joined(a),
{
    let ab = a.joined(b);
    let ba = b.joined(a);
    assert(ab.tombstones =~= ba.tombstones);
    assert forall|e: D| ab.elements.contains_key(e) implies #[trigger] ab.elements[e]
        == ba.elements[e] by {
        assert(a.tags(e).union(b.tags(e)) =~= b.tags(e).union(a.tags(e)));
    }
    assert(ab.elements =~= ba.elements);
}

proof fn lemma_join_associates<D>(a: TaggedState<D>, b: TaggedState<D>, c: TaggedState<D>)
    ensures
        a.joined(b).joined(c) == a.joined(b.joined(c)),
{
    let left = a.joined(b).joined(c);
    let right = a.joined(b.joined(c));
    assert(left.tombstones =~= right.tombstones);
    assert forall|e: D| left.elements.contains_key(e) implies #[trigger] left.elements[e]
        == right.elements[e] by {
        assert(left.elements[e] =~= right.elements[e]);
    }
    assert(left.elements =~= right.elements);
}

/// An addition under a tag that was not removed makes its element a member, and a
/// removal makes its element no member; neither touches another element.
pub proof fn additions_and_removals_take_effect<D>(
    set: TaggedState<D>,
    element: D,
    tag: LogicalClock,
    other: D,
)
    ensures
        !set.tombstones.contains(tag) ==> set.added(element, tag).has(element),
        !set.removed(element).has(element),
        other != element ==> set.added(element, tag).has(other) == set.has(other),
        other != element ==> set.removed(element).has(other) == set.has(other),
{
    if !set.tombstones.contains(tag) {
        assert(set.added(element, tag).elements[element].contains(tag));
    }
}

/// Of an addition and a concurrent removal the addition wins: a removal takes out
/// only the tags that the remover has seen.
pub proof fn concurrent_addition_wins<D>(
    adder: TaggedState<D>,
    remover: TaggedState<D>,
    element: D,
    tag: LogicalClock,
)
    requires
        !adder.tombstones.contains(tag),
        !remover.tombstones.contains(tag),
        !remover.tags(element).contains(tag),
    ensures
        adder.added(element, tag).joined(remover.removed(element)).has(element),
        remover.removed(element).joined(adder.added(element, tag)).has(element),
{
    let joined = adder.added(element, tag).joined(remover.removed(element));
    assert(joined.elements[element].contains(tag));
    lemma_join_commutes(adder.added(element, tag), remover.removed(element));
}

/// A removal takes out an element everywhere if the remover has seen all its
/// tags.
pub proof fn observed_addition_is_removed<D>(
    holder: TaggedState<D>,
    remover: TaggedState<D>,
    element: D,
)
    requires
        holder.tags(element).subset_of(remover.tags(element).union(remover.tombstones)),
    ensures
        !holder.joined(remover.removed(element)).has(element),
        !remover.removed(element).joined(holder).has(element),
{
    let joined = holder.joined(remover.removed(element));
    if joined.elements.contains_key(element) {
        assert(joined.elements[element] =~= Set::<LogicalClock>::empty());
    }
    lemma_join_commutes(holder, remover.removed(element));
}

/// No removed tag is left on an element after a merge; an addition keeps it so,
/// and a removal does where no other element bears a tag of the removed one.
pub proof fn removed_tags_stay_removed<D>(
    set: TaggedState<D>,
    other: TaggedState<D>,
    element: D,
    tag: LogicalClock,
)
    ensures
        TaggedState::<D>::empty().live(),
        set.joined(other).live(),
        set.live() ==> set.added(element, tag).live(),
        set.live() && (forall|e: D| #[trigger] set.elements.contains_key(e) && e != element
            ==> set.elements[e].disjoint(set.tags(element))) ==> set.removed(element).live(),
{
    let removed = set.removed(element);
    if set.live() && (forall|e: D| #[trigger] set.elements.contains_key(e) && e != element
        ==> set.elements[e].disjoint(set.tags(element))) {
        assert forall|e: D, t: LogicalClock|
            removed.elements.contains_key(e) && #[trigger] removed.elements[e].contains(
                t,
            ) implies !removed.tombstones.contains(t) by {
            assert(set.elements.contains_key(e));
            assert(set.elements[e].contains(t));
            assert(set.elements[e].disjoint(set.tags(element)));
        }
    }
}

/// An addition under a tag that was not removed puts exactly that tag on its element, next to
/// the tags it has; one under a removed tag changes nothing. No other element and no
/// removed tag is touched.
pub proof fn additions_put_on_one_tag<D>(
    set: TaggedState<D>,
    element: D,
    tag: LogicalClock,
    other: D,
    some: LogicalClock,
)
    ensures
        ({
            let after = set.added(element, tag);
            &&& set.tombstones.contains(tag) ==> after == set
            &&& !set.tombstones.contains(tag) ==> after.elements.contains_key(element)
            &&& !set.tombstones.contains(tag) ==> after.elements[element].contains(some) == (some
                == tag || (set.elements.contains_key(element) && set.elements[element].contains(
                some,
            )))
            &&& after.tombstones == set.tombstones
            &&& other != element ==> after.elements.contains_key(other)
                == set.elements.contains_key(other)
            &&& other != element && set.elements.contains_key(other) ==> after.elements[other]
                == set.elements[other]
        }),
{
}

/// A removal takes an element out and remembers each of its tags as removed, and no other.
/// No other element is touched.
pub proof fn removals_remember_the_tags<D>(
    set: TaggedState<D>,
    element: D,
    other: D,
    some: LogicalClock,
)
    ensures
        ({
            let after = set.removed(element);
            &&& !after.elements.contains_key(element)
            &&& after.tombstones.contains(some) == (set.tombstones.contains(some) || (
            set.elements.contains_key(element) && set.elements[element].contains(some)))
            &&& other != element ==> after.elements.contains_key(other)
                == set.elements.contains_key(other)
            &&& other != element && set.elements.contains_key(other) ==> after.elements[other]
                == set.elements[other]
        }),
{
}

/// After a merge an element has the tags that it has on either side and that neither side
/// has removed; the tags removed on either side are removed.
pub proof fn merged_sets_have_the_live_tags_of_both<T: Element>(
    a: TaggedState<T::V>,
    b: TaggedState<T::V>,
    element: T::V,
    tag: LogicalClock,
)
    ensures
        ({
            let joined = <OrSet<T> as Crdt>::join(a, b);
            let in_a = a.elements.contains_key(element) && a.elements[element].contains(tag);
            let in_b = b.elements.contains_key(element) && b.elements[element].contains(tag);
            let gone = a.tombstones.contains(tag) || b.tombstones.contains(tag);
            &&& joined == a.joined(b)
            &&& joined.tombstones.contains(tag) == gone
            &&& (joined.elements.contains_key(element) && joined.elements[element].contains(tag))
                == ((in_a || in_b) && !gone)
            &&& joined.elements.contains_key(element) == (a.elements.contains_key(element)
                || b.elements.contains_key(element))
        }),
{
}

/// The members of a set are the elements that have a tag; a new set has none.
pub proof fn members_have_a_tag<D>(set: TaggedState<D>, element: D)
    ensures
        set.has(element) == (set.elements.contains_key(element) && exists|tag: LogicalClock|
            set.elements[element].contains(tag)),
        set.members().contains(element) == set.has(element),
        !TaggedState::<D>::empty().has(element),
{
    if set.elements.contains_key(element) {
        let tags = set.elements[element];
        if !exists|tag: LogicalClock| tags.contains(tag) {
            assert(tags =~= Set::empty());
        } else {
            let tag = choose|tag: LogicalClock| tags.contains(tag);
            assert(tags != Set::<LogicalClock>::empty()) by {
                assert(!Set::<LogicalClock>::empty().contains(tag));
            }
        }
    }
}

/// A merge keeps an element that a side has under a tag that neither side has removed,
/// whichever of the two merges the other.
pub proof fn merges_keep_what_nobody_removed<T: Element>(
    a: TaggedState<T::V>,
    b: TaggedState<T::V>,
    element: T::V,
    tag: LogicalClock,
)
    requires
        a.elements.contains_key(element),
        a.elements[element].contains(tag),
        !a.tombstones.contains(tag),
        !b.tombstones.contains(tag),
    ensures
        <OrSet<T> as Crdt>::join(a, b).has(element),
        <OrSet<T> as Crdt>::join(b, a).has(element),
{
    merged_sets_have_the_live_tags_of_both::<T>(a, b, element, tag);
    merged_sets_have_the_live_tags_of_both::<T>(b, a, element, tag);
    members_have_a_tag(a.joined(b), element);
    members_have_a_tag(b.joined(a), element);
}

/// Elements with their tags mean one by one what they hold, in their order.
pub proof fn tag_sets_stand_in_order<T: DeepView>(
    elements: Seq<(T, Vec<LogicalClock>)>,
    i: int,
    tag: LogicalClock,
)
    requires
        0 <= i < elements.len(),
    ensures
        tag_sets(elements).len() == elements.len(),
        tag_sets(elements)[i].0 == elements[i].0.deep_view(),
        tag_sets(elements)[i].1.contains(tag) == elements[i].1@.contains(tag),
{
}

} // verus!
