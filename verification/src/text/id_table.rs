//! A map keyed by character ids, kept as an array sorted by id.

use crate::text::node::{id_order_is_transitive, ids_are_totally_ordered, CharId};
use vstd::prelude::*;

verus! {

/// Whether a sequence of ids is strictly ascending.
pub open spec fn ascending(ids: Seq<CharId>) -> bool {
    forall|i: int, j: int| 0 <= i < j < ids.len() ==> (#[trigger] ids[i]).before(#[trigger] ids[j])
}

/// The keys of a sequence of entries.
pub open spec fn keys_of<V>(entries: Seq<(CharId, V)>) -> Seq<CharId> {
    entries.map_values(|entry: (CharId, V)| entry.0)
}

/// The map that a sequence of entries with different keys stands for.
pub open spec fn entry_map<V>(entries: Seq<(CharId, V)>) -> Map<CharId, V> {
    Map::new(
        |id: CharId| keys_of(entries).contains(id),
        |id: CharId| entries[keys_of(entries).index_of(id)].1,
    )
}

/// In sorted entries each key stands once, and the map holds for it what stands
/// beside it.
proof fn lemma_sorted_entries<V>(entries: Seq<(CharId, V)>)
    requires
        ascending(keys_of(entries)),
    ensures
        keys_of(entries).no_duplicates(),
        keys_of(entries).to_set() == entry_map(entries).dom(),
        keys_of(entries).len() == entries.len(),
        entry_map(entries).dom().finite(),
        entry_map(entries).dom().len() == entries.len(),
        forall|i: int|
            #![trigger entries[i]]
            0 <= i < entries.len() ==> {
                &&& keys_of(entries)[i] == entries[i].0
                &&& entry_map(entries).contains_key(entries[i].0)
                &&& entry_map(entries)[entries[i].0] == entries[i].1
            },
{
    let keys = keys_of(entries);
    assert(keys.no_duplicates()) by {
        assert forall|i: int, j: int| 0 <= i < j < keys.len() implies keys[i] != keys[j] by {
            ids_are_totally_ordered(keys[i], keys[j]);
        }
    }
    assert(keys.to_set() =~= entry_map(entries).dom());
    keys.unique_seq_to_set();
    assert forall|i: int| #![trigger entries[i]] 0 <= i < entries.len() implies {
        &&& keys[i] == entries[i].0
        &&& entry_map(entries).contains_key(entries[i].0)
        &&& entry_map(entries)[entries[i].0] == entries[i].1
    } by {
        assert(keys[i] == entries[i].0);
        assert(keys.contains(entries[i].0));
        assert(keys[keys.index_of(entries[i].0)] == entries[i].0);
    }
}

/// To overwrite the value of an entry is to insert it into the map.
proof fn lemma_overwrite<V>(entries: Seq<(CharId, V)>, i: int, value: V)
    requires
        ascending(keys_of(entries)),
        0 <= i < entries.len(),
    ensures
        keys_of(entries.update(i, (entries[i].0, value))) == keys_of(entries),
        entry_map(entries.update(i, (entries[i].0, value))) == entry_map(entries).insert(
            entries[i].0,
            value,
        ),
{
    let after = entries.update(i, (entries[i].0, value));
    assert(keys_of(after) =~= keys_of(entries));
    lemma_sorted_entries(entries);
    lemma_sorted_entries(after);
    assert forall|id: CharId| entry_map(entries).contains_key(id) implies #[trigger] entry_map(
        after,
    )[id] == entry_map(entries).insert(entries[i].0, value)[id] by {
        let j = keys_of(entries).index_of(id);
        assert(keys_of(entries)[j] == id);
        assert(entries[j].0 == id);
        assert(after[j].0 == id);
    }
    assert(after[i] == (entries[i].0, value));
    assert(entry_map(after) =~= entry_map(entries).insert(entries[i].0, value));
}

/// To place an entry between those before it and those after it is to insert it
/// into the map.
proof fn lemma_place<V>(entries: Seq<(CharId, V)>, i: int, id: CharId, value: V)
    requires
        ascending(keys_of(entries)),
        0 <= i <= entries.len(),
        forall|k: int| 0 <= k < i ==> (#[trigger] entries[k]).0.before(id),
        forall|k: int| i <= k < entries.len() ==> id.before((#[trigger] entries[k]).0),
    ensures
        ascending(keys_of(entries.insert(i, (id, value)))),
        !entry_map(entries).contains_key(id),
        entry_map(entries.insert(i, (id, value))) == entry_map(entries).insert(id, value),
{
    let after = entries.insert(i, (id, value));
    let keys = keys_of(after);
    assert forall|a: int, b: int| 0 <= a < b < keys.len() implies (#[trigger] keys[a]).before(
        #[trigger] keys[b],
    ) by {
        let a0 = if a < i { a } else { a - 1 };
        let b0 = if b < i { b } else { b - 1 };
        if a == i {
            assert(entries[b0].0 == keys[b]);
        } else if b == i {
            assert(entries[a0].0 == keys[a]);
        } else {
            assert(keys_of(entries)[a0].before(keys_of(entries)[b0]));
        }
    }
    lemma_sorted_entries(entries);
    lemma_sorted_entries(after);
    assert(after[i] == (id, value));
    if entry_map(entries).contains_key(id) {
        let k = keys_of(entries).index_of(id);
        assert(keys_of(entries)[k] == id);
        assert(entries[k].0 == id);
        ids_are_totally_ordered(id, id);
    }
    assert forall|k: CharId| entry_map(after).contains_key(k) implies entry_map(entries).insert(
        id,
        value,
    ).contains_key(k) && #[trigger] entry_map(after)[k] == entry_map(entries).insert(id, value)[k] by {
        let j = keys.index_of(k);
        assert(keys[j] == k);
        assert(after[j].0 == k);
        if j != i {
            let j0 = if j < i { j } else { j - 1 };
            assert(entries[j0] == after[j]);
        }
    }
    assert forall|k: CharId| entry_map(entries).insert(id, value).contains_key(k) implies
        #[trigger] entry_map(after).contains_key(k) by {
        if k != id {
            let j = keys_of(entries).index_of(k);
            assert(keys_of(entries)[j] == k);
            let j1 = if j < i { j } else { j + 1 };
            assert(entries[j] == after[j1]);
        }
    }
    assert(entry_map(after) =~= entry_map(entries).insert(id, value));
}

/// A map from character ids, sorted by id.
#[derive(Debug)]
pub struct IdTable<V> {
    entries: Vec<(CharId, V)>,
}

impl<V: Copy> Clone for IdTable<V> {
    fn clone(&self) -> (copy: Self)
        ensures
            copy@ == self@,
            copy.wf() == self.wf(),
    {
        let mut entries: Vec<(CharId, V)> = Vec::new();
        let mut i: usize = 0;
        while i < self.entries.len()
            invariant
                i <= self.entries@.len(),
                entries@ == self.entries@.take(i as int),
            decreases self.entries@.len() - i,
        {
            let entry = &self.entries[i];
            entries.push((entry.0, entry.1));
            i = i + 1;
            assert(entries@ =~= self.entries@.take(i as int));
        }
        assert(entries@ =~= self.entries@);
        IdTable { entries }
    }
}

impl<V> View for IdTable<V> {
    type V = Map<CharId, V>;

    closed spec fn view(&self) -> Map<CharId, V> {
        entry_map(self.entries@)
    }
}

impl<V> IdTable<V> {
    /// Whether the entries are sorted by id.
    pub closed spec fn wf(&self) -> bool {
        ascending(keys_of(self.entries@))
    }

    /// The keys in ascending order.
    pub closed spec fn keys(&self) -> Seq<CharId> {
        keys_of(self.entries@)
    }

    /// An empty table.
    pub fn new() -> (table: Self)
        ensures
            table.wf(),
            table@ == Map::<CharId, V>::empty(),
            table.keys() == Seq::<CharId>::empty(),
    {
        let table = IdTable { entries: Vec::new() };
        assert(table@ =~= Map::<CharId, V>::empty());
        assert(table.keys() =~= Seq::<CharId>::empty());
        table
    }

    /// The keys are the domain of the map, each once and in ascending order.
    pub proof fn keys_are_the_domain(&self)
        requires
            self.wf(),
        ensures
            self.keys().no_duplicates(),
            self.keys().to_set() == self@.dom(),
            ascending(self.keys()),
            self@.dom().finite(),
            self.keys().len() == self@.dom().len(),
    {
        lemma_sorted_entries(self.entries@);
    }

    /// The number of entries.
    pub fn len(&self) -> (n: usize)
        requires
            self.wf(),
        ensures
            n == self@.dom().len(),
            n == self.keys().len(),
    {
        proof {
            lemma_sorted_entries(self.entries@);
        }
        self.entries.len()
    }

    /// The entry at an index of the ascending order.
    pub fn entry_at(&self, index: usize) -> (entry: (CharId, &V))
        requires
            self.wf(),
            index < self.keys().len(),
        ensures
            entry.0 == self.keys()[index as int],
            self@.contains_key(entry.0),
            *entry.1 == self@[entry.0],
    {
        proof {
            lemma_sorted_entries(self.entries@);
        }
        let entry = &self.entries[index];
        assert(*entry == self.entries@[index as int]);
        (entry.0, &entry.1)
    }

    /// The index of an id among the entries, or the index at which it belongs.
    fn search(&self, id: CharId) -> (found: Result<usize, usize>)
        requires
            self.wf(),
        ensures
            match found {
                Ok(i) => i < self.entries@.len() && self.entries@[i as int].0 == id,
                Err(i) => {
                    &&& i <= self.entries@.len()
                    &&& forall|k: int| 0 <= k < i ==> (#[trigger] self.entries@[k]).0.before(id)
                    &&& forall|k: int|
                        i <= k < self.entries@.len() ==> id.before((#[trigger] self.entries@[k]).0)
                },
            },
    {
        proof {
            lemma_sorted_entries(self.entries@);
        }
        let mut low: usize = 0;
        let mut high: usize = self.entries.len();
        while low < high
            invariant
                low <= high <= self.entries@.len(),
                ascending(self.keys()),
                self.keys() == keys_of(self.entries@),
                forall|k: int| 0 <= k < low ==> (#[trigger] self.entries@[k]).0.before(id),
                forall|k: int|
                    high <= k < self.entries@.len() ==> id.before((#[trigger] self.entries@[k]).0),
            decreases high - low,
        {
            let mid: usize = low + (high - low) / 2;
            let here = self.entries[mid].0;
            assert(here == self.keys()[mid as int]);
            if here == id {
                return Ok(mid);
            }
            if here.is_before(&id) {
                assert forall|k: int| 0 <= k < mid + 1 implies (
                #[trigger] self.entries@[k]).0.before(id) by {
                    if k < mid {
                        assert(self.keys()[k].before(self.keys()[mid as int]));
                        id_order_is_transitive(self.keys()[k], here, id);
                    }
                }
                low = mid + 1;
            } else {
                proof {
                    ids_are_totally_ordered(here, id);
                }
                assert forall|k: int| mid <= k < self.entries@.len() implies id.before(
                    (#[trigger] self.entries@[k]).0,
                ) by {
                    if k > mid {
                        assert(self.keys()[mid as int].before(self.keys()[k]));
                        id_order_is_transitive(id, here, self.keys()[k]);
                    }
                }
                high = mid;
            }
        }
        Err(low)
    }

    /// What the table holds for an id.
    pub fn get(&self, id: &CharId) -> (value: Option<&V>)
        requires
            self.wf(),
        ensures
            match value {
                Some(v) => self@.contains_key(*id) && *v == self@[*id],
                None => !self@.contains_key(*id),
            },
    {
        match self.search(*id) {
            Ok(i) => {
                proof {
                    lemma_sorted_entries(self.entries@);
                }
                let entry = &self.entries[i];
                assert(*entry == self.entries@[i as int]);
                Some(&entry.1)
            },
            Err(i) => {
                proof {
                    if self@.contains_key(*id) {
                        lemma_place(self.entries@, i as int, *id, self@[*id]);
                    }
                }
                None
            },
        }
    }

    /// Stores a value for an id, in place of what was stored for it.
    pub fn insert(&mut self, id: CharId, value: V)
        requires
            old(self).wf(),
        ensures
            final(self).wf(),
            final(self)@ == old(self)@.insert(id, value),
    {
        match self.search(id) {
            Ok(i) => {
                proof {
                    lemma_overwrite(self.entries@, i as int, value);
                }
                self.entries.set(i, (id, value));
            },
            Err(i) => {
                proof {
                    lemma_place(self.entries@, i as int, id, value);
                }
                self.entries.insert(i, (id, value));
            },
        }
    }

    /// A reference through which the value of an id can be changed.
    pub fn get_mut(&mut self, id: &CharId) -> (value: Option<&mut V>)
        requires
            old(self).wf(),
        ensures
            final(self).wf(),
            match value {
                Some(v) => {
                    &&& old(self)@.contains_key(*id)
                    &&& *v == old(self)@[*id]
                    &&& final(self)@ == old(self)@.insert(*id, *final(v))
                },
                None => !old(self)@.contains_key(*id) && final(self)@ == old(self)@,
            },
    {
        let ghost entries = self.entries@;
        match self.search(*id) {
            Ok(i) => {
                proof {
                    lemma_sorted_entries(entries);
                    assert(entries[i as int].0 == *id);
                    assert forall|value: V|
                        ascending(
                            keys_of(#[trigger] entries.update(i as int, (*id, value))),
                        ) && entry_map(entries.update(i as int, (*id, value))) == entry_map(
                            entries,
                        ).insert(*id, value) by {
                        lemma_overwrite(entries, i as int, value);
                    }
                }
                Some(&mut self.entries[i].1)
            },
            Err(i) => {
                proof {
                    if self@.contains_key(*id) {
                        lemma_place(entries, i as int, *id, self@[*id]);
                    }
                }
                None
            },
        }
    }
}

} // verus!
