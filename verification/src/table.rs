//! Maps from elements to values, kept as arrays without duplicate keys.

use crate::element::{CopyEntry, Element, Sound};
use vstd::prelude::*;

verus! {

/// What the elements of a sequence mean.
pub open spec fn meanings<T: DeepView>(items: Seq<T>) -> Seq<T::V> {
    items.map_values(|item: T| item.deep_view())
}

/// The map from keys to the values that stand beside them.
pub open spec fn pairing<K, V>(keys: Seq<K>, values: Seq<V>) -> Map<K, V> {
    Map::new(|key: K| keys.contains(key), |key: K| values[keys.index_of(key)])
}

/// Where each key stands once, the pairing holds for it what stands beside it.
proof fn lemma_pairing<K, V>(keys: Seq<K>, values: Seq<V>)
    requires
        keys.no_duplicates(),
        keys.len() == values.len(),
    ensures
        keys.to_set() == pairing(keys, values).dom(),
        pairing(keys, values).dom().finite(),
        pairing(keys, values).dom().len() == keys.len(),
        forall|i: int|
            #![trigger keys[i]]
            #![trigger values[i]]
            0 <= i < keys.len() ==> {
                &&& pairing(keys, values).contains_key(keys[i])
                &&& pairing(keys, values)[keys[i]] == values[i]
            },
{
    let map = pairing(keys, values);
    assert(keys.to_set() =~= map.dom());
    keys.unique_seq_to_set();
    assert forall|i: int| 0 <= i < keys.len() implies map.contains_key(#[trigger] keys[i])
        && map[keys[i]] == values[i] by {
        assert(keys.contains(keys[i]));
        assert(keys[keys.index_of(keys[i])] == keys[i]);
    }
    assert forall|i: int| 0 <= i < keys.len() implies map[keys[i]] == #[trigger] values[i] by {
        assert(map.contains_key(keys[i]));
    }
}

/// To overwrite the value beside a key is to insert it into the pairing.
proof fn lemma_pairing_update<K, V>(keys: Seq<K>, values: Seq<V>, i: int, value: V)
    requires
        keys.no_duplicates(),
        keys.len() == values.len(),
        0 <= i < keys.len(),
    ensures
        pairing(keys, values.update(i, value)) == pairing(keys, values).insert(keys[i], value),
{
    let after = values.update(i, value);
    lemma_pairing(keys, values);
    lemma_pairing(keys, after);
    assert forall|key: K| keys.contains(key) implies #[trigger] pairing(keys, after)[key]
        == pairing(keys, values).insert(keys[i], value)[key] by {
        let j = keys.index_of(key);
        assert(keys[j] == key);
    }
    assert(pairing(keys, after) =~= pairing(keys, values).insert(keys[i], value));
}

/// To append a new key with its value is to insert it into the pairing.
proof fn lemma_pairing_push<K, V>(keys: Seq<K>, values: Seq<V>, key: K, value: V)
    requires
        keys.no_duplicates(),
        keys.len() == values.len(),
        !keys.contains(key),
    ensures
        keys.push(key).no_duplicates(),
        pairing(keys.push(key), values.push(value)) == pairing(keys, values).insert(key, value),
{
    let keys2 = keys.push(key);
    let values2 = values.push(value);
    assert(keys2.no_duplicates());
    lemma_pairing(keys, values);
    lemma_pairing(keys2, values2);
    assert forall|k: K| keys2.contains(k) <==> keys.contains(k) || k == key by {
        if keys.contains(k) {
            let j = keys.index_of(k);
            assert(keys2[j] == k);
        }
        if k == key {
            assert(keys2[keys.len() as int] == k);
        }
    }
    assert forall|k: K| keys2.contains(k) implies #[trigger] pairing(keys2, values2)[k] == pairing(
        keys,
        values,
    ).insert(key, value)[k] by {
        let j = keys2.index_of(k);
        assert(keys2[j] == k);
        if j < keys.len() {
            assert(keys[j] == k);
        }
    }
    assert(pairing(keys2, values2) =~= pairing(keys, values).insert(key, value));
}

/// To take a key out with its value is to remove it from the pairing.
proof fn lemma_pairing_remove<K, V>(keys: Seq<K>, values: Seq<V>, i: int)
    requires
        keys.no_duplicates(),
        keys.len() == values.len(),
        0 <= i < keys.len(),
    ensures
        keys.remove(i).no_duplicates(),
        pairing(keys.remove(i), values.remove(i)) == pairing(keys, values).remove(keys[i]),
{
    let keys2 = keys.remove(i);
    let values2 = values.remove(i);
    let key = keys[i];
    assert forall|a: int, b: int| 0 <= a < b < keys2.len() implies keys2[a] != keys2[b] by {
        let a0 = if a < i { a } else { a + 1 };
        let b0 = if b < i { b } else { b + 1 };
        assert(keys2[a] == keys[a0] && keys2[b] == keys[b0]);
    }
    lemma_pairing(keys, values);
    lemma_pairing(keys2, values2);
    assert forall|k: K| keys2.contains(k) <==> keys.contains(k) && k != key by {
        if keys2.contains(k) {
            let a = keys2.index_of(k);
            let a0 = if a < i { a } else { a + 1 };
            assert(keys[a0] == k);
        }
        if keys.contains(k) && k != key {
            let a = keys.index_of(k);
            assert(keys[a] == k);
            let a2 = if a < i { a } else { a - 1 };
            assert(keys2[a2] == k);
        }
    }
    assert forall|k: K| keys2.contains(k) implies #[trigger] pairing(keys2, values2)[k] == pairing(
        keys,
        values,
    ).remove(key)[k] by {
        let a = keys2.index_of(k);
        let a0 = if a < i { a } else { a + 1 };
        assert(keys2[a] == k);
        assert(values2[a] == values[a0]);
        assert(keys[a0] == k);
    }
    assert(pairing(keys2, values2) =~= pairing(keys, values).remove(key));
}

/// The map that some pairs make up; of two with one key the later one holds.
pub open spec fn gathered<K, V>(pairs: Seq<(K, V)>) -> Map<K, V>
    decreases pairs.len(),
{
    if pairs.len() == 0 {
        Map::empty()
    } else {
        gathered(pairs.drop_last()).insert(pairs.last().0, pairs.last().1)
    }
}

/// What the pairs of a table mean.
pub open spec fn pair_meanings<K: DeepView, V: DeepView>(pairs: Seq<(K, V)>) -> Seq<(K::V, V::V)> {
    pairs.map_values(|pair: (K, V)| (pair.0.deep_view(), pair.1.deep_view()))
}

/// A map from elements to values. Its entries stand in some order, which plays no
/// part in what it means.
#[derive(Debug)]
pub struct Table<K, V> {
    keys: Vec<K>,
    values: Vec<V>,
}

impl<K: Element, V: DeepView + Sound> View for Table<K, V> {
    type V = Map<K::V, V>;

    closed spec fn view(&self) -> Map<K::V, V> {
        pairing(meanings(self.keys@), self.values@)
    }
}

impl<K: Element, V: DeepView + Sound> DeepView for Table<K, V> {
    type V = Map<K::V, V::V>;

    open spec fn deep_view(&self) -> Map<K::V, V::V> {
        self@.map_values(|value: V| value.deep_view())
    }
}

impl<K: Element, V: DeepView + Sound> Table<K, V> {
    /// Whether each key stands once beside a sound value.
    pub closed spec fn wf(&self) -> bool {
        &&& self.keys@.len() == self.values@.len()
        &&& meanings(self.keys@).no_duplicates()
        &&& forall|i: int| 0 <= i < self.values@.len() ==> (#[trigger] self.values@[i]).valid()
    }

    /// The keys in the order in which they stand.
    pub closed spec fn order(&self) -> Seq<K::V> {
        meanings(self.keys@)
    }

    /// The keys stand once each, and every value is sound.
    pub proof fn order_lists_the_keys(&self)
        requires
            self.wf(),
        ensures
            self.order().no_duplicates(),
            self.order().to_set() == self@.dom(),
            self.order().len() == self@.dom().len(),
            self@.dom().finite(),
            forall|key: K::V| #[trigger] self@.contains_key(key) ==> self@[key].valid(),
    {
        lemma_pairing(meanings(self.keys@), self.values@);
        assert forall|key: K::V| #[trigger] self@.contains_key(key) implies self@[key].valid() by {
            let i = self.order().index_of(key);
            assert(self@[key] == self.values@[i]);
        }
    }

    /// An empty table.
    pub fn new() -> (table: Self)
        ensures
            table.wf(),
            table@ == Map::<K::V, V>::empty(),
            table.order() == Seq::<K::V>::empty(),
    {
        let table = Table { keys: Vec::new(), values: Vec::new() };
        assert(table@ =~= Map::<K::V, V>::empty());
        assert(table.order() =~= Seq::<K::V>::empty());
        table
    }

    /// A table of some pairs; of two with one key the later one holds.
    pub fn from_pairs(pairs: Vec<(K, V)>) -> (table: Self)
        requires
            forall|i: int| 0 <= i < pairs@.len() ==> (#[trigger] pairs@[i]).1.valid(),
        ensures
            table.wf(),
            table.deep_view() == gathered(pair_meanings(pairs@)),
    {
        let mut table: Table<K, V> = Table::new();
        let ghost all = pair_meanings(pairs@);
        let ghost mut i: int = 0;
        assert(all.take(0) =~= Seq::empty());
        assert(table.deep_view() =~= gathered(all.take(0)));
        for pair in items: pairs.into_iter()
            invariant
                items.seq() == pairs@,
                i == items.index(),
                0 <= i <= pairs@.len(),
                all == pair_meanings(pairs@),
                forall|k: int| 0 <= k < pairs@.len() ==> (#[trigger] pairs@[k]).1.valid(),
                table.wf(),
                table.deep_view() == gathered(all.take(i)),
        {
            let ghost before = table.deep_view();
            assert(pair == pairs@[i]);
            assert(pairs@[i].1.valid());
            let (key, value) = pair;
            table.insert(key, value);
            proof {
                assert(all.take(i + 1).drop_last() =~= all.take(i));
                assert(all.take(i + 1).last() == (key.deep_view(), value.deep_view()));
                assert(table.deep_view() =~= before.insert(key.deep_view(), value.deep_view()));
                i = i + 1;
            }
        }
        assert(all.take(i) =~= all);
        table
    }

    /// References to all pairs, in some order.
    pub fn pairs(&self) -> (pairs: Vec<(&K, &V)>)
        requires
            self.wf(),
        ensures
            gathered(pair_meanings(pairs@)) == self.deep_view(),
            forall|i: int| 0 <= i < pairs@.len() ==> (#[trigger] pairs@[i]).1.valid(),
    {
        let mut pairs: Vec<(&K, &V)> = Vec::new();
        let ghost order = self.order();
        let n = self.len();
        let mut i: usize = 0;
        proof {
            self.order_lists_the_keys();
            assert(pair_meanings(pairs@) =~= Seq::empty());
            assert(gathered(pair_meanings(pairs@)) =~= self.deep_view().restrict(
                order.take(0).to_set(),
            ));
        }
        while i < n
            invariant
                i <= n,
                n == order.len(),
                order == self.order(),
                self.wf(),
                gathered(pair_meanings(pairs@)) == self.deep_view().restrict(
                    order.take(i as int).to_set(),
                ),
                forall|k: int| 0 <= k < pairs@.len() ==> (#[trigger] pairs@[k]).1.valid(),
            decreases n - i,
        {
            let ghost before = pair_meanings(pairs@);
            let ghost seen = order.take(i as int).to_set();
            let key = self.key_at(i);
            let value = self.value_at(i);
            pairs.push((key, value));
            proof {
                order.take(i as int).lemma_push_to_set_commute(order[i as int]);
                assert(order.take(i + 1) =~= order.take(i as int).push(order[i as int]));
                let more = pair_meanings(pairs@);
                assert(more.drop_last() =~= before);
                assert(more.last() == (key.deep_view(), value.deep_view()));
                assert(self.deep_view().restrict(seen.insert(order[i as int]))
                    =~= self.deep_view().restrict(seen).insert(
                    key.deep_view(),
                    value.deep_view(),
                ));
            }
            i = i + 1;
        }
        proof {
            self.order_lists_the_keys();
            assert(order.take(i as int) =~= order);
            assert(self.deep_view().restrict(order.to_set()) =~= self.deep_view());
        }
        pairs
    }

    /// The number of entries.
    pub fn len(&self) -> (n: usize)
        requires
            self.wf(),
        ensures
            n == self@.dom().len(),
            n == self.order().len(),
    {
        proof {
            self.order_lists_the_keys();
        }
        self.keys.len()
    }

    /// The key at an index of the order.
    pub fn key_at(&self, index: usize) -> (key: &K)
        requires
            self.wf(),
            index < self.order().len(),
        ensures
            key.deep_view() == self.order()[index as int],
            self@.contains_key(key.deep_view()),
    {
        proof {
            lemma_pairing(self.order(), self.values@);
            assert(self@.contains_key(self.order()[index as int]));
        }
        &self.keys[index]
    }

    /// The value at an index of the order.
    pub fn value_at(&self, index: usize) -> (value: &V)
        requires
            self.wf(),
            index < self.order().len(),
        ensures
            self@.contains_key(self.order()[index as int]),
            *value == self@[self.order()[index as int]],
            value.valid(),
    {
        proof {
            lemma_pairing(self.order(), self.values@);
            assert(self@.contains_key(self.order()[index as int]));
        }
        &self.values[index]
    }

    /// Where a key stands.
    fn find(&self, key: &K) -> (index: Option<usize>)
        requires
            self.wf(),
        ensures
            match index {
                Some(i) => i < self.order().len() && self.order()[i as int] == key.deep_view(),
                None => !self.order().contains(key.deep_view()),
            },
    {
        let mut i: usize = 0;
        while i < self.keys.len()
            invariant
                i <= self.keys@.len(),
                forall|k: int| 0 <= k < i ==> #[trigger] self.order()[k] != key.deep_view(),
            decreases self.keys@.len() - i,
        {
            if self.keys[i].same(key) {
                return Some(i);
            }
            assert(self.order()[i as int] != key.deep_view());
            i = i + 1;
        }
        None
    }

    /// What the table holds for a key.
    pub fn get(&self, key: &K) -> (value: Option<&V>)
        requires
            self.wf(),
        ensures
            match value {
                Some(v) => {
                    &&& self@.contains_key(key.deep_view())
                    &&& *v == self@[key.deep_view()]
                    &&& v.valid()
                },
                None => !self@.contains_key(key.deep_view()),
            },
    {
        proof {
            lemma_pairing(self.order(), self.values@);
        }
        match self.find(key) {
            Some(i) => {
                assert(self@.contains_key(self.order()[i as int]));
                Some(&self.values[i])
            },
            None => None,
        }
    }

    /// Whether the table holds something for a key.
    pub fn contains_key(&self, key: &K) -> (found: bool)
        requires
            self.wf(),
        ensures
            found == self@.contains_key(key.deep_view()),
    {
        match self.get(key) {
            Some(_) => true,
            None => false,
        }
    }

    /// Stores a value for a key, in place of what was stored for it.
    pub fn insert(&mut self, key: K, value: V)
        requires
            old(self).wf(),
            value.valid(),
        ensures
            final(self).wf(),
            final(self)@ == old(self)@.insert(key.deep_view(), value),
            final(self).order() == if old(self)@.contains_key(key.deep_view()) {
                old(self).order()
            } else {
                old(self).order().push(key.deep_view())
            },
    {
        let ghost keys = self.order();
        let ghost values = self.values@;
        proof {
            lemma_pairing(keys, values);
        }
        match self.find(&key) {
            Some(i) => {
                proof {
                    lemma_pairing_update(keys, values, i as int, value);
                    assert(self@.contains_key(keys[i as int]));
                }
                self.values.set(i, value);
            },
            None => {
                proof {
                    lemma_pairing_push(keys, values, key.deep_view(), value);
                }
                self.keys.push(key);
                self.values.push(value);
                assert(meanings(self.keys@) =~= keys.push(key.deep_view()));
            },
        }
    }

    /// A reference through which the value of a key can be changed; it has to be
    /// left sound.
    pub fn get_mut(&mut self, key: &K) -> (value: Option<&mut V>)
        requires
            old(self).wf(),
        ensures
            match value {
                Some(v) => {
                    &&& old(self)@.contains_key(key.deep_view())
                    &&& *v == old(self)@[key.deep_view()]
                    &&& v.valid()
                    &&& final(self)@ == old(self)@.insert(key.deep_view(), *final(v))
                    &&& final(v).valid() ==> final(self).wf()
                },
                None => {
                    &&& !old(self)@.contains_key(key.deep_view())
                    &&& final(self)@ == old(self)@
                    &&& final(self).wf()
                },
            },
            final(self).order() == old(self).order(),
    {
        let ghost keys = self.order();
        let ghost values = self.values@;
        proof {
            lemma_pairing(keys, values);
        }
        match self.find(key) {
            Some(i) => {
                proof {
                    assert(self@.contains_key(keys[i as int]));
                    assert forall|value: V|
                        pairing(keys, #[trigger] values.update(i as int, value)) == pairing(
                            keys,
                            values,
                        ).insert(keys[i as int], value) by {
                        lemma_pairing_update(keys, values, i as int, value);
                    }
                }
                Some(&mut self.values[i])
            },
            None => None,
        }
    }

    /// A reference through which the value at an index of the order can be changed;
    /// it has to be left sound.
    pub fn value_at_mut(&mut self, index: usize) -> (value: &mut V)
        requires
            old(self).wf(),
            index < old(self).order().len(),
        ensures
            old(self)@.contains_key(old(self).order()[index as int]),
            *value == old(self)@[old(self).order()[index as int]],
            value.valid(),
            final(self)@ == old(self)@.insert(old(self).order()[index as int], *final(value)),
            final(value).valid() ==> final(self).wf(),
            final(self).order() == old(self).order(),
    {
        let ghost keys = self.order();
        let ghost values = self.values@;
        proof {
            lemma_pairing(keys, values);
            assert(self@.contains_key(keys[index as int]));
            assert forall|value: V|
                pairing(keys, #[trigger] values.update(index as int, value)) == pairing(
                    keys,
                    values,
                ).insert(keys[index as int], value) by {
                lemma_pairing_update(keys, values, index as int, value);
            }
        }
        &mut self.values[index]
    }

    /// Takes a key out and hands back what was stored for it.
    pub fn remove(&mut self, key: &K) -> (value: Option<V>)
        requires
            old(self).wf(),
        ensures
            final(self).wf(),
            final(self)@ == old(self)@.remove(key.deep_view()),
            match value {
                Some(v) => {
                    &&& old(self)@.contains_key(key.deep_view())
                    &&& v == old(self)@[key.deep_view()]
                    &&& v.valid()
                },
                None => !old(self)@.contains_key(key.deep_view()),
            },
    {
        let ghost keys = self.order();
        let ghost values = self.values@;
        proof {
            lemma_pairing(keys, values);
        }
        match self.find(key) {
            Some(i) => {
                proof {
                    lemma_pairing_remove(keys, values, i as int);
                    assert(self@.contains_key(keys[i as int]));
                }
                self.keys.remove(i);
                let value = self.values.remove(i);
                assert(meanings(self.keys@) =~= keys.remove(i as int));
                assert(self.values@ =~= values.remove(i as int));
                Some(value)
            },
            None => {
                assert(self@ =~= self@.remove(key.deep_view()));
                None
            },
        }
    }

}

impl<K: Element, V: CopyEntry> Table<K, V> {
    /// A table with copies of the keys and values.
    pub fn duplicate(&self) -> (copy: Self)
        ensures
            self.wf() ==> {
                &&& copy.wf()
                &&& copy.deep_view() == self.deep_view()
                &&& copy.order() == self.order()
            },
    {
        let mut keys: Vec<K> = Vec::new();
        let mut values: Vec<V> = Vec::new();
        let mut i: usize = 0;
        while i < self.keys.len() && i < self.values.len()
            invariant
                i <= self.keys@.len(),
                i <= self.values@.len(),
                i == keys@.len(),
                i == values@.len(),
                forall|k: int| 0 <= k < i ==> (#[trigger] keys@[k]).deep_view() == self.order()[k],
                self.wf() ==> forall|k: int|
                    0 <= k < i ==> (#[trigger] values@[k]).valid() && values@[k].deep_view()
                        == self.values@[k].deep_view(),
            decreases self.keys@.len() - i,
        {
            keys.push(self.keys[i].duplicate());
            let value = self.values[i].replicate();
            assert(self.wf() ==> self.values@[i as int].valid());
            values.push(value);
            i = i + 1;
        }
        let copy = Table { keys, values };
        proof {
            if self.wf() {
                assert(copy.order() =~= self.order());
                lemma_pairing(self.order(), self.values@);
                lemma_pairing(copy.order(), copy.values@);
                assert forall|key: K::V| self@.contains_key(key) implies #[trigger] copy@[key].deep_view()
                    == self@[key].deep_view() by {
                    let k = self.order().index_of(key);
                    assert(self.order()[k] == key);
                    assert(copy.values@[k].deep_view() == self.values@[k].deep_view());
                }
                assert(copy.deep_view() =~= self.deep_view());
            }
        }
        copy
    }
}

/// Pairs that are gathered make up a map with exactly their keys, in which each key has the
/// last value that stands beside it.
pub proof fn gathered_pairs_hold_the_last_values<K, V>(pairs: Seq<(K, V)>, i: int, key: K)
    requires
        0 <= i < pairs.len(),
        forall|j: int| i < j < pairs.len() ==> (#[trigger] pairs[j]).0 != pairs[i].0,
    ensures
        gathered(pairs).contains_key(pairs[i].0),
        gathered(pairs)[pairs[i].0] == pairs[i].1,
        gathered(pairs).contains_key(key) == exists|j: int|
            0 <= j < pairs.len() && (#[trigger] pairs[j]).0 == key,
    decreases pairs.len(),
{
    lemma_gathered_keys(pairs, key);
    let front = pairs.drop_last();
    if i < pairs.len() - 1 {
        assert forall|j: int| i < j < front.len() implies (#[trigger] front[j]).0 != front[i].0 by {
            assert(pairs[j].0 != pairs[i].0);
        }
        gathered_pairs_hold_the_last_values(front, i, key);
        assert(pairs[pairs.len() - 1].0 != pairs[i].0);
    }
}

proof fn lemma_gathered_keys<K, V>(pairs: Seq<(K, V)>, key: K)
    ensures
        gathered(pairs).contains_key(key) == exists|j: int|
            0 <= j < pairs.len() && (#[trigger] pairs[j]).0 == key,
    decreases pairs.len(),
{
    if pairs.len() > 0 {
        let front = pairs.drop_last();
        lemma_gathered_keys(front, key);
        if gathered(front).contains_key(key) {
            let j = choose|j: int| 0 <= j < front.len() && (#[trigger] front[j]).0 == key;
            assert(pairs[j].0 == key);
        }
        if pairs.last().0 == key {
            assert(pairs[pairs.len() - 1].0 == key);
        }
        if exists|j: int| 0 <= j < pairs.len() && (#[trigger] pairs[j]).0 == key {
            let j = choose|j: int| 0 <= j < pairs.len() && (#[trigger] pairs[j]).0 == key;
            if j < front.len() {
                assert(front[j].0 == key);
            }
        }
    }
}

/// What items and pairs mean, they mean one by one, in their order.
pub proof fn meanings_stand_in_order<K: DeepView, V: DeepView>(
    items: Seq<K>,
    pairs: Seq<(K, V)>,
)
    ensures
        meanings(items).len() == items.len(),
        forall|i: int|
            0 <= i < items.len() ==> #[trigger] meanings(items)[i] == items[i].deep_view(),
        pair_meanings(pairs).len() == pairs.len(),
        forall|i: int|
            0 <= i < pairs.len() ==> (#[trigger] pair_meanings(pairs)[i]).0
                == pairs[i].0.deep_view() && pair_meanings(pairs)[i].1 == pairs[i].1.deep_view(),
{
}

} // verus!
