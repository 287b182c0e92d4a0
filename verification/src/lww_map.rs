//! Last-writer-wins maps.

use crate::clock::LogicalClock;
use crate::crdt::Crdt;
use crate::element::{Element, Sound};
use crate::items::{enumerates, lemma_enumerates_push};
use crate::register::{LwwRegister, Written};
use crate::table::{gathered, meanings, pair_meanings, Table};
use vstd::prelude::*;

verus! {

/// The state of a last-writer-wins map: for each key that was ever written, the
/// last write; a removal writes nothing under the key.
pub open spec fn has_key<K, V>(state: Map<K, Written<Option<V>>>, key: K) -> bool {
    state.contains_key(key) && state[key].value is Some
}

/// The entries that a map in some state shows.
pub open spec fn shown_entries<K, V>(state: Map<K, Written<Option<V>>>) -> Map<K, V> {
    Map::new(|key: K| has_key(state, key), |key: K| state[key].value->0)
}

/// The state after a write under a key, which takes effect if it is the first
/// under the key or later than the last.
pub open spec fn written_under<K, V>(
    state: Map<K, Written<Option<V>>>,
    key: K,
    value: Option<V>,
    timestamp: LogicalClock,
) -> Map<K, Written<Option<V>>> {
    if state.contains_key(key) {
        state.insert(key, state[key].overwritten(value, timestamp))
    } else {
        state.insert(key, Written { value, timestamp })
    }
}

/// The state of two replicas together: the later write under each key.
pub open spec fn maps_join<K, V>(
    ours: Map<K, Written<Option<V>>>,
    theirs: Map<K, Written<Option<V>>>,
) -> Map<K, Written<Option<V>>> {
    Map::new(
        |key: K| ours.contains_key(key) || theirs.contains_key(key),
        |key: K|
            if !ours.contains_key(key) {
                theirs[key]
            } else if !theirs.contains_key(key) {
                ours[key]
            } else {
                ours[key].joined(theirs[key])
            },
    )
}

/// Last-Writer-Wins Map.
///
/// A map where each key has an associated LWW register.
#[derive(Debug)]
pub struct LwwMap<K, V> {
    entries: Table<K, LwwRegister<Option<V>>>,
}

impl<K: Element, V: Element> View for LwwMap<K, V> {
    type V = Map<K::V, Written<Option<V::V>>>;

    closed spec fn view(&self) -> Map<K::V, Written<Option<V::V>>> {
        self.entries.deep_view()
    }
}

impl<K: Element, V: Element> Clone for LwwMap<K, V> {
    fn clone(&self) -> (copy: Self)
        ensures
            self.valid() ==> copy.valid() && copy@ == self@,
    {
        LwwMap { entries: self.entries.duplicate() }
    }
}

impl<K: Element, V: Element> Default for LwwMap<K, V> {
    fn default() -> (map: LwwMap<K, V>)
        ensures
            map.valid(),
            map@ == Map::<K::V, Written<Option<V::V>>>::empty(),
    {
        LwwMap::new()
    }
}

impl<K: Element, V: Element> LwwMap<K, V> {
    /// Create a new LWW map.
    pub fn new() -> (map: LwwMap<K, V>)
        ensures
            map.valid(),
            map@ == Map::<K::V, Written<Option<V::V>>>::empty(),
    {
        let map = LwwMap { entries: Table::new() };
        assert(map@ =~= Map::<K::V, Written<Option<V::V>>>::empty());
        map
    }

    /// A map with some registers; of two under one key the later one holds.
    pub fn from_registers(registers: Vec<(K, LwwRegister<Option<V>>)>) -> (map: LwwMap<K, V>)
        ensures
            map.valid(),
            map@ == gathered(pair_meanings(registers@)),
    {
        LwwMap { entries: Table::from_pairs(registers) }
    }

    /// The registers under all keys that were ever written, in some order.
    pub fn registers(&self) -> (registers: Vec<(&K, &LwwRegister<Option<V>>)>)
        requires
            self.valid(),
        ensures
            gathered(pair_meanings(registers@)) == self@,
    {
        self.entries.pairs()
    }

    /// Writes under a key.
    fn write(&mut self, key: K, value: Option<V>, timestamp: LogicalClock)
        requires
            old(self).valid(),
        ensures
            final(self).valid(),
            final(self)@ == written_under(
                old(self)@,
                key.deep_view(),
                value.deep_view(),
                timestamp,
            ),
    {
        let ghost before = self@;
        let ghost meaning = key.deep_view();
        if self.entries.contains_key(&key) {
            match self.entries.get_mut(&key) {
                Some(register) => {
                    register.set(value, timestamp);
                },
                None => {},
            }
        } else {
            self.entries.insert(key, LwwRegister::new(value, timestamp));
        }
        assert(self@ =~= written_under(before, meaning, value.deep_view(), timestamp));
    }

    /// Set a value for a key.
    pub fn set(&mut self, key: K, value: V, timestamp: LogicalClock)
        requires
            old(self).valid(),
        ensures
            final(self).valid(),
            final(self)@ == written_under(
                old(self)@,
                key.deep_view(),
                Some(value.deep_view()),
                timestamp,
            ),
    {
        self.write(key, Some(value), timestamp);
    }

    /// Remove a key.
    ///
    /// A removal for a key this replica has never observed still records a
    /// tombstone: replicas receive operations out of order, so a causally later
    /// removal can arrive before the write it supersedes, and has to win over it.
    pub fn remove(&mut self, key: &K, timestamp: LogicalClock)
        requires
            old(self).valid(),
        ensures
            final(self).valid(),
            final(self)@ == written_under(old(self)@, key.deep_view(), None, timestamp),
    {
        self.write(key.duplicate(), None, timestamp);
    }

    /// Get a value.
    pub fn get(&self, key: &K) -> (value: Option<&V>)
        requires
            self.valid(),
        ensures
            match value {
                Some(v) => has_key(self@, key.deep_view()) && Some(v.deep_view())
                    == self@[key.deep_view()].value,
                None => !has_key(self@, key.deep_view()),
            },
    {
        match self.entries.get(key) {
            Some(register) => {
                assert(self@[key.deep_view()] == register@);
                match register.get() {
                    Some(value) => Some(value),
                    None => None,
                }
            },
            None => None,
        }
    }

    /// Check if a key exists.
    pub fn contains_key(&self, key: &K) -> (found: bool)
        requires
            self.valid(),
        ensures
            found == has_key(self@, key.deep_view()),
    {
        match self.get(key) {
            Some(_) => true,
            None => false,
        }
    }

    /// Get all key-value pairs, in some order.
    pub fn iter(&self) -> (pairs: Vec<(&K, &V)>)
        requires
            self.valid(),
        ensures
            enumerates(
                pairs@.map_values(|pair: (&K, &V)| pair.0.deep_view()),
                shown_entries(self@).dom(),
            ),
            forall|i: int|
                0 <= i < pairs@.len() ==> (#[trigger] pairs@[i]).1.deep_view() == shown_entries(
                    self@,
                )[pairs@[i].0.deep_view()],
    {
        let mut pairs: Vec<(&K, &V)> = Vec::new();
        let ghost order = self.entries.order();
        let n = self.entries.len();
        let mut i: usize = 0;
        proof {
            self.entries.order_lists_the_keys();
            assert(pairs@.map_values(|pair: (&K, &V)| pair.0.deep_view()) =~= Seq::empty());
            assert(order.take(0).to_set().filter(|k: K::V| has_key(self@, k)) =~= Set::empty());
            assert(Seq::<K::V>::empty().to_set() =~= Set::empty());
        }
        while i < n
            invariant
                i <= n,
                n == order.len(),
                order == self.entries.order(),
                order.no_duplicates(),
                self.valid(),
                enumerates(
                    pairs@.map_values(|pair: (&K, &V)| pair.0.deep_view()),
                    order.take(i as int).to_set().filter(|k: K::V| has_key(self@, k)),
                ),
                forall|j: int|
                    0 <= j < pairs@.len() ==> (#[trigger] pairs@[j]).1.deep_view()
                        == shown_entries(self@)[pairs@[j].0.deep_view()],
            decreases n - i,
        {
            let ghost seen = order.take(i as int).to_set();
            let ghost before = pairs@.map_values(|pair: (&K, &V)| pair.0.deep_view());
            let ghost shown = seen.filter(|k: K::V| has_key(self@, k));
            let key = self.entries.key_at(i);
            let register = self.entries.value_at(i);
            proof {
                order.take(i as int).lemma_push_to_set_commute(order[i as int]);
                assert(order.take(i + 1) =~= order.take(i as int).push(order[i as int]));
                assert(!seen.contains(order[i as int])) by {
                    if seen.contains(order[i as int]) {
                        let k = choose|k: int|
                            0 <= k < i && order.take(i as int)[k] == order[i as int];
                        assert(order[k] == order[i as int]);
                    }
                }
                assert(self@[order[i as int]] == register@);
            }
            match register.get() {
                Some(value) => {
                    proof {
                        lemma_enumerates_push(before, shown, key.deep_view());
                    }
                    pairs.push((key, value));
                    assert(pairs@.map_values(|pair: (&K, &V)| pair.0.deep_view()) =~= before.push(
                        key.deep_view(),
                    ));
                    assert(seen.insert(order[i as int]).filter(|k: K::V| has_key(self@, k))
                        =~= shown.insert(key.deep_view()));
                },
                None => {
                    assert(seen.insert(order[i as int]).filter(|k: K::V| has_key(self@, k))
                        =~= shown);
                },
            }
            i = i + 1;
        }
        proof {
            self.entries.order_lists_the_keys();
            assert(order.take(i as int) =~= order);
            assert(order.to_set().filter(|k: K::V| has_key(self@, k)) =~= shown_entries(
                self@,
            ).dom());
        }
        pairs
    }

    /// Get all keys, in some order.
    pub fn keys(&self) -> (keys: Vec<&K>)
        requires
            self.valid(),
        ensures
            enumerates(meanings(keys@), shown_entries(self@).dom()),
    {
        let pairs = self.iter();
        let mut keys: Vec<&K> = Vec::new();
        let mut i: usize = 0;
        while i < pairs.len()
            invariant
                i <= pairs@.len(),
                i == keys@.len(),
                forall|k: int| 0 <= k < i ==> *(#[trigger] keys@[k]) == *pairs@[k].0,
            decreases pairs@.len() - i,
        {
            keys.push(pairs[i].0);
            i = i + 1;
        }
        assert(meanings(keys@) =~= pairs@.map_values(|pair: (&K, &V)| pair.0.deep_view()));
        keys
    }

    /// Get the number of entries.
    pub fn len(&self) -> (n: usize)
        requires
            self.valid(),
        ensures
            n == shown_entries(self@).dom().len(),
            shown_entries(self@).dom().finite(),
    {
        let keys = self.keys();
        proof {
            meanings(keys@).unique_seq_to_set();
        }
        keys.len()
    }

    /// Check if the map is empty.
    pub fn is_empty(&self) -> (empty: bool)
        requires
            self.valid(),
        ensures
            empty == (shown_entries(self@) == Map::<K::V, V::V>::empty()),
    {
        let n = self.len();
        proof {
            if n == 0 {
                assert(shown_entries(self@).dom() =~= Set::empty());
                assert(shown_entries(self@) =~= Map::<K::V, V::V>::empty());
            }
        }
        n == 0
    }
}

impl<K: Element, V: Element> Sound for LwwMap<K, V> {
    closed spec fn valid(&self) -> bool {
        self.entries.wf()
    }
}

impl<K: Element, V: Element> Crdt for LwwMap<K, V> {
    open spec fn join(
        ours: Map<K::V, Written<Option<V::V>>>,
        theirs: Map<K::V, Written<Option<V::V>>>,
    ) -> Map<K::V, Written<Option<V::V>>> {
        maps_join(ours, theirs)
    }

    fn merge(&mut self, other: &Self) {
        let ghost ours = self@;
        let ghost theirs = other@;
        let ghost order = other.entries.order();
        let n = other.entries.len();
        let mut i: usize = 0;
        proof {
            other.entries.order_lists_the_keys();
            assert(self@ =~= maps_join(ours, theirs.restrict(order.take(0).to_set())));
        }
        while i < n
            invariant
                i <= n,
                n == order.len(),
                order == other.entries.order(),
                order.no_duplicates(),
                order.to_set() == theirs.dom(),
                other.valid(),
                theirs == other@,
                self.valid(),
                self@ == maps_join(ours, theirs.restrict(order.take(i as int).to_set())),
            decreases n - i,
        {
            let ghost seen = order.take(i as int).to_set();
            let ghost before = self@;
            let key = other.entries.key_at(i);
            let register = other.entries.value_at(i);
            let ghost meaning = key.deep_view();
            proof {
                order.take(i as int).lemma_push_to_set_commute(order[i as int]);
                assert(order.take(i + 1) =~= order.take(i as int).push(order[i as int]));
                assert(!seen.contains(meaning)) by {
                    if seen.contains(meaning) {
                        let k = choose|k: int| 0 <= k < i && order.take(i as int)[k] == meaning;
                        assert(order[k] == order[i as int]);
                    }
                }
                assert(theirs[meaning] == register@);
                assert(!theirs.restrict(seen).contains_key(meaning));
                assert(before.contains_key(meaning) == ours.contains_key(meaning));
            }
            if self.entries.contains_key(key) {
                match self.entries.get_mut(key) {
                    Some(existing) => {
                        assert(existing@ == before[meaning]);
                        existing.merge(register);
                        assert(existing@ == before[meaning].joined(theirs[meaning]));
                    },
                    None => {},
                }
                assert(before[meaning] == ours[meaning]);
                assert(self@ =~= before.insert(meaning, ours[meaning].joined(theirs[meaning])));
            } else {
                self.entries.insert(key.duplicate(), register.clone());
                assert(self@ =~= before.insert(meaning, theirs[meaning]));
            }
            i = i + 1;
            assert(order.take(i as int).to_set() == seen.insert(meaning));
            assert(self@ =~= maps_join(ours, theirs.restrict(order.take(i as int).to_set())));
        }
        proof {
            assert(order.take(i as int) =~= order);
            assert(theirs.restrict(theirs.dom()) =~= theirs);
        }
    }
}

/// Whether no two different values were written under a key at the same time.
pub open spec fn writes_agree<K, V>(
    a: Map<K, Written<Option<V>>>,
    b: Map<K, Written<Option<V>>>,
) -> bool {
    forall|key: K| #[trigger]
        a.contains_key(key) && b.contains_key(key) && a[key].timestamp == b[key].timestamp
            ==> a[key].value == b[key].value
}

/// Merging maps is associative and idempotent, and commutative where no two
/// different values were written under a key at the same time.
pub proof fn lww_maps_converge<K, V>(
    a: Map<K, Written<Option<V>>>,
    b: Map<K, Written<Option<V>>>,
    c: Map<K, Written<Option<V>>>,
)
    ensures
        maps_join(maps_join(a, b), c) == maps_join(a, maps_join(b, c)),
        maps_join(a, a) == a,
        maps_join(maps_join(a, b), b) == maps_join(a, b),
        writes_agree(a, b) ==> maps_join(a, b) == maps_join(b, a),
{
    assert(maps_join(maps_join(a, b), c) =~= maps_join(a, maps_join(b, c)));
    assert(maps_join(a, a) =~= a);
    assert(maps_join(maps_join(a, b), b) =~= maps_join(a, b));
    if writes_agree(a, b) {
        assert(maps_join(a, b) =~= maps_join(b, a));
    }
}

/// Writes under one key, removals among them, have the same outcome in whatever
/// order they arrive, if no two are made at the same time: a removal that is
/// later than a write wins over it even if it arrives first.
pub proof fn writes_commute<K, V>(
    state: Map<K, Written<Option<V>>>,
    key: K,
    first: Option<V>,
    first_at: LogicalClock,
    second: Option<V>,
    second_at: LogicalClock,
)
    requires
        first_at == second_at ==> first == second,
    ensures
        written_under(written_under(state, key, first, first_at), key, second, second_at)
            == written_under(written_under(state, key, second, second_at), key, first, first_at),
{
    assert(written_under(written_under(state, key, first, first_at), key, second, second_at)
        =~= written_under(written_under(state, key, second, second_at), key, first, first_at));
}

/// A removal hides its key from every earlier write, whether the write has arrived
/// or not, until a later write.
pub proof fn removal_beats_earlier_writes<K, V>(
    state: Map<K, Written<Option<V>>>,
    key: K,
    removed_at: LogicalClock,
    value: V,
    written_at: LogicalClock,
)
    requires
        state.contains_key(key) ==> state[key].timestamp.before(removed_at),
    ensures
        ({
            let removed = written_under(state, key, None, removed_at);
            let then_written = written_under(removed, key, Some(value), written_at);
            &&& !has_key(removed, key)
            &&& has_key(then_written, key) == removed_at.before(written_at)
            &&& removed_at.before(written_at) ==> then_written[key].value == Some(value)
        }),
{
}

/// A write touches no other key.
pub proof fn writes_are_local<K, V>(
    state: Map<K, Written<Option<V>>>,
    key: K,
    value: Option<V>,
    timestamp: LogicalClock,
    other: K,
)
    requires
        other != key,
    ensures
        has_key(written_under(state, key, value, timestamp), other) == has_key(state, other),
        has_key(state, other) ==> written_under(state, key, value, timestamp)[other]
            == state[other],
{
}

/// A merged map has the keys of both maps. Under a key that both have it holds the write
/// with the later timestamp, whichever of the two merges and whether that write is a value
/// or a removal; what only one of them has is taken over as it is.
pub proof fn merged_maps_hold_the_later_writes<K, V>(
    a: Map<K, Written<Option<V>>>,
    b: Map<K, Written<Option<V>>>,
    key: K,
)
    ensures
        maps_join(a, b).contains_key(key) == (a.contains_key(key) || b.contains_key(key)),
        a.contains_key(key) && b.contains_key(key) && a[key].timestamp.before(b[key].timestamp)
            ==> maps_join(a, b)[key] == b[key] && maps_join(b, a)[key] == b[key],
        a.contains_key(key) && b.contains_key(key) && a[key].timestamp == b[key].timestamp
            ==> maps_join(a, b)[key] == a[key],
        a.contains_key(key) && !b.contains_key(key) ==> maps_join(a, b)[key] == a[key],
        !a.contains_key(key) && b.contains_key(key) ==> maps_join(a, b)[key] == b[key],
{
}

/// What two merged maps show under a key: the value of the later write, or nothing if that
/// is a removal.
pub proof fn merged_maps_show_the_later_values<K: Element, V: Element>(
    a: Map<K::V, Written<Option<V::V>>>,
    b: Map<K::V, Written<Option<V::V>>>,
    key: K::V,
)
    requires
        a.contains_key(key),
        b.contains_key(key),
        a[key].timestamp.before(b[key].timestamp),
    ensures
        ({
            let ab = <LwwMap<K, V> as Crdt>::join(a, b);
            let ba = <LwwMap<K, V> as Crdt>::join(b, a);
            &&& b[key].value is None ==> {
                &&& !shown_entries(ab).contains_key(key)
                &&& !shown_entries(ba).contains_key(key)
            }
            &&& b[key].value matches Some(value) ==> {
                &&& shown_entries(ab).contains_key(key) && shown_entries(ab)[key] == value
                &&& shown_entries(ba).contains_key(key) && shown_entries(ba)[key] == value
            }
        }),
{
}

/// A merge takes no key away and makes none up: what is shown was shown by one of the two
/// maps, and what only one of them ever wrote is shown as it was.
pub proof fn map_merges_make_nothing_up<K: Element, V: Element>(
    a: Map<K::V, Written<Option<V::V>>>,
    b: Map<K::V, Written<Option<V::V>>>,
    key: K::V,
)
    ensures
        ({
            let joined = <LwwMap<K, V> as Crdt>::join(a, b);
            &&& joined.contains_key(key) == (a.contains_key(key) || b.contains_key(key))
            &&& a.contains_key(key) && !b.contains_key(key) ==> joined[key] == a[key]
            &&& !a.contains_key(key) && b.contains_key(key) ==> joined[key] == b[key]
            &&& joined.contains_key(key) ==> (a.contains_key(key) && joined[key] == a[key]) || (
            b.contains_key(key) && joined[key] == b[key])
        }),
{
}

/// A write under a key that was never written, or that was last written earlier, holds from
/// then on under its own timestamp; a write that comes too late changes nothing. No other
/// key is touched.
pub proof fn map_writes_take_effect_by_time<K, V>(
    state: Map<K, Written<Option<V>>>,
    key: K,
    value: Option<V>,
    timestamp: LogicalClock,
    other: K,
)
    ensures
        ({
            let after = written_under(state, key, value, timestamp);
            &&& !state.contains_key(key) || state[key].timestamp.before(timestamp) ==> {
                &&& after.contains_key(key)
                &&& after[key].value == value
                &&& after[key].timestamp == timestamp
            }
            &&& state.contains_key(key) && !state[key].timestamp.before(timestamp) ==> after
                == state
            &&& other != key ==> after.contains_key(other) == state.contains_key(other)
            &&& other != key && state.contains_key(other) ==> after[other] == state[other]
        }),
{
    if state.contains_key(key) && !state[key].timestamp.before(timestamp) {
        assert(written_under(state, key, value, timestamp) =~= state);
    }
}

/// A map shows exactly the keys whose last write is a value, with that value.
pub proof fn maps_show_what_was_written_last<K, V>(state: Map<K, Written<Option<V>>>, key: K)
    ensures
        shown_entries(state).contains_key(key) == (state.contains_key(key)
            && state[key].value is Some),
        has_key(state, key) == (state.contains_key(key) && state[key].value is Some),
        state.contains_key(key) ==> (state[key].value matches Some(value) ==> shown_entries(
            state,
        )[key] == value),
{
}

} // verus!
