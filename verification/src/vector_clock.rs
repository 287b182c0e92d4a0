//! Vector clocks for tracking causality.

use crate::counts::{count_of, counts_join, entries_hold_all, listed, lists, Counts};
use crate::ident::ReplicaId;
use vstd::prelude::*;

verus! {

/// Whether one side has seen nothing that the other has not seen.
pub open spec fn within(ours: Map<ReplicaId, u64>, theirs: Map<ReplicaId, u64>) -> bool {
    forall|replica: ReplicaId| #[trigger] count_of(ours, replica) <= count_of(theirs, replica)
}

/// Whether one side has seen less than the other: nothing more of any replica,
/// and less of some replica.
pub open spec fn precedes(ours: Map<ReplicaId, u64>, theirs: Map<ReplicaId, u64>) -> bool {
    &&& within(ours, theirs)
    &&& exists|replica: ReplicaId| #[trigger] count_of(ours, replica) < count_of(theirs, replica)
}

/// Vector clock for tracking causality.
#[derive(Debug, PartialEq, Eq)]
pub struct VectorClock {
    clocks: Counts,
}

impl View for VectorClock {
    type V = Map<ReplicaId, u64>;

    closed spec fn view(&self) -> Map<ReplicaId, u64> {
        self.clocks@
    }
}

impl Clone for VectorClock {
    fn clone(&self) -> (copy: Self)
        ensures
            copy@ == self@,
    {
        VectorClock { clocks: self.clocks.clone() }
    }
}

impl VectorClock {
    /// Create a new empty vector clock.
    pub fn new() -> (clock: VectorClock)
        ensures
            clock@ == Map::<ReplicaId, u64>::empty(),
    {
        VectorClock { clocks: Counts::new() }
    }

    /// A vector clock with some entries; of two for one replica the later one holds.
    pub fn from_entries(entries: &Vec<(ReplicaId, u64)>) -> (clock: VectorClock)
        ensures
            clock@ == listed(entries@, entries@.len() as int),
    {
        VectorClock { clocks: Counts::from_entries(entries) }
    }

    /// All entries, in some order.
    pub fn entries(&self) -> (entries: Vec<(ReplicaId, u64)>)
        ensures
            lists(entries@, self@),
            listed(entries@, entries@.len() as int) == self@,
    {
        let entries = self.clocks.entries();
        proof {
            entries_hold_all(entries@, self@);
        }
        entries
    }

    /// Increment the clock for a replica, and return its new counter.
    pub fn increment(&mut self, replica: ReplicaId) -> (counter: u64)
        requires
            count_of(old(self)@, replica) < u64::MAX,
        ensures
            counter == count_of(old(self)@, replica) + 1,
            final(self)@ == old(self)@.insert(replica, counter),
    {
        self.clocks.bump(replica, 1)
    }

    /// Get the counter for a replica: zero for one that was never seen.
    pub fn get(&self, replica: &ReplicaId) -> (counter: u64)
        ensures
            counter == count_of(self@, *replica),
    {
        self.clocks.get(*replica)
    }

    /// Merge with another vector clock: the larger counter of each replica.
    pub fn merge(&mut self, other: &VectorClock)
        ensures
            final(self)@ == counts_join(old(self)@, other@),
    {
        self.clocks.raise(&other.clocks)
    }

    /// Check if this clock is concurrent with another: neither happens before the
    /// other.
    pub fn is_concurrent(&self, other: &VectorClock) -> (concurrent: bool)
        ensures
            concurrent == (!precedes(self@, other@) && !precedes(other@, self@)),
    {
        !self.happens_before(other) && !other.happens_before(self)
    }

    /// Check if this clock happens before another.
    pub fn happens_before(&self, other: &VectorClock) -> (before: bool)
        ensures
            before == precedes(self@, other@),
    {
        let mut dominated: bool = false;
        let ours = self.clocks.entries();
        let mut i: usize = 0;
        while i < ours.len()
            invariant
                i <= ours@.len(),
                lists(ours@, self@),
                forall|k: int|
                    0 <= k < i ==> (#[trigger] ours@[k]).1 <= count_of(other@, ours@[k].0),
                dominated ==> exists|replica: ReplicaId| #[trigger]
                    count_of(self@, replica) < count_of(other@, replica),
                !dominated ==> forall|k: int|
                    0 <= k < i ==> (#[trigger] ours@[k]).1 == count_of(other@, ours@[k].0),
            decreases ours@.len() - i,
        {
            let (replica, counter) = ours[i];
            assert(ours@[i as int] == (replica, counter));
            assert(count_of(self@, replica) == counter);
            let other_counter = other.get(&replica);
            if counter > other_counter {
                assert(count_of(self@, replica) > count_of(other@, replica));
                return false;
            }
            if counter < other_counter {
                dominated = true;
            }
            i = i + 1;
        }
        assert forall|replica: ReplicaId| #[trigger]
            self@.contains_key(replica) implies count_of(self@, replica) <= count_of(
            other@,
            replica,
        ) && (!dominated ==> count_of(self@, replica) == count_of(other@, replica)) by {
            let k = choose|k: int| 0 <= k < ours@.len() && ours@[k] == (replica, self@[replica]);
            assert(ours@[k].1 <= count_of(other@, ours@[k].0));
        }
        assert(within(self@, other@));
        // Replicas that only the other clock has seen.
        let theirs = other.clocks.entries();
        let mut j: usize = 0;
        while j < theirs.len()
            invariant
                j <= theirs@.len(),
                lists(theirs@, other@),
                forall|replica: ReplicaId| #[trigger]
                    self@.contains_key(replica) && !dominated ==> count_of(self@, replica)
                        == count_of(other@, replica),
                dominated ==> exists|replica: ReplicaId| #[trigger]
                    count_of(self@, replica) < count_of(other@, replica),
                !dominated ==> forall|k: int|
                    0 <= k < j ==> self@.contains_key((#[trigger] theirs@[k]).0) || theirs@[k].1
                        == 0,
            decreases theirs@.len() - j,
        {
            let (replica, counter) = theirs[j];
            assert(theirs@[j as int] == (replica, counter));
            if !self.clocks.contains(replica) && counter > 0 {
                assert(count_of(self@, replica) < count_of(other@, replica));
                dominated = true;
            }
            j = j + 1;
        }
        proof {
            if !dominated {
                assert forall|replica: ReplicaId| #[trigger] count_of(self@, replica) >= count_of(
                    other@,
                    replica,
                ) by {
                    if !self@.contains_key(replica) && other@.contains_key(replica) {
                        let k = choose|k: int|
                            0 <= k < theirs@.len() && theirs@[k] == (replica, other@[replica]);
                        assert(self@.contains_key(theirs@[k].0) || theirs@[k].1 == 0);
                    }
                }
            }
        }
        dominated
    }
}

impl Default for VectorClock {
    fn default() -> (clock: VectorClock)
        ensures
            clock@ == Map::<ReplicaId, u64>::empty(),
    {
        VectorClock::new()
    }
}

/// Happening before is a strict order: nothing happens before itself, no two
/// clocks happen before each other, and the relation is transitive.
pub proof fn happening_before_is_an_order(
    a: Map<ReplicaId, u64>,
    b: Map<ReplicaId, u64>,
    c: Map<ReplicaId, u64>,
)
    ensures
        !precedes(a, a),
        !(precedes(a, b) && precedes(b, a)),
        precedes(a, b) && precedes(b, c) ==> precedes(a, c),
{
    if precedes(a, b) {
        let replica = choose|replica: ReplicaId| #[trigger]
            count_of(a, replica) < count_of(b, replica);
        assert(count_of(a, replica) < count_of(b, replica));
        if precedes(b, a) {
            assert(count_of(b, replica) <= count_of(a, replica));
        }
        if precedes(b, c) {
            assert(count_of(b, replica) <= count_of(c, replica));
            assert forall|r: ReplicaId| #[trigger] count_of(a, r) <= count_of(c, r) by {
                assert(count_of(a, r) <= count_of(b, r));
                assert(count_of(b, r) <= count_of(c, r));
            }
            assert(count_of(a, replica) < count_of(c, replica));
        }
    }
}

/// What a clock was before an increment happens before what it is afterwards.
pub proof fn increment_happens_after(clock: Map<ReplicaId, u64>, replica: ReplicaId)
    requires
        count_of(clock, replica) < u64::MAX,
    ensures
        precedes(clock, clock.insert(replica, (count_of(clock, replica) + 1) as u64)),
{
    let after = clock.insert(replica, (count_of(clock, replica) + 1) as u64);
    assert(count_of(clock, replica) < count_of(after, replica));
}

/// A merged clock has seen what both have seen, and no more than any clock that
/// has seen what both have seen.
pub proof fn merge_is_least_upper_bound(
    a: Map<ReplicaId, u64>,
    b: Map<ReplicaId, u64>,
    other: Map<ReplicaId, u64>,
)
    ensures
        within(a, counts_join(a, b)),
        within(b, counts_join(a, b)),
        within(a, other) && within(b, other) ==> within(counts_join(a, b), other),
{
    let joined = counts_join(a, b);
    assert forall|r: ReplicaId| within(a, other) && within(b, other) implies #[trigger] count_of(
        joined,
        r,
    ) <= count_of(other, r) by {
        assert(count_of(a, r) <= count_of(other, r));
        assert(count_of(b, r) <= count_of(other, r));
    }
}

/// One clock happens before another exactly if it has seen no more of any replica, and less
/// of one. A merged clock has seen of each replica the larger of what the two have seen.
pub proof fn happening_before_goes_by_counts(
    a: Map<ReplicaId, u64>,
    b: Map<ReplicaId, u64>,
    replica: ReplicaId,
)
    ensures
        count_of(a, replica) > count_of(b, replica) ==> !precedes(a, b),
        (forall|r: ReplicaId| #[trigger] count_of(a, r) <= count_of(b, r)) && count_of(a, replica)
            < count_of(b, replica) ==> precedes(a, b),
        (forall|r: ReplicaId| #[trigger] count_of(a, r) == count_of(b, r)) ==> !precedes(a, b),
        count_of(counts_join(a, b), replica) == (if count_of(a, replica) < count_of(b, replica) {
            count_of(b, replica)
        } else {
            count_of(a, replica)
        }),
{
    if precedes(a, b) && (forall|r: ReplicaId| #[trigger] count_of(a, r) == count_of(b, r)) {
        let less = choose|r: ReplicaId| #[trigger] count_of(a, r) < count_of(b, r);
        assert(count_of(a, less) == count_of(b, less));
    }
}

} // verus!
