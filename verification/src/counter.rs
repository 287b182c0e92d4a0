//! Replicated counters.

use crate::counts::{
    count_of, counts_join, entries_hold_all, join_keeps_total, listed, lists, total, total_grows,
    total_splits, Counts,
};
use crate::crdt::Crdt;
use crate::element::Sound;
use crate::ident::ReplicaId;
use vstd::prelude::*;

verus! {

/// Grow-only Counter.
///
/// A counter that can only be incremented. Each replica maintains its own count,
/// and the total is the sum of all replica counts.
#[derive(Debug)]
pub struct GCounter {
    counts: Counts,
}

impl View for GCounter {
    type V = Map<ReplicaId, u64>;

    closed spec fn view(&self) -> Map<ReplicaId, u64> {
        self.counts@
    }
}

impl Clone for GCounter {
    fn clone(&self) -> (copy: Self)
        ensures
            copy@ == self@,
    {
        GCounter { counts: self.counts.clone() }
    }
}

impl Default for GCounter {
    fn default() -> (counter: GCounter)
        ensures
            counter@ == Map::<ReplicaId, u64>::empty(),
    {
        GCounter::new()
    }
}

impl GCounter {
    /// Create a new grow-only counter.
    pub fn new() -> (counter: GCounter)
        ensures
            counter@ == Map::<ReplicaId, u64>::empty(),
    {
        GCounter { counts: Counts::new() }
    }

    /// A counter with some counts; of two for one replica the later one holds.
    pub fn from_entries(entries: &Vec<(ReplicaId, u64)>) -> (counter: GCounter)
        ensures
            counter@ == listed(entries@, entries@.len() as int),
    {
        GCounter { counts: Counts::from_entries(entries) }
    }

    /// All counts, in some order.
    pub fn entries(&self) -> (entries: Vec<(ReplicaId, u64)>)
        ensures
            lists(entries@, self@),
            listed(entries@, entries@.len() as int) == self@,
    {
        let entries = self.counts.entries();
        proof {
            entries_hold_all(entries@, self@);
        }
        entries
    }

    /// Increment the counter for a replica.
    pub fn increment(&mut self, replica: ReplicaId)
        requires
            count_of(old(self)@, replica) < u64::MAX,
        ensures
            final(self)@ == old(self)@.insert(replica, (count_of(old(self)@, replica) + 1) as u64),
    {
        self.counts.bump(replica, 1);
    }

    /// Increment by a specific amount.
    pub fn increment_by(&mut self, replica: ReplicaId, amount: u64)
        requires
            count_of(old(self)@, replica) + amount <= u64::MAX,
        ensures
            final(self)@ == old(self)@.insert(
                replica,
                (count_of(old(self)@, replica) + amount) as u64,
            ),
    {
        self.counts.bump(replica, amount);
    }

    /// Get the total count.
    pub fn value(&self) -> (value: u64)
        requires
            total(self@) <= u64::MAX,
        ensures
            value == total(self@),
    {
        self.counts.sum()
    }

    /// Get the count for a specific replica.
    pub fn get_replica_count(&self, replica: &ReplicaId) -> (count: u64)
        ensures
            count == count_of(self@, *replica),
    {
        self.counts.get(*replica)
    }

    /// A counter counts for finitely many replicas.
    pub proof fn is_finite(&self)
        ensures
            self@.dom().finite(),
    {
        self.counts.is_finite();
    }
}

impl Sound for GCounter {
    open spec fn valid(&self) -> bool {
        true
    }
}

impl Crdt for GCounter {
    open spec fn join(ours: Map<ReplicaId, u64>, theirs: Map<ReplicaId, u64>) -> Map<
        ReplicaId,
        u64,
    > {
        counts_join(ours, theirs)
    }

    fn merge(&mut self, other: &Self) {
        self.counts.raise(&other.counts);
    }
}

/// The state of a counter that goes up and down: what each replica has added and
/// what it has taken away.
#[verifier::ext_equal]
pub struct PnState {
    /// What was added
    pub positive: Map<ReplicaId, u64>,
    /// What was taken away
    pub negative: Map<ReplicaId, u64>,
}

/// The number that 64 bits stand for when they are read as a signed number.
pub open spec fn as_signed(n: nat) -> int {
    if n < 0x8000_0000_0000_0000 {
        n as int
    } else {
        n - 0x1_0000_0000_0000_0000
    }
}

impl PnState {
    /// The value of a counter in this state.
    pub open spec fn value(self) -> int {
        as_signed(total(self.positive)) - as_signed(total(self.negative))
    }

    /// Whether both sums and their difference fit their types.
    pub open spec fn fits(self) -> bool {
        &&& total(self.positive) <= u64::MAX
        &&& total(self.negative) <= u64::MAX
        &&& i64::MIN <= self.value() <= i64::MAX
    }

    /// The state after a replica counted up.
    pub open spec fn incremented(self, replica: ReplicaId) -> PnState {
        PnState {
            positive: self.positive.insert(
                replica,
                (count_of(self.positive, replica) + 1) as u64,
            ),
            ..self
        }
    }

    /// The state after a replica counted down.
    pub open spec fn decremented(self, replica: ReplicaId) -> PnState {
        PnState {
            negative: self.negative.insert(
                replica,
                (count_of(self.negative, replica) + 1) as u64,
            ),
            ..self
        }
    }

    /// The state of two replicas together.
    pub open spec fn joined(self, other: PnState) -> PnState {
        PnState {
            positive: counts_join(self.positive, other.positive),
            negative: counts_join(self.negative, other.negative),
        }
    }

    /// The state of a new counter.
    pub open spec fn zero() -> PnState {
        PnState { positive: Map::empty(), negative: Map::empty() }
    }
}

/// Positive-Negative Counter.
///
/// A counter that can be both incremented and decremented. Implemented as a pair
/// of G-Counters.
#[derive(Debug)]
pub struct PnCounter {
    positive: GCounter,
    negative: GCounter,
}

impl View for PnCounter {
    type V = PnState;

    closed spec fn view(&self) -> PnState {
        PnState { positive: self.positive@, negative: self.negative@ }
    }
}

impl Clone for PnCounter {
    fn clone(&self) -> (copy: Self)
        ensures
            copy@ == self@,
    {
        PnCounter { positive: self.positive.clone(), negative: self.negative.clone() }
    }
}

impl Default for PnCounter {
    fn default() -> (counter: PnCounter)
        ensures
            counter@ == PnState::zero(),
    {
        PnCounter::new()
    }
}

impl PnCounter {
    /// Create a new PN counter.
    pub fn new() -> (counter: PnCounter)
        ensures
            counter@ == PnState::zero(),
    {
        PnCounter { positive: GCounter::new(), negative: GCounter::new() }
    }

    /// A counter made of what was added and what was taken away.
    pub fn from_halves(positive: GCounter, negative: GCounter) -> (counter: PnCounter)
        ensures
            counter@ == (PnState { positive: positive@, negative: negative@ }),
    {
        PnCounter { positive, negative }
    }

    /// What was added.
    pub fn positive(&self) -> (positive: &GCounter)
        ensures
            positive@ == self@.positive,
    {
        &self.positive
    }

    /// What was taken away.
    pub fn negative(&self) -> (negative: &GCounter)
        ensures
            negative@ == self@.negative,
    {
        &self.negative
    }

    /// Increment the counter.
    pub fn increment(&mut self, replica: ReplicaId)
        requires
            count_of(old(self)@.positive, replica) < u64::MAX,
        ensures
            final(self)@ == old(self)@.incremented(replica),
    {
        self.positive.increment(replica);
    }

    /// Decrement the counter.
    pub fn decrement(&mut self, replica: ReplicaId)
        requires
            count_of(old(self)@.negative, replica) < u64::MAX,
        ensures
            final(self)@ == old(self)@.decremented(replica),
    {
        self.negative.increment(replica);
    }

    /// Get the current value. Each of the two sums is read as a signed number, so
    /// one past the largest signed number counts as negative.
    pub fn value(&self) -> (value: i64)
        requires
            self@.fits(),
        ensures
            value == self@.value(),
    {
        let up = self.positive.value();
        let down = self.negative.value();
        assert(up < 0x8000_0000_0000_0000 ==> (up as i64) == up) by (bit_vector);
        assert(up >= 0x8000_0000_0000_0000 ==> (up as i64) == up - 0x1_0000_0000_0000_0000)
            by (bit_vector);
        assert(down < 0x8000_0000_0000_0000 ==> (down as i64) == down) by (bit_vector);
        assert(down >= 0x8000_0000_0000_0000 ==> (down as i64) == down - 0x1_0000_0000_0000_0000)
            by (bit_vector);
        (up as i64) - (down as i64)
    }

    /// A counter counts for finitely many replicas.
    pub proof fn is_finite(&self)
        ensures
            self@.positive.dom().finite(),
            self@.negative.dom().finite(),
    {
        self.positive.is_finite();
        self.negative.is_finite();
    }
}

impl Sound for PnCounter {
    open spec fn valid(&self) -> bool {
        true
    }
}

impl Crdt for PnCounter {
    open spec fn join(ours: PnState, theirs: PnState) -> PnState {
        ours.joined(theirs)
    }

    fn merge(&mut self, other: &Self) {
        self.positive.merge(&other.positive);
        self.negative.merge(&other.negative);
    }
}

/// Merging counts is commutative, associative and idempotent.
pub proof fn counts_converge(
    a: Map<ReplicaId, u64>,
    b: Map<ReplicaId, u64>,
    c: Map<ReplicaId, u64>,
)
    ensures
        counts_join(a, b) == counts_join(b, a),
        counts_join(counts_join(a, b), c) == counts_join(a, counts_join(b, c)),
        counts_join(a, a) == a,
        counts_join(counts_join(a, b), b) == counts_join(a, b),
{
    assert(counts_join(a, b) =~= counts_join(b, a));
    assert(counts_join(counts_join(a, b), c) =~= counts_join(a, counts_join(b, c)));
    assert(counts_join(a, a) =~= a);
    assert(counts_join(counts_join(a, b), b) =~= counts_join(a, b));
}

/// An increment raises the total by its amount.
pub proof fn increment_raises_value(
    counts: Map<ReplicaId, u64>,
    replica: ReplicaId,
    amount: u64,
)
    requires
        counts.dom().finite(),
        count_of(counts, replica) + amount <= u64::MAX,
    ensures
        total(counts.insert(replica, (count_of(counts, replica) + amount) as u64)) == total(counts)
            + amount,
{
    total_grows(counts, replica, amount as nat);
}

/// A counter never goes down by a merge: its total is at least that of either
/// side, and at most that of both.
pub proof fn merge_never_loses_counts(ours: Map<ReplicaId, u64>, theirs: Map<ReplicaId, u64>)
    requires
        ours.dom().finite(),
        theirs.dom().finite(),
    ensures
        total(ours) <= total(counts_join(ours, theirs)),
        total(theirs) <= total(counts_join(ours, theirs)),
        total(counts_join(ours, theirs)) <= total(ours) + total(theirs),
{
    join_keeps_total(ours, theirs);
}

/// Counters that no replica has counted on in common add up when they are merged.
pub proof fn separate_counts_add_up(ours: Map<ReplicaId, u64>, theirs: Map<ReplicaId, u64>)
    requires
        ours.dom().finite(),
        theirs.dom().finite(),
        ours.dom().disjoint(theirs.dom()),
    ensures
        total(counts_join(ours, theirs)) == total(ours) + total(theirs),
    decreases theirs.dom().len(),
{
    join_keeps_total(ours, theirs);
    if theirs.dom().len() == 0 {
        assert(theirs.dom() =~= Set::empty());
        assert(counts_join(ours, theirs) =~= ours);
    } else {
        let some = theirs.dom().choose();
        let rest = theirs.remove(some);
        assert(rest.dom() =~= theirs.dom().remove(some));
        assert(theirs.contains_key(some));
        separate_counts_add_up(ours, rest);
        total_splits(theirs, some);
        assert(counts_join(ours, theirs).contains_key(some));
        total_splits(counts_join(ours, theirs), some);
        assert(!ours.contains_key(some));
        assert(counts_join(ours, theirs).remove(some) =~= counts_join(ours, rest));
    }
}

/// Merging counters that go up and down is commutative, associative and
/// idempotent.
pub proof fn pn_counters_converge(a: PnState, b: PnState, c: PnState)
    ensures
        a.joined(b) == b.joined(a),
        a.joined(b).joined(c) == a.joined(b.joined(c)),
        a.joined(a) == a,
        a.joined(b).joined(b) == a.joined(b),
{
    counts_converge(a.positive, b.positive, c.positive);
    counts_converge(a.negative, b.negative, c.negative);
}

/// An increment raises the value by one and a decrement lowers it by one, while
/// the sums stay within the signed range.
pub proof fn steps_change_value_by_one(state: PnState, replica: ReplicaId)
    requires
        state.positive.dom().finite(),
        state.negative.dom().finite(),
        total(state.positive) < i64::MAX,
        total(state.negative) < i64::MAX,
    ensures
        state.incremented(replica).value() == state.value() + 1,
        state.decremented(replica).value() == state.value() - 1,
        state.incremented(replica).decremented(replica).value() == state.value(),
{
    count_is_at_most_total(state.positive, replica);
    count_is_at_most_total(state.negative, replica);
    total_grows(state.positive, replica, 1);
    total_grows(state.negative, replica, 1);
}

/// A single count is at most the total.
pub proof fn count_is_at_most_total(counts: Map<ReplicaId, u64>, replica: ReplicaId)
    requires
        counts.dom().finite(),
    ensures
        count_of(counts, replica) <= total(counts),
{
    if counts.contains_key(replica) {
        total_splits(counts, replica);
    }
}

/// A merge of grow-only counters keeps for each replica the larger of the two counts.
pub proof fn merged_counters_keep_the_larger_counts(
    ours: Map<ReplicaId, u64>,
    theirs: Map<ReplicaId, u64>,
    replica: ReplicaId,
)
    ensures
        ({
            let joined = <GCounter as Crdt>::join(ours, theirs);
            &&& joined.contains_key(replica) == (ours.contains_key(replica)
                || theirs.contains_key(replica))
            &&& ours.contains_key(replica) && theirs.contains_key(replica) ==> joined[replica] == (
            if ours[replica] < theirs[replica] {
                theirs[replica]
            } else {
                ours[replica]
            })
            &&& ours.contains_key(replica) && !theirs.contains_key(replica) ==> joined[replica]
                == ours[replica]
            &&& !ours.contains_key(replica) && theirs.contains_key(replica) ==> joined[replica]
                == theirs[replica]
        }),
{
}

/// A merge of counters that go up and down keeps what was added apart from what was taken
/// away, and of each the larger count of every replica.
pub proof fn merged_counters_keep_both_sides(
    ours: PnState,
    theirs: PnState,
    replica: ReplicaId,
)
    ensures
        ({
            let joined = <PnCounter as Crdt>::join(ours, theirs);
            &&& joined == ours.joined(theirs)
            &&& count_of(joined.positive, replica) >= count_of(ours.positive, replica)
            &&& count_of(joined.positive, replica) >= count_of(theirs.positive, replica)
            &&& count_of(joined.positive, replica) == count_of(ours.positive, replica) || count_of(
                joined.positive,
                replica,
            ) == count_of(theirs.positive, replica)
            &&& count_of(joined.negative, replica) >= count_of(ours.negative, replica)
            &&& count_of(joined.negative, replica) >= count_of(theirs.negative, replica)
            &&& count_of(joined.negative, replica) == count_of(ours.negative, replica) || count_of(
                joined.negative,
                replica,
            ) == count_of(theirs.negative, replica)
            &&& joined.positive.dom() == ours.positive.dom().union(theirs.positive.dom())
            &&& joined.negative.dom() == ours.negative.dom().union(theirs.negative.dom())
        }),
{
    let joined = ours.joined(theirs);
    assert(joined.positive.dom() =~= ours.positive.dom().union(theirs.positive.dom()));
    assert(joined.negative.dom() =~= ours.negative.dom().union(theirs.negative.dom()));
}

/// What replicas did apart adds up: the merge of two counters on which no replica has
/// counted in common has the sum of their values, while the sums stay within the signed
/// range.
pub proof fn separate_values_add_up(a: PnState, b: PnState)
    requires
        a.positive.dom().finite(),
        a.negative.dom().finite(),
        b.positive.dom().finite(),
        b.negative.dom().finite(),
        a.positive.dom().disjoint(b.positive.dom()),
        a.negative.dom().disjoint(b.negative.dom()),
        total(a.positive) + total(b.positive) <= i64::MAX,
        total(a.negative) + total(b.negative) <= i64::MAX,
    ensures
        a.joined(b).value() == a.value() + b.value(),
{
    separate_counts_add_up(a.positive, b.positive);
    separate_counts_add_up(a.negative, b.negative);
}

/// A step is counted for the replica that makes it, on its own side; every other count
/// stays what it was.
pub proof fn steps_are_counted_for_their_replica(
    state: PnState,
    replica: ReplicaId,
    other: ReplicaId,
)
    requires
        count_of(state.positive, replica) < u64::MAX,
        count_of(state.negative, replica) < u64::MAX,
    ensures
        ({
            let up = state.incremented(replica);
            let down = state.decremented(replica);
            &&& count_of(up.positive, replica) == count_of(state.positive, replica) + 1
            &&& count_of(down.negative, replica) == count_of(state.negative, replica) + 1
            &&& up.negative == state.negative
            &&& down.positive == state.positive
            &&& other != replica ==> up.positive.contains_key(other)
                == state.positive.contains_key(other) && count_of(up.positive, other) == count_of(
                state.positive,
                other,
            )
            &&& other != replica ==> down.negative.contains_key(other)
                == state.negative.contains_key(other) && count_of(down.negative, other)
                == count_of(state.negative, other)
        }),
{
}

/// The value of a counter is what was added less what was taken away, while both stay
/// within the signed range; a new counter has the value zero. A sum past that range is read
/// as the signed number with the same bits.
pub proof fn values_are_differences(state: PnState, sum: u64)
    ensures
        total(state.positive) <= i64::MAX && total(state.negative) <= i64::MAX ==> state.value()
            == total(state.positive) - total(state.negative),
        PnState::zero().value() == 0,
        i64::MIN <= as_signed(sum as nat) <= i64::MAX,
        (sum - as_signed(sum as nat)) % 0x1_0000_0000_0000_0000 == 0,
{
    assert(Map::<ReplicaId, u64>::empty().dom().len() == 0);
}

} // verus!
