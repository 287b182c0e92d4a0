//! Counts per replica, which vector clocks and counters are made of.

use crate::ident::{ReplicaId, Uuid};
use std::collections::HashMap;
use vstd::prelude::*;

verus! {

broadcast use vstd::std_specs::hash::group_hash_axioms;

/// The count of a replica; one that has none counts as zero.
pub open spec fn count_of(counts: Map<ReplicaId, u64>, replica: ReplicaId) -> u64 {
    if counts.contains_key(replica) {
        counts[replica]
    } else {
        0
    }
}

/// The counts of two sides together: the larger of the two for each replica.
pub open spec fn counts_join(
    ours: Map<ReplicaId, u64>,
    theirs: Map<ReplicaId, u64>,
) -> Map<ReplicaId, u64> {
    Map::new(
        |replica: ReplicaId| ours.contains_key(replica) || theirs.contains_key(replica),
        |replica: ReplicaId|
            if count_of(ours, replica) < count_of(theirs, replica) {
                count_of(theirs, replica)
            } else {
                count_of(ours, replica)
            },
    )
}

/// The sum of all counts.
pub open spec fn total(counts: Map<ReplicaId, u64>) -> nat
    decreases counts.dom().len(),
{
    if counts.dom().finite() && counts.dom().len() > 0 {
        let some = counts.dom().choose();
        counts[some] as nat + total(counts.remove(some))
    } else {
        0
    }
}

/// The sum is one count and the sum of the others, whichever count that is.
pub proof fn total_splits(counts: Map<ReplicaId, u64>, replica: ReplicaId)
    requires
        counts.dom().finite(),
        counts.contains_key(replica),
    ensures
        total(counts) == counts[replica] + total(counts.remove(replica)),
    decreases counts.dom().len(),
{
    let some = counts.dom().choose();
    assert(counts.dom().len() > 0) by {
        if counts.dom().len() == 0 {
            assert(counts.dom() =~= Set::empty());
        }
    }
    assert(counts.remove(some).dom() =~= counts.dom().remove(some));
    assert(counts.remove(replica).dom() =~= counts.dom().remove(replica));
    if some != replica {
        total_splits(counts.remove(some), replica);
        total_splits(counts.remove(replica), some);
        assert(counts.remove(some).remove(replica) =~= counts.remove(replica).remove(some));
    }
}

/// Counting on for a replica makes the sum grow by as much.
pub proof fn total_grows(counts: Map<ReplicaId, u64>, replica: ReplicaId, amount: nat)
    requires
        counts.dom().finite(),
        count_of(counts, replica) + amount <= u64::MAX,
    ensures
        total(counts.insert(replica, (count_of(counts, replica) + amount) as u64)) == total(counts)
            + amount,
{
    let after = counts.insert(replica, (count_of(counts, replica) + amount) as u64);
    total_splits(after, replica);
    if counts.contains_key(replica) {
        total_splits(counts, replica);
        assert(after.remove(replica) =~= counts.remove(replica));
    } else {
        assert(after.remove(replica) =~= counts);
    }
}

/// The sum of some of the counts is at most the sum of all.
pub proof fn part_of_total(part: Map<ReplicaId, u64>, counts: Map<ReplicaId, u64>)
    requires
        counts.dom().finite(),
        part.submap_of(counts),
    ensures
        total(part) <= total(counts),
    decreases counts.dom().len(),
{
    if part.dom() =~= counts.dom() {
        assert(part =~= counts);
    } else {
        let missing = choose|replica: ReplicaId|
            counts.contains_key(replica) && !part.contains_key(replica);
        assert(counts.contains_key(missing) && !part.contains_key(missing)) by {
            assert(exists|replica: ReplicaId|
                counts.contains_key(replica) && !part.contains_key(replica)) by {
                if forall|replica: ReplicaId|
                    counts.contains_key(replica) ==> part.contains_key(replica) {
                    assert(part.dom() =~= counts.dom());
                }
            }
        }
        total_splits(counts, missing);
        assert(counts.remove(missing).dom() =~= counts.dom().remove(missing));
        part_of_total(part, counts.remove(missing));
    }
}

/// Joining keeps or raises every count, and so the sum.
pub proof fn join_keeps_total(ours: Map<ReplicaId, u64>, theirs: Map<ReplicaId, u64>)
    requires
        ours.dom().finite(),
        theirs.dom().finite(),
    ensures
        counts_join(ours, theirs).dom().finite(),
        total(ours) <= total(counts_join(ours, theirs)),
        total(theirs) <= total(counts_join(ours, theirs)),
        total(counts_join(ours, theirs)) <= total(ours) + total(theirs),
    decreases theirs.dom().len(),
{
    let joined = counts_join(ours, theirs);
    assert(joined.dom() =~= ours.dom().union(theirs.dom()));
    if theirs.dom().len() == 0 {
        assert(theirs.dom() =~= Set::empty());
        assert(joined =~= ours);
    } else {
        let some = theirs.dom().choose();
        let rest = theirs.remove(some);
        assert(rest.dom() =~= theirs.dom().remove(some));
        let ours_rest = ours.remove(some);
        assert(ours_rest.dom() =~= ours.dom().remove(some));
        join_keeps_total(ours_rest, rest);
        assert(joined.remove(some) =~= counts_join(ours_rest, rest));
        total_splits(theirs, some);
        total_splits(joined, some);
        if ours.contains_key(some) {
            total_splits(ours, some);
        } else {
            assert(ours_rest =~= ours);
        }
    }
}

/// A map from replicas to counts.
#[derive(Debug, PartialEq, Eq)]
pub struct Counts {
    counts: HashMap<u128, u64>,
}

impl View for Counts {
    type V = Map<ReplicaId, u64>;

    closed spec fn view(&self) -> Map<ReplicaId, u64> {
        Map::new(
            |replica: ReplicaId| self.counts@.contains_key(replica.0.bits),
            |replica: ReplicaId| self.counts@[replica.0.bits],
        )
    }
}

impl Clone for Counts {
    fn clone(&self) -> (copy: Self)
        ensures
            copy@ == self@,
    {
        Counts { counts: self.counts.clone() }
    }
}

/// Whether a list of entries is the whole of a map of counts, each replica once.
pub open spec fn lists(entries: Seq<(ReplicaId, u64)>, counts: Map<ReplicaId, u64>) -> bool {
    &&& forall|i: int|
        0 <= i < entries.len() ==> counts.contains_key((#[trigger] entries[i]).0)
            && counts[entries[i].0] == entries[i].1
    &&& forall|i: int, j: int|
        0 <= i < j < entries.len() ==> (#[trigger] entries[i]).0 != (#[trigger] entries[j]).0
    &&& forall|replica: ReplicaId| #[trigger]
        counts.contains_key(replica) ==> entries.contains((replica, counts[replica]))
}

/// The part of a map of counts that the first entries of a list make up.
pub open spec fn listed(entries: Seq<(ReplicaId, u64)>, count: int) -> Map<ReplicaId, u64>
    decreases count,
{
    if count <= 0 {
        Map::empty()
    } else {
        listed(entries, count - 1).insert(entries[count - 1].0, entries[count - 1].1)
    }
}

/// What the first entries of a list hold.
pub proof fn lemma_listed(
    entries: Seq<(ReplicaId, u64)>,
    counts: Map<ReplicaId, u64>,
    count: int,
)
    requires
        lists(entries, counts),
        0 <= count <= entries.len(),
    ensures
        listed(entries, count).submap_of(counts),
        listed(entries, count).dom().finite(),
        forall|k: int|
            count <= k < entries.len() ==> !listed(entries, count).contains_key(
                (#[trigger] entries[k]).0,
            ),
        forall|k: int|
            0 <= k < count ==> listed(entries, count).contains_key((#[trigger] entries[k]).0),
        count == entries.len() ==> listed(entries, count) == counts,
    decreases count,
{
    if count > 0 {
        lemma_listed(entries, counts, count - 1);
        assert(counts.contains_key(entries[count - 1].0));
        assert(listed(entries, count).dom() =~= listed(entries, count - 1).dom().insert(
            entries[count - 1].0,
        ));
    }
    if count == entries.len() {
        let all = listed(entries, count);
        assert forall|replica: ReplicaId| #[trigger] counts.contains_key(replica) implies
            all.contains_key(replica) by {
            let k = choose|k: int|
                0 <= k < entries.len() && entries[k] == (replica, counts[replica]);
            assert(all.contains_key(entries[k].0));
        }
        assert(all =~= counts);
    }
}

/// A list of all entries holds the whole map: what is made from it is the same.
pub proof fn entries_hold_all(entries: Seq<(ReplicaId, u64)>, counts: Map<ReplicaId, u64>)
    requires
        lists(entries, counts),
    ensures
        listed(entries, entries.len() as int) == counts,
{
    lemma_listed(entries, counts, entries.len() as int);
}

impl Counts {
    /// The map has finitely many entries.
    pub proof fn is_finite(&self)
        ensures
            self@.dom().finite(),
    {
        let bits = self.counts@.dom();
        assert(self@.dom() =~= bits.map(|b: u128| ReplicaId(Uuid { bits: b }))) by {
            assert forall|replica: ReplicaId| self@.dom().contains(replica) implies bits.map(
                |b: u128| ReplicaId(Uuid { bits: b }),
            ).contains(replica) by {
                assert(bits.contains(replica.0.bits));
                assert(replica == ReplicaId(Uuid { bits: replica.0.bits }));
            }
        }
        bits.lemma_map_finite(|b: u128| ReplicaId(Uuid { bits: b }));
    }

    /// No counts.
    pub fn new() -> (counts: Counts)
        ensures
            counts@ == Map::<ReplicaId, u64>::empty(),
    {
        let counts = Counts { counts: HashMap::new() };
        assert(counts@ =~= Map::<ReplicaId, u64>::empty());
        counts
    }

    /// The count of a replica.
    pub fn get(&self, replica: ReplicaId) -> (count: u64)
        ensures
            count == count_of(self@, replica),
    {
        match self.counts.get(&replica.0.bits) {
            Some(count) => *count,
            None => 0,
        }
    }

    /// Whether there is an entry for a replica.
    pub fn contains(&self, replica: ReplicaId) -> (found: bool)
        ensures
            found == self@.contains_key(replica),
    {
        self.counts.contains_key(&replica.0.bits)
    }

    /// Sets the count of a replica.
    fn put(&mut self, replica: ReplicaId, count: u64)
        ensures
            final(self)@ == old(self)@.insert(replica, count),
    {
        let ghost before = self@;
        self.counts.insert(replica.0.bits, count);
        assert forall|other: ReplicaId| other.0.bits == replica.0.bits implies other == replica by {
        }
        assert(self@ =~= before.insert(replica, count));
    }

    /// Counts on for a replica, and returns its new count.
    pub fn bump(&mut self, replica: ReplicaId, amount: u64) -> (count: u64)
        requires
            count_of(old(self)@, replica) + amount <= u64::MAX,
        ensures
            count == count_of(old(self)@, replica) + amount,
            final(self)@ == old(self)@.insert(replica, count),
    {
        let count: u64 = self.get(replica) + amount;
        self.put(replica, count);
        count
    }

    /// All entries, in some order.
    pub fn entries(&self) -> (entries: Vec<(ReplicaId, u64)>)
        ensures
            lists(entries@, self@),
            self@.dom().finite(),
    {
        let mut entries: Vec<(ReplicaId, u64)> = Vec::new();
        proof {
            self.is_finite();
        }
        for pair in pairs: self.counts.iter()
            invariant
                pairs.seq().no_duplicates(),
                entries@.len() == pairs.index(),
                forall|i: int|
                    0 <= i < entries@.len() ==> self@.contains_key((#[trigger] entries@[i]).0)
                        && self@[entries@[i].0] == entries@[i].1,
                forall|i: int, j: int|
                    0 <= i < j < entries@.len() ==> (#[trigger] entries@[i]).0 != (
                    #[trigger] entries@[j]).0,
                forall|i: int|
                    0 <= i < entries@.len() ==> {
                        &&& (#[trigger] entries@[i]).0.0.bits == *pairs.seq()[i].0
                        &&& entries@[i].1 == *pairs.seq()[i].1
                    },
                forall|i: int|
                    0 <= i < pairs.seq().len() ==> {
                        &&& self.counts@.contains_key(*(#[trigger] pairs.seq()[i]).0)
                        &&& self.counts@[*pairs.seq()[i].0] == *pairs.seq()[i].1
                    },
                forall|replica: ReplicaId| #[trigger]
                    self@.contains_key(replica) ==> {
                        ||| entries@.contains((replica, self@[replica]))
                        ||| exists|k: int|
                            pairs.index() <= k < pairs.seq().len() && *(
                            #[trigger] pairs.seq()[k]).0 == replica.0.bits
                    },
        {
            let ghost before = entries@;
            let entry = (ReplicaId(Uuid { bits: *pair.0 }), *pair.1);
            assert(pair == pairs.seq()[pairs.index()]);
            entries.push(entry);
            assert forall|i: int| 0 <= i < before.len() implies (#[trigger] before[i]).0
                != entry.0 by {
                if before[i].0 == entry.0 {
                    assert(pairs.seq()[i] == pairs.seq()[pairs.index()]);
                }
            }
            assert forall|replica: ReplicaId| #[trigger] self@.contains_key(replica) implies {
                ||| entries@.contains((replica, self@[replica]))
                ||| exists|k: int|
                    pairs.index() < k < pairs.seq().len() && *(#[trigger] pairs.seq()[k]).0
                        == replica.0.bits
            } by {
                if before.contains((replica, self@[replica])) {
                    let k = choose|k: int|
                        0 <= k < before.len() && before[k] == (replica, self@[replica]);
                    assert(entries@[k] == (replica, self@[replica]));
                } else {
                    let k = choose|k: int|
                        pairs.index() <= k < pairs.seq().len() && *(#[trigger] pairs.seq()[k]).0
                            == replica.0.bits;
                    if k == pairs.index() {
                        assert(entries@[k] == (replica, self@[replica]));
                    }
                }
            }
        }
        entries
    }

    /// The counts of some entries; of two for one replica the later one holds.
    pub fn from_entries(entries: &Vec<(ReplicaId, u64)>) -> (counts: Counts)
        ensures
            counts@ == listed(entries@, entries@.len() as int),
    {
        let mut counts = Counts::new();
        let mut i: usize = 0;
        while i < entries.len()
            invariant
                i <= entries@.len(),
                counts@ == listed(entries@, i as int),
            decreases entries@.len() - i,
        {
            let (replica, count) = entries[i];
            counts.put(replica, count);
            i = i + 1;
        }
        counts
    }

    /// Takes over every larger count.
    pub fn raise(&mut self, other: &Counts)
        ensures
            final(self)@ == counts_join(old(self)@, other@),
    {
        let ghost ours = self@;
        let entries = other.entries();
        let mut i: usize = 0;
        assert(self@ =~= counts_join(ours, listed(entries@, 0)));
        while i < entries.len()
            invariant
                i <= entries@.len(),
                lists(entries@, other@),
                self@ == counts_join(ours, listed(entries@, i as int)),
            decreases entries@.len() - i,
        {
            let (replica, count) = entries[i];
            let mine = self.get(replica);
            let ghost before = self@;
            proof {
                lemma_listed(entries@, other@, i as int);
                assert(!listed(entries@, i as int).contains_key(entries@[i as int].0));
            }
            self.put(
                replica,
                if mine < count {
                    count
                } else {
                    mine
                },
            );
            i = i + 1;
            assert(self@ =~= counts_join(ours, listed(entries@, i as int)));
        }
        proof {
            lemma_listed(entries@, other@, i as int);
        }
    }

    /// The sum of all counts.
    pub fn sum(&self) -> (sum: u64)
        requires
            total(self@) <= u64::MAX,
        ensures
            sum == total(self@),
    {
        let entries = self.entries();
        let mut sum: u64 = 0;
        let mut i: usize = 0;
        while i < entries.len()
            invariant
                i <= entries@.len(),
                lists(entries@, self@),
                self@.dom().finite(),
                total(self@) <= u64::MAX,
                sum == total(listed(entries@, i as int)),
            decreases entries@.len() - i,
        {
            proof {
                let part = listed(entries@, i as int);
                let more = listed(entries@, i + 1);
                lemma_listed(entries@, self@, i as int);
                lemma_listed(entries@, self@, i + 1);
                assert(!part.contains_key(entries@[i as int].0));
                total_splits(more, entries@[i as int].0);
                assert(more.remove(entries@[i as int].0) =~= part);
                part_of_total(more, self@);
            }
            sum = sum + entries[i].1;
            i = i + 1;
        }
        proof {
            lemma_listed(entries@, self@, i as int);
        }
        sum
    }
}

/// A replica that has no count counts as zero.
pub proof fn missing_counts_are_zero(counts: Map<ReplicaId, u64>, replica: ReplicaId)
    ensures
        counts.contains_key(replica) ==> count_of(counts, replica) == counts[replica],
        !counts.contains_key(replica) ==> count_of(counts, replica) == 0,
        total(Map::<ReplicaId, u64>::empty()) == 0,
{
    assert(Map::<ReplicaId, u64>::empty().dom().len() == 0);
}

/// Joined counts are known of the replicas that either side knows, and each is the larger
/// of the two: at least what either side has, and no more than one of them has.
pub proof fn joined_counts_are_the_larger(
    ours: Map<ReplicaId, u64>,
    theirs: Map<ReplicaId, u64>,
    replica: ReplicaId,
)
    ensures
        ({
            let joined = counts_join(ours, theirs);
            &&& joined.contains_key(replica) == (ours.contains_key(replica)
                || theirs.contains_key(replica))
            &&& joined.contains_key(replica) && ours.contains_key(replica) ==> joined[replica]
                >= ours[replica]
            &&& joined.contains_key(replica) && theirs.contains_key(replica) ==> joined[replica]
                >= theirs[replica]
            &&& joined.contains_key(replica) ==> (ours.contains_key(replica) && joined[replica]
                == ours[replica]) || (theirs.contains_key(replica) && joined[replica]
                == theirs[replica])
        }),
{
}

/// A list of entries that is the whole of some counts has one entry for each replica that
/// has a count, with that count, and no other.
pub proof fn lists_have_each_count_once(
    entries: Seq<(ReplicaId, u64)>,
    counts: Map<ReplicaId, u64>,
    replica: ReplicaId,
    count: u64,
)
    requires
        lists(entries, counts),
    ensures
        entries.contains((replica, count)) == (counts.contains_key(replica) && counts[replica]
            == count),
        forall|i: int, j: int|
            0 <= i < j < entries.len() ==> (#[trigger] entries[i]).0 != (#[trigger] entries[j]).0,
{
    if entries.contains((replica, count)) {
        let i = choose|i: int| 0 <= i < entries.len() && entries[i] == (replica, count);
        assert(counts.contains_key(entries[i].0));
    }
}

/// Entries that are put together make up counts of exactly their replicas; of two entries
/// for one replica the last one holds.
pub proof fn the_last_entry_of_a_replica_holds(
    entries: Seq<(ReplicaId, u64)>,
    i: int,
    count: int,
    replica: ReplicaId,
)
    requires
        0 <= i < count <= entries.len(),
        forall|j: int| i < j < count ==> (#[trigger] entries[j]).0 != entries[i].0,
    ensures
        listed(entries, count).contains_key(entries[i].0),
        listed(entries, count)[entries[i].0] == entries[i].1,
        (forall|j: int| 0 <= j < count ==> (#[trigger] entries[j]).0 != replica) ==> !listed(
            entries,
            count,
        ).contains_key(replica),
    decreases count,
{
    if i < count - 1 {
        the_last_entry_of_a_replica_holds(entries, i, count - 1, replica);
        assert(entries[count - 1].0 != entries[i].0);
    } else {
        lemma_unlisted(entries, count - 1, replica);
    }
}

proof fn lemma_unlisted(entries: Seq<(ReplicaId, u64)>, count: int, replica: ReplicaId)
    requires
        0 <= count <= entries.len(),
    ensures
        (forall|j: int| 0 <= j < count ==> (#[trigger] entries[j]).0 != replica) ==> !listed(
            entries,
            count,
        ).contains_key(replica),
    decreases count,
{
    if count > 0 {
        lemma_unlisted(entries, count - 1, replica);
        if forall|j: int| 0 <= j < count ==> (#[trigger] entries[j]).0 != replica {
            assert(entries[count - 1].0 != replica);
        }
    }
}

} // verus!
