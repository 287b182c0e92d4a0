//! Logical clocks: Lamport timestamps.

use crate::ident::ReplicaId;
use std::cmp::Ordering;
use vstd::prelude::*;

verus! {

/// Logical timestamp for ordering operations: by counter, then by replica.
#[derive(Debug, Clone, Copy, PartialEq, Eq, Structural, Ord, Hash)]
pub struct LogicalClock {
    /// Counter value
    pub counter: u64,
    /// Replica that created this timestamp
    pub replica: ReplicaId,
}

impl LogicalClock {
    /// Whether this timestamp comes before another.
    pub open spec fn before(self, other: LogicalClock) -> bool {
        ||| self.counter < other.counter
        ||| self.counter == other.counter && self.replica.before(other.replica)
    }

    /// The later counter of two clocks, at the first clock's replica.
    pub open spec fn joined(self, other: LogicalClock) -> LogicalClock {
        LogicalClock {
            counter: if self.counter < other.counter {
                other.counter
            } else {
                self.counter
            },
            replica: self.replica,
        }
    }

    /// Create a new logical clock.
    pub fn new(counter: u64, replica: ReplicaId) -> (clock: LogicalClock)
        ensures
            clock == (LogicalClock { counter, replica }),
    {
        LogicalClock { counter, replica }
    }

    /// Increment the clock.
    pub fn tick(&mut self) -> (now: LogicalClock)
        requires
            old(self).counter < u64::MAX,
        ensures
            *final(self) == (LogicalClock {
                counter: (old(self).counter + 1) as u64,
                replica: old(self).replica,
            }),
            now == *final(self),
    {
        self.counter = self.counter + 1;
        *self
    }

    /// Merge with another clock (take the larger counter).
    pub fn merge(&mut self, other: &LogicalClock)
        ensures
            *final(self) == old(self).joined(*other),
    {
        if self.counter < other.counter {
            self.counter = other.counter;
        }
    }

    /// Whether this timestamp comes after another.
    pub fn is_after(&self, other: &LogicalClock) -> (after: bool)
        ensures
            after == other.before(*self),
    {
        self.counter > other.counter || self.counter == other.counter && self.replica.0.bits
            > other.replica.0.bits
    }
}

impl PartialOrd for LogicalClock {
    fn partial_cmp(&self, other: &Self) -> (ordering: Option<Ordering>) {
        if self.counter < other.counter {
            Some(Ordering::Less)
        } else if self.counter > other.counter {
            Some(Ordering::Greater)
        } else {
            self.replica.partial_cmp(&other.replica)
        }
    }
}

impl vstd::std_specs::cmp::PartialOrdSpecImpl for LogicalClock {
    open spec fn obeys_partial_cmp_spec() -> bool {
        true
    }

    open spec fn partial_cmp_spec(&self, other: &Self) -> Option<Ordering> {
        if self.before(*other) {
            Some(Ordering::Less)
        } else if *self == *other {
            Some(Ordering::Equal)
        } else {
            Some(Ordering::Greater)
        }
    }
}

/// Timestamps are totally ordered: a higher counter is later, and of two equal counters
/// that of the greater replica.
pub proof fn timestamps_are_totally_ordered(a: LogicalClock, b: LogicalClock, c: LogicalClock)
    ensures
        a.counter < b.counter ==> a.before(b),
        a.counter == b.counter && a.replica.0.bits < b.replica.0.bits ==> a.before(b),
        a.before(b) || b.before(a) || a == b,
        !(a.before(b) && b.before(a)),
        !a.before(a),
        a.before(b) && b.before(c) ==> a.before(c),
{
}

/// A clock that has merged another is behind neither: it has the higher counter of the two,
/// and goes on counting for its own replica.
pub proof fn merged_clocks_have_the_higher_counter(a: LogicalClock, b: LogicalClock)
    ensures
        a.joined(b).counter >= a.counter,
        a.joined(b).counter >= b.counter,
        a.joined(b).counter == a.counter || a.joined(b).counter == b.counter,
        a.joined(b).replica == a.replica,
{
}

} // verus!
