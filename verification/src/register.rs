//! Last-writer-wins registers.

use crate::clock::LogicalClock;
use crate::crdt::Crdt;
use crate::element::{CopyEntry, Element, Sound};
use vstd::prelude::*;

verus! {

/// The state of a register: the last value written, and when it was written.
pub struct Written<D> {
    /// The value
    pub value: D,
    /// When it was written
    pub timestamp: LogicalClock,
}

impl<D> Written<D> {
    /// The state after a write, which takes effect if it is later than the last.
    pub open spec fn overwritten(self, value: D, timestamp: LogicalClock) -> Written<D> {
        if self.timestamp.before(timestamp) {
            Written { value, timestamp }
        } else {
            self
        }
    }

    /// The state of two replicas together: the later write.
    pub open spec fn joined(self, other: Written<D>) -> Written<D> {
        self.overwritten(other.value, other.timestamp)
    }
}

/// Last-Writer-Wins Register.
///
/// A register where concurrent writes are resolved by timestamp. The write with
/// the highest timestamp wins.
#[derive(Debug)]
pub struct LwwRegister<T> {
    value: T,
    timestamp: LogicalClock,
}

impl<T: Element> View for LwwRegister<T> {
    type V = Written<T::V>;

    closed spec fn view(&self) -> Written<T::V> {
        Written { value: self.value.deep_view(), timestamp: self.timestamp }
    }
}

impl<T: Element> DeepView for LwwRegister<T> {
    type V = Written<T::V>;

    open spec fn deep_view(&self) -> Written<T::V> {
        self@
    }
}

impl<T: Element> Clone for LwwRegister<T> {
    fn clone(&self) -> (copy: Self)
        ensures
            copy@ == self@,
    {
        LwwRegister { value: self.value.duplicate(), timestamp: self.timestamp }
    }
}

impl<T: Element> Sound for LwwRegister<T> {
    open spec fn valid(&self) -> bool {
        true
    }
}

impl<T: Element> CopyEntry for LwwRegister<T> {
    fn replicate(&self) -> (copy: Self) {
        self.clone()
    }
}

impl<T: Element> LwwRegister<T> {
    /// Create a new LWW register.
    pub fn new(value: T, timestamp: LogicalClock) -> (register: LwwRegister<T>)
        ensures
            register@ == (Written { value: value.deep_view(), timestamp }),
    {
        LwwRegister { value, timestamp }
    }

    /// Get the current value.
    pub fn get(&self) -> (value: &T)
        ensures
            value.deep_view() == self@.value,
    {
        &self.value
    }

    /// Get the timestamp.
    pub fn timestamp(&self) -> (timestamp: LogicalClock)
        ensures
            timestamp == self@.timestamp,
    {
        self.timestamp
    }

    /// Set a new value if the timestamp is higher, and return whether it is.
    pub fn set(&mut self, value: T, timestamp: LogicalClock) -> (written: bool)
        ensures
            written == old(self)@.timestamp.before(timestamp),
            final(self)@ == old(self)@.overwritten(value.deep_view(), timestamp),
    {
        if timestamp.is_after(&self.timestamp) {
            self.value = value;
            self.timestamp = timestamp;
            true
        } else {
            false
        }
    }
}

impl<T: Element> Crdt for LwwRegister<T> {
    open spec fn join(ours: Written<T::V>, theirs: Written<T::V>) -> Written<T::V> {
        ours.joined(theirs)
    }

    fn merge(&mut self, other: &Self) {
        if other.timestamp.is_after(&self.timestamp) {
            self.value = other.value.duplicate();
            self.timestamp = other.timestamp;
        }
    }
}

/// Merging registers is associative and idempotent, and commutative where no two
/// different values were written at the same time.
pub proof fn registers_converge<D>(a: Written<D>, b: Written<D>, c: Written<D>)
    ensures
        a.joined(b).joined(c) == a.joined(b.joined(c)),
        a.joined(a) == a,
        a.joined(b).joined(b) == a.joined(b),
        (a.timestamp == b.timestamp ==> a.value == b.value) ==> a.joined(b) == b.joined(a),
{
}

/// The write with the highest timestamp wins, in whatever order writes arrive.
pub proof fn highest_timestamp_wins<D>(
    register: Written<D>,
    first: D,
    first_at: LogicalClock,
    second: D,
    second_at: LogicalClock,
)
    requires
        register.timestamp.before(first_at),
        first_at.before(second_at),
    ensures
        register.overwritten(first, first_at).overwritten(second, second_at).value == second,
        register.overwritten(second, second_at).overwritten(first, first_at).value == second,
{
}

/// Of two writes a merge keeps the later one, whichever replica merges; of two at the same
/// time each replica keeps its own.
pub proof fn merged_registers_hold_the_later_write<D>(a: Written<D>, b: Written<D>)
    ensures
        a.timestamp.before(b.timestamp) ==> a.joined(b) == b && b.joined(a) == b,
        a.timestamp == b.timestamp ==> a.joined(b) == a,
{
}

/// A later write takes the place of the last one, and any other write changes nothing.
pub proof fn only_later_writes_take_effect<D>(
    register: Written<D>,
    value: D,
    timestamp: LogicalClock,
)
    ensures
        register.timestamp.before(timestamp) ==> {
            &&& register.overwritten(value, timestamp).value == value
            &&& register.overwritten(value, timestamp).timestamp == timestamp
        },
        !register.timestamp.before(timestamp) ==> register.overwritten(value, timestamp)
            == register,
{
}

/// What a register becomes by a merge, by the counters and replicas of the two writes
/// alone.
pub proof fn register_merges_go_by_time<T: Element>(ours: Written<T::V>, theirs: Written<T::V>)
    ensures
        ours.timestamp.counter < theirs.timestamp.counter ==> {
            &&& <LwwRegister<T> as Crdt>::join(ours, theirs) == theirs
            &&& <LwwRegister<T> as Crdt>::join(theirs, ours) == theirs
        },
        ours.timestamp.counter == theirs.timestamp.counter && ours.timestamp.replica.0.bits
            < theirs.timestamp.replica.0.bits ==> {
            &&& <LwwRegister<T> as Crdt>::join(ours, theirs) == theirs
            &&& <LwwRegister<T> as Crdt>::join(theirs, ours) == theirs
        },
        ours.timestamp == theirs.timestamp ==> <LwwRegister<T> as Crdt>::join(ours, theirs)
            == ours,
{
}

} // verus!
