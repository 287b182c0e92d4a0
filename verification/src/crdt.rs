//! What the replicated data types have in common.

use crate::element::Sound;
use vstd::prelude::*;

verus! {

/// Trait for CRDTs that can be merged.
///
/// The view of a value is its state; a merge replaces the state by its join with
/// the other value's state.
pub trait Crdt: Clone + View + Sound {
    /// The state that a replica in the first state has after it is merged with
    /// the second.
    spec fn join(ours: Self::V, theirs: Self::V) -> Self::V;

    /// Merge with another CRDT state.
    fn merge(&mut self, other: &Self)
        requires
            old(self).valid(),
            other.valid(),
        ensures
            final(self).valid(),
            final(self)@ == Self::join(old(self)@, other@),
    ;
}

} // verus!
