//! What the replicated collections ask of the values that they hold.

use crate::clock::LogicalClock;
use crate::ident::{ReplicaId, Uuid};
use vstd::prelude::*;
use vstd::string::StringSliceAdditionalSpecFns;

verus! {

/// A value that a replicated collection can hold: its meaning is its deep view,
/// which equality compares and a copy keeps.
pub trait Element: DeepView + Sized {
    /// Whether two values mean the same.
    fn same(&self, other: &Self) -> (same: bool)
        ensures
            same == (self.deep_view() == other.deep_view()),
    ;

    /// A value that means the same.
    fn duplicate(&self) -> (copy: Self)
        ensures
            copy.deep_view() == self.deep_view(),
    ;
}

/// A value whose representation has an invariant.
pub trait Sound {
    /// Whether the representation is sound; each operation keeps it so.
    spec fn valid(&self) -> bool;
}

/// A value that a table can hold beside a key and copy.
pub trait CopyEntry: DeepView + Sound + Sized {
    /// A value that means the same.
    fn replicate(&self) -> (copy: Self)
        ensures
            self.valid() ==> copy.valid() && copy.deep_view() == self.deep_view(),
    ;
}

/// Whether two strings hold the same characters.
pub fn same_text(a: &str, b: &str) -> (same: bool)
    ensures
        same == (a@ == b@),
{
    let left = a.as_bytes();
    let right = b.as_bytes();
    proof {
        vstd::utf8::encode_utf8_decode_utf8(a@);
        vstd::utf8::encode_utf8_decode_utf8(b@);
    }
    if left.len() != right.len() {
        return false;
    }
    let mut i: usize = 0;
    while i < left.len()
        invariant
            left@ == a.spec_bytes(),
            right@ == b.spec_bytes(),
            left@.len() == right@.len(),
            i <= left@.len(),
            left@.take(i as int) == right@.take(i as int),
        decreases left@.len() - i,
    {
        if left[i] != right[i] {
            return false;
        }
        i = i + 1;
        assert(left@.take(i as int) =~= left@.take(i - 1).push(left@[i - 1]));
        assert(right@.take(i as int) =~= right@.take(i - 1).push(right@[i - 1]));
    }
    assert(left@.take(i as int) =~= left@);
    assert(right@.take(i as int) =~= right@);
    true
}

impl Element for String {
    fn same(&self, other: &Self) -> (same: bool) {
        *self == *other
    }

    fn duplicate(&self) -> (copy: Self) {
        self.clone()
    }
}

impl<'a> Element for &'a str {
    fn same(&self, other: &Self) -> (same: bool) {
        same_text(self, other)
    }

    fn duplicate(&self) -> (copy: Self) {
        *self
    }
}

impl Element for bool {
    fn same(&self, other: &Self) -> (same: bool) {
        *self == *other
    }

    fn duplicate(&self) -> (copy: Self) {
        *self
    }
}

impl Element for i8 {
    fn same(&self, other: &Self) -> (same: bool) {
        *self == *other
    }

    fn duplicate(&self) -> (copy: Self) {
        *self
    }
}

impl Element for i16 {
    fn same(&self, other: &Self) -> (same: bool) {
        *self == *other
    }

    fn duplicate(&self) -> (copy: Self) {
        *self
    }
}

impl Element for i32 {
    fn same(&self, other: &Self) -> (same: bool) {
        *self == *other
    }

    fn duplicate(&self) -> (copy: Self) {
        *self
    }
}

impl Element for i64 {
    fn same(&self, other: &Self) -> (same: bool) {
        *self == *other
    }

    fn duplicate(&self) -> (copy: Self) {
        *self
    }
}

impl Element for i128 {
    fn same(&self, other: &Self) -> (same: bool) {
        *self == *other
    }

    fn duplicate(&self) -> (copy: Self) {
        *self
    }
}

impl Element for isize {
    fn same(&self, other: &Self) -> (same: bool) {
        *self == *other
    }

    fn duplicate(&self) -> (copy: Self) {
        *self
    }
}

impl Element for u8 {
    fn same(&self, other: &Self) -> (same: bool) {
        *self == *other
    }

    fn duplicate(&self) -> (copy: Self) {
        *self
    }
}

impl Element for u16 {
    fn same(&self, other: &Self) -> (same: bool) {
        *self == *other
    }

    fn duplicate(&self) -> (copy: Self) {
        *self
    }
}

impl Element for u32 {
    fn same(&self, other: &Self) -> (same: bool) {
        *self == *other
    }

    fn duplicate(&self) -> (copy: Self) {
        *self
    }
}

impl Element for u64 {
    fn same(&self, other: &Self) -> (same: bool) {
        *self == *other
    }

    fn duplicate(&self) -> (copy: Self) {
        *self
    }
}

impl Element for u128 {
    fn same(&self, other: &Self) -> (same: bool) {
        *self == *other
    }

    fn duplicate(&self) -> (copy: Self) {
        *self
    }
}

impl Element for usize {
    fn same(&self, other: &Self) -> (same: bool) {
        *self == *other
    }

    fn duplicate(&self) -> (copy: Self) {
        *self
    }
}

impl Element for char {
    fn same(&self, other: &Self) -> (same: bool) {
        *self == *other
    }

    fn duplicate(&self) -> (copy: Self) {
        *self
    }
}

impl DeepView for Uuid {
    type V = Uuid;

    open spec fn deep_view(&self) -> Uuid {
        *self
    }
}

impl Element for Uuid {
    fn same(&self, other: &Self) -> (same: bool) {
        *self == *other
    }

    fn duplicate(&self) -> (copy: Self) {
        *self
    }
}

impl DeepView for ReplicaId {
    type V = ReplicaId;

    open spec fn deep_view(&self) -> ReplicaId {
        *self
    }
}

impl Element for ReplicaId {
    fn same(&self, other: &Self) -> (same: bool) {
        *self == *other
    }

    fn duplicate(&self) -> (copy: Self) {
        *self
    }
}

impl DeepView for LogicalClock {
    type V = LogicalClock;

    open spec fn deep_view(&self) -> LogicalClock {
        *self
    }
}

impl Element for LogicalClock {
    fn same(&self, other: &Self) -> (same: bool) {
        *self == *other
    }

    fn duplicate(&self) -> (copy: Self) {
        *self
    }
}

impl<T: Element> Element for Option<T> {
    fn same(&self, other: &Self) -> (same: bool) {
        match (self, other) {
            (Some(a), Some(b)) => a.same(b),
            (None, None) => true,
            _ => false,
        }
    }

    fn duplicate(&self) -> (copy: Self) {
        match self {
            Some(value) => Some(value.duplicate()),
            None => None,
        }
    }
}

impl<A: Element, B: Element> Element for (A, B) {
    fn same(&self, other: &Self) -> (same: bool) {
        self.0.same(&other.0) && self.1.same(&other.1)
    }

    fn duplicate(&self) -> (copy: Self) {
        (self.0.duplicate(), self.1.duplicate())
    }
}

impl<T: Element> Element for Vec<T> {
    fn same(&self, other: &Self) -> (same: bool) {
        if self.len() != other.len() {
            return false;
        }
        let mut i: usize = 0;
        while i < self.len()
            invariant
                self@.len() == other@.len(),
                i <= self@.len(),
                forall|k: int|
                    0 <= k < i ==> (#[trigger] self@[k]).deep_view() == other@[k].deep_view(),
            decreases self@.len() - i,
        {
            if !self[i].same(&other[i]) {
                assert(self.deep_view()[i as int] != other.deep_view()[i as int]);
                return false;
            }
            i = i + 1;
        }
        assert(self.deep_view() =~= other.deep_view());
        true
    }

    fn duplicate(&self) -> (copy: Self) {
        let mut copy: Vec<T> = Vec::new();
        let mut i: usize = 0;
        while i < self.len()
            invariant
                i <= self@.len(),
                i == copy@.len(),
                forall|k: int|
                    0 <= k < i ==> (#[trigger] copy@[k]).deep_view() == self@[k].deep_view(),
            decreases self@.len() - i,
        {
            copy.push(self[i].duplicate());
            i = i + 1;
        }
        assert(copy.deep_view() =~= self.deep_view());
        copy
    }
}

} // verus!
