//! The values of document fields.

use crate::counter::PnCounter;
use crate::crdt::Crdt;
use crate::document::model::FieldState;
use crate::element::{CopyEntry, Sound};
use crate::lww_map::LwwMap;
use crate::or_set::OrSet;
use crate::register::LwwRegister;
use crate::text::rga::RgaText;
use vstd::prelude::*;

verus! {

/// Field value types supported in documents.
#[derive(Debug)]
pub enum FieldValue {
    /// String value (LWW)
    String(LwwRegister<String>),
    /// Integer value (LWW)
    Integer(LwwRegister<i64>),
    /// Floating-point value (LWW), as its IEEE 754 bit pattern
    Float(LwwRegister<u64>),
    /// Boolean value (LWW)
    Boolean(LwwRegister<bool>),
    /// Counter value
    Counter(PnCounter),
    /// Set of strings
    StringSet(OrSet<String>),
    /// Map of string to string
    StringMap(LwwMap<String, String>),
    /// Collaborative text
    Text(RgaText),
}

impl View for FieldValue {
    type V = FieldState;

    open spec fn view(&self) -> FieldState {
        match self {
            FieldValue::String(register) => FieldState::String(register@),
            FieldValue::Integer(register) => FieldState::Integer(register@),
            FieldValue::Float(register) => FieldState::Float(register@),
            FieldValue::Boolean(register) => FieldState::Boolean(register@),
            FieldValue::Counter(counter) => FieldState::Counter(counter@),
            FieldValue::StringSet(set) => FieldState::StringSet(set@),
            FieldValue::StringMap(map) => FieldState::StringMap(map@),
            FieldValue::Text(text) => FieldState::Text(text@),
        }
    }
}

impl DeepView for FieldValue {
    type V = FieldState;

    open spec fn deep_view(&self) -> FieldState {
        self@
    }
}

impl FieldValue {
    /// Merge with the value that another replica holds for the field. Values of
    /// different types are not merged.
    pub fn merge(&mut self, other: &FieldValue)
        requires
            old(self).valid(),
            other.valid(),
        ensures
            final(self).valid(),
            final(self)@ == old(self)@.joined(other@),
    {
        match (self, other) {
            (FieldValue::String(a), FieldValue::String(b)) => a.merge(b),
            (FieldValue::Integer(a), FieldValue::Integer(b)) => a.merge(b),
            (FieldValue::Float(a), FieldValue::Float(b)) => a.merge(b),
            (FieldValue::Boolean(a), FieldValue::Boolean(b)) => a.merge(b),
            (FieldValue::Counter(a), FieldValue::Counter(b)) => a.merge(b),
            (FieldValue::StringSet(a), FieldValue::StringSet(b)) => a.merge(b),
            (FieldValue::StringMap(a), FieldValue::StringMap(b)) => a.merge(b),
            (FieldValue::Text(a), FieldValue::Text(b)) => a.merge(b),
            _ => {},
        }
    }
}

impl Clone for FieldValue {
    fn clone(&self) -> (copy: FieldValue)
        ensures
            self.valid() ==> copy.valid() && copy@ == self@,
    {
        match self {
            FieldValue::String(register) => FieldValue::String(register.clone()),
            FieldValue::Integer(register) => FieldValue::Integer(register.clone()),
            FieldValue::Float(register) => FieldValue::Float(register.clone()),
            FieldValue::Boolean(register) => FieldValue::Boolean(register.clone()),
            FieldValue::Counter(counter) => FieldValue::Counter(counter.clone()),
            FieldValue::StringSet(set) => FieldValue::StringSet(set.clone()),
            FieldValue::StringMap(map) => FieldValue::StringMap(map.clone()),
            FieldValue::Text(text) => FieldValue::Text(text.clone()),
        }
    }
}

impl Sound for FieldValue {
    open spec fn valid(&self) -> bool {
        match self {
            FieldValue::StringSet(set) => set.valid(),
            FieldValue::StringMap(map) => map.valid(),
            FieldValue::Text(text) => text.valid(),
            _ => true,
        }
    }
}

impl CopyEntry for FieldValue {
    fn replicate(&self) -> (copy: Self) {
        self.clone()
    }
}

/// The state of a field is that of the value in it.
pub proof fn fields_are_known_by_their_values(field: FieldValue)
    ensures
        field matches FieldValue::String(register) ==> field@ is String && field@->String_0
            == register@,
        field matches FieldValue::Integer(register) ==> field@ is Integer && field@->Integer_0
            == register@,
        field matches FieldValue::Float(register) ==> field@ is Float && field@->Float_0
            == register@,
        field matches FieldValue::Boolean(register) ==> field@ is Boolean && field@->Boolean_0
            == register@,
        field matches FieldValue::Counter(counter) ==> field@ is Counter && field@->Counter_0
            == counter@,
        field matches FieldValue::StringSet(set) ==> field@ is StringSet && field@->StringSet_0
            == set@,
        field matches FieldValue::StringMap(map) ==> field@ is StringMap && field@->StringMap_0
            == map@,
        field matches FieldValue::Text(text) ==> field@ is Text && field@->Text_0 == text@,
{
}

} // verus!
