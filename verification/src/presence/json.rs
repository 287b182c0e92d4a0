//! JSON values, which are carried along as they are.

use crate::element::{CopyEntry, Sound};
use vstd::prelude::*;

verus! {

/// A JSON value.
#[verifier::external_type_specification]
#[verifier::external_body]
pub struct ExJsonValue(serde_json::Value);

/// `serde_json::Value::clone` copies a value: the copy is the same value.
#[verifier::external_body]
fn json_copy(value: &serde_json::Value) -> (copy: serde_json::Value)
    ensures
        copy == *value,
{
    value.clone()
}

/// A JSON value as an entry of a table.
#[derive(Debug)]
pub struct Json(pub serde_json::Value);

impl DeepView for Json {
    type V = serde_json::Value;

    open spec fn deep_view(&self) -> serde_json::Value {
        self.0
    }
}

impl Sound for Json {
    open spec fn valid(&self) -> bool {
        true
    }
}

impl CopyEntry for Json {
    fn replicate(&self) -> (copy: Self) {
        Json(json_copy(&self.0))
    }
}

} // verus!
