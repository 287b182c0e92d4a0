//! Error types.

use crate::ident::{hyphenated, Uuid};
use vstd::prelude::*;
use vstd::string::StringExecFns;

verus! {

/// Collaboration error types.
#[derive(Debug)]
pub enum CollabError {
    /// Document not found
    DocumentNotFound(String),
    /// Session not found
    SessionNotFound(Uuid),
    /// Invalid operation
    InvalidOperation(String),
    /// Operation conflict
    Conflict(String),
    /// Causality violation (operation depends on unknown operations)
    CausalityViolation(Uuid),
    /// Serialization error
    Serialization(String),
    /// Sync error
    Sync(String),
    /// Connection error
    Connection(String),
    /// Timeout
    Timeout,
    /// Permission denied
    PermissionDenied(String),
}

/// Result type for collaboration operations.
pub type CollabResult<T> = Result<T, CollabError>;

/// The error of reading or writing JSON.
#[verifier::external_type_specification]
#[verifier::external_body]
pub struct ExJsonError(serde_json::Error);

/// What a `serde_json::Error` displays. An error of the reader or writer underneath is
/// displayed in its own words, which can differ from machine to machine, so nothing is
/// known of the text.
#[verifier::external_body]
fn json_error_text(error: &serde_json::Error) -> (text: String) {
    error.to_string()
}

/// A label, followed by what it is about.
fn labelled(label: &str, about: &str) -> (text: String)
    ensures
        text@ == label@ + about@,
{
    let mut text = label.to_owned();
    text.append(about);
    text
}

impl CollabError {
    /// What the error says.
    pub open spec fn message(self) -> Seq<char> {
        match self {
            CollabError::DocumentNotFound(id) => "Document not found: "@ + id@,
            CollabError::SessionNotFound(id) => "Session not found: "@ + hyphenated(id.bits),
            CollabError::InvalidOperation(text) => "Invalid operation: "@ + text@,
            CollabError::Conflict(text) => "Operation conflict: "@ + text@,
            CollabError::CausalityViolation(id) => "Causality violation: missing dependency "@
                + hyphenated(id.bits),
            CollabError::Serialization(text) => "Serialization error: "@ + text@,
            CollabError::Sync(text) => "Sync error: "@ + text@,
            CollabError::Connection(text) => "Connection error: "@ + text@,
            CollabError::Timeout => "Operation timed out"@,
            CollabError::PermissionDenied(text) => "Permission denied: "@ + text@,
        }
    }

    /// What the error says.
    pub fn to_string(&self) -> (text: String)
        ensures
            text@ == self.message(),
    {
        match self {
            CollabError::DocumentNotFound(id) => labelled("Document not found: ", id.as_str()),
            CollabError::SessionNotFound(id) => {
                let text = id.to_string();
                labelled("Session not found: ", text.as_str())
            },
            CollabError::InvalidOperation(text) => labelled("Invalid operation: ", text.as_str()),
            CollabError::Conflict(text) => labelled("Operation conflict: ", text.as_str()),
            CollabError::CausalityViolation(id) => {
                let text = id.to_string();
                labelled("Causality violation: missing dependency ", text.as_str())
            },
            CollabError::Serialization(text) => labelled("Serialization error: ", text.as_str()),
            CollabError::Sync(text) => labelled("Sync error: ", text.as_str()),
            CollabError::Connection(text) => labelled("Connection error: ", text.as_str()),
            CollabError::Timeout => "Operation timed out".to_owned(),
            CollabError::PermissionDenied(text) => labelled("Permission denied: ", text.as_str()),
        }
    }
}

impl From<serde_json::Error> for CollabError {
    fn from(error: serde_json::Error) -> (converted: CollabError)
        ensures
            converted is Serialization,
    {
        CollabError::Serialization(json_error_text(&error))
    }
}

impl vstd::std_specs::convert::FromSpecImpl<serde_json::Error> for CollabError {
    open spec fn obeys_from_spec() -> bool {
        false
    }

    open spec fn from_spec(error: serde_json::Error) -> CollabError {
        CollabError::Serialization(vstd::pervasive::arbitrary())
    }
}

/// An error says its kind first, then what it is about.
pub proof fn errors_say_what_they_are_about(text: String, id: Uuid)
    ensures
        CollabError::DocumentNotFound(text).message() == "Document not found: "@ + text@,
        CollabError::SessionNotFound(id).message() == "Session not found: "@ + hyphenated(id.bits),
        CollabError::InvalidOperation(text).message() == "Invalid operation: "@ + text@,
        CollabError::Conflict(text).message() == "Operation conflict: "@ + text@,
        CollabError::CausalityViolation(id).message()
            == "Causality violation: missing dependency "@ + hyphenated(id.bits),
        CollabError::Serialization(text).message() == "Serialization error: "@ + text@,
        CollabError::Sync(text).message() == "Sync error: "@ + text@,
        CollabError::Connection(text).message() == "Connection error: "@ + text@,
        CollabError::Timeout.message() == "Operation timed out"@,
        CollabError::PermissionDenied(text).message() == "Permission denied: "@ + text@,
{
}

} // verus!
