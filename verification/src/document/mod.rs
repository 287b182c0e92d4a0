//! Collaborative documents: named fields, each a replicated data type.

pub mod doc;
pub mod field;
pub mod laws;
pub mod merge_laws;
pub mod model;
