//! Collaboration sessions: one document, the users who edit it, and what they are
//! told about each other.

pub mod clients;
pub mod collab;
pub mod config;
pub mod event;
pub mod laws;
pub mod manager;
pub mod model;
pub mod registry_laws;
pub mod sessions;
pub mod step_laws;
pub mod sync;
