//! Presence and awareness: who is there, with which cursor and selection.

pub mod color;
pub mod json;
pub mod manager;
pub mod position;
pub mod snapshot;
pub mod user;
