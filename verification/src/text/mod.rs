//! Collaborative text: a replicated growable array of characters.

pub mod cursor;
pub mod edit_laws;
pub mod history_laws;
pub mod id_table;
pub mod log_laws;
pub mod merge_laws;
pub mod model;
pub mod node;
pub mod order;
pub mod order_laws;
pub mod replay_laws;
pub mod rga;
pub mod stability_laws;
pub mod step_laws;
