//! The coordinator: the rules by which peers join, stay in and leave the mesh.
//!
//! The coordinator only decides. What is to be published, shown to viewers or
//! written to disk comes back as a list of effects, in order.

pub mod apply;
pub mod command_queue;
pub mod connectivity;
pub mod effect;
pub mod filter;
pub mod heartbeat;
pub mod joining;
pub mod laws;
pub mod metrics;
pub mod outcomes;
pub mod registration;
pub mod state;
pub mod topology;
