//! The peer roster: who is in the mesh, at which address, and how that changes.

pub mod allocator;
pub mod api;
pub mod coordinator;
pub mod entry;
pub mod events;
pub mod identity;
pub mod store;
pub mod timeout;
