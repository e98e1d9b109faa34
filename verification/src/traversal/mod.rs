//! Reachability: which endpoint other peers should dial, and which pairs of
//! peers should try to reach each other directly.

pub mod holepunch;
pub mod reflexive;
