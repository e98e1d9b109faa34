//! What the library takes from other crates, each behind a contract that
//! states what that crate is relied on for.

pub mod display;
pub mod encoding;
pub mod ids;
pub mod keys;
pub mod maps;
pub mod routes;
pub mod tunnel;
