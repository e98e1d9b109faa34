//! Virtual network interfaces: how one is named, opened and configured, and
//! what crosses it.
//!
//! The system calls themselves are made by whoever opens the interface; here
//! is what they are given and what follows from their outcome.

pub mod device;
pub mod linux;
pub mod macos;
pub mod unsupported;
