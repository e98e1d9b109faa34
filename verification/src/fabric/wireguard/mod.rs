//! A fabric between hosts, over encrypted datagrams.

pub mod inbound;
pub mod keys;
pub mod session;
pub mod transport;
