//! Carrying messages between applications: who is where, how a message is
//! framed, and what each kind of fabric does with it.
//!
//! A fabric only decides. Channels, sockets and clocks are handled by whoever
//! drives it.

pub mod error;
pub mod in_process;
pub mod loopback;
pub mod packet;
pub mod routing;
pub mod ula;
pub mod wireguard;
