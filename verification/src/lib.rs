//! A verified overlay-mesh core: the coordinator's peer roster, its address
//! allocation and lifecycle rules, and the framing and routing decisions of the
//! fabrics that carry application messages between peers.

pub mod auth;
pub mod bindings;
pub mod clock;
pub mod fabric;
pub mod net;
pub mod numeral;
pub mod order;
pub mod policy;
pub mod radix;
pub mod roster;
pub mod text;
pub mod traversal;
pub mod tun;

use vstd::prelude::*;

verus! {

} // verus!
