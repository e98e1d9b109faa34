//! The concurrent maps of the `dashmap` crate, by what they hold.
//!
//! Each kind of map has a name for its contents, and each operation that the
//! library uses says what it does to them. The map is only changed through a
//! unique reference here, so no other thread can change it in between.

use crate::roster::entry::{PeerEntry, PeerView};
use dashmap::DashMap;
use vstd::prelude::*;

verus! {

#[verifier::external_type_specification]
#[verifier::external_body]
#[verifier::reject_recursive_types(K)]
#[verifier::reject_recursive_types(V)]
#[verifier::reject_recursive_types(S)]
pub struct ExDashMap<K, V, S>(DashMap<K, V, S>);

// ---------------------------------------------------------------------------
// Peers by identifier
// ---------------------------------------------------------------------------

/// The entries of a roster, by identifier.
pub uninterp spec fn roster_contents(m: DashMap<u128, PeerEntry>) -> Map<u128, PeerView>;

/// `DashMap::new`: a map that holds nothing.
#[verifier::external_body]
pub(crate) fn roster_new() -> (r: DashMap<u128, PeerEntry>)
    ensures
        (roster_contents(r) == Map::<u128, PeerView>::empty()),
{
    DashMap::new()
}

/// `DashMap::get`: a copy of the value under the key, where there is one.
#[verifier::external_body]
pub(crate) fn roster_get(m: &DashMap<u128, PeerEntry>, id: u128) -> (r: Option<PeerEntry>)
    ensures
        match r {
            Some(e) => roster_contents(*m).contains_key(id) && e@ == roster_contents(*m)[id],
            None => !roster_contents(*m).contains_key(id),
        },
{
    m.get(&id).map(|e| e.value().clone())
}

/// `DashMap::insert`: puts the value under the key, in place of what was there.
#[verifier::external_body]
pub(crate) fn roster_insert(m: &mut DashMap<u128, PeerEntry>, id: u128, e: PeerEntry)
    ensures
        roster_contents(*final(m)) == roster_contents(*old(m)).insert(id, e@),
{
    m.insert(id, e);
}

/// `DashMap::remove`: takes the key and its value out, where it is there.
#[verifier::external_body]
pub(crate) fn roster_remove(m: &mut DashMap<u128, PeerEntry>, id: u128) -> (r: Option<PeerEntry>)
    ensures
        roster_contents(*final(m)) == roster_contents(*old(m)).remove(id),
        match r {
            Some(e) => roster_contents(*old(m)).contains_key(id) && e@ == roster_contents(
                *old(m),
            )[id],
            None => !roster_contents(*old(m)).contains_key(id),
        },
{
    m.remove(&id).map(|kv| kv.1)
}

/// `DashMap::iter`: every key with a copy of its value, each once, in an order
/// that is left open.
#[verifier::external_body]
pub(crate) fn roster_walk(m: &DashMap<u128, PeerEntry>) -> (r: Vec<(u128, PeerEntry)>)
    ensures
        forall|i: int|
            0 <= i < r@.len() ==> roster_contents(*m).contains_key((#[trigger] r@[i]).0)
                && r@[i].1@ == roster_contents(*m)[r@[i].0],
        forall|i: int, j: int|
            0 <= i < j < r@.len() ==> (#[trigger] r@[i]).0 != (#[trigger] r@[j]).0,
        forall|k: u128| #[trigger]
            roster_contents(*m).contains_key(k) ==> exists|i: int|
                0 <= i < r@.len() && (#[trigger] r@[i]).0 == k,
{
    m.iter().map(|kv| (*kv.key(), kv.value().clone())).collect()
}

// ---------------------------------------------------------------------------
// Identifiers by public key
// ---------------------------------------------------------------------------

/// The identifiers of an index, by public key.
pub uninterp spec fn index_contents(m: DashMap<Vec<u8>, u128>) -> Map<Seq<u8>, u128>;

/// `DashMap::new`: a map that holds nothing.
#[verifier::external_body]
pub(crate) fn index_new() -> (r: DashMap<Vec<u8>, u128>)
    ensures
        (index_contents(r) == Map::<Seq<u8>, u128>::empty()),
{
    DashMap::new()
}

/// `DashMap::get`: the value under the key, where there is one.
#[verifier::external_body]
pub(crate) fn index_get(m: &DashMap<Vec<u8>, u128>, key: &[u8]) -> (r: Option<u128>)
    ensures
        match r {
            Some(id) => index_contents(*m).contains_key(key@) && id == index_contents(*m)[key@],
            None => !index_contents(*m).contains_key(key@),
        },
{
    m.get(key).map(|v| *v.value())
}

/// `DashMap::insert`: puts the value under the key, in place of what was there.
#[verifier::external_body]
pub(crate) fn index_insert(m: &mut DashMap<Vec<u8>, u128>, key: Vec<u8>, id: u128)
    ensures
        index_contents(*final(m)) == index_contents(*old(m)).insert(key@, id),
{
    m.insert(key, id);
}

/// `DashMap::remove`: takes the key and its value out, where it is there.
#[verifier::external_body]
pub(crate) fn index_remove(m: &mut DashMap<Vec<u8>, u128>, key: &[u8])
    ensures
        index_contents(*final(m)) == index_contents(*old(m)).remove(key@),
{
    m.remove(key);
}

// ---------------------------------------------------------------------------
// Counters by slot
// ---------------------------------------------------------------------------

/// The counters of an allocator, by slot.
pub uninterp spec fn slot_contents(m: DashMap<u16, u16>) -> Map<u16, u16>;

/// `DashMap::new`: a map that holds nothing.
#[verifier::external_body]
pub(crate) fn slots_new() -> (r: DashMap<u16, u16>)
    ensures
        (slot_contents(r) == Map::<u16, u16>::empty()),
{
    DashMap::new()
}

/// `DashMap::get`: the value under the key, where there is one.
#[verifier::external_body]
pub(crate) fn slots_get(m: &DashMap<u16, u16>, slot: u16) -> (r: Option<u16>)
    ensures
        match r {
            Some(n) => slot_contents(*m).contains_key(slot) && n == slot_contents(*m)[slot],
            None => !slot_contents(*m).contains_key(slot),
        },
{
    m.get(&slot).map(|v| *v.value())
}

/// `DashMap::insert`: puts the value under the key, in place of what was there.
#[verifier::external_body]
pub(crate) fn slots_insert(m: &mut DashMap<u16, u16>, slot: u16, n: u16)
    ensures
        slot_contents(*final(m)) == slot_contents(*old(m)).insert(slot, n),
{
    m.insert(slot, n);
}

} // verus!
