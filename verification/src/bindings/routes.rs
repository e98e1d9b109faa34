//! The concurrent maps that the fabrics route by, from the `dashmap` crate.

use crate::fabric::wireguard::session::{Session, SessionView};
use crate::net::socket::SocketAddr;
use dashmap::DashMap;
use vstd::prelude::*;

verus! {

// ---------------------------------------------------------------------------
// Names by address
// ---------------------------------------------------------------------------

/// The names of a map, by address.
pub uninterp spec fn name_contents(m: DashMap<u128, String>) -> Map<u128, Seq<char>>;

/// `DashMap::new`: a map that holds nothing.
#[verifier::external_body]
pub(crate) fn names_new() -> (r: DashMap<u128, String>)
    ensures
        (name_contents(r) == Map::<u128, Seq<char>>::empty()),
{
    DashMap::new()
}

/// `DashMap::get`: a copy of the value under the key, where there is one.
#[verifier::external_body]
pub(crate) fn names_get(m: &DashMap<u128, String>, key: u128) -> (r: Option<String>)
    ensures
        match r {
            Some(s) => name_contents(*m).contains_key(key) && s@ == name_contents(*m)[key],
            None => !name_contents(*m).contains_key(key),
        },
{
    m.get(&key).map(|s| s.value().clone())
}

/// `DashMap::insert`: puts the value under the key, in place of what was there.
#[verifier::external_body]
pub(crate) fn names_insert(m: &mut DashMap<u128, String>, key: u128, name: String)
    ensures
        name_contents(*final(m)) == name_contents(*old(m)).insert(key, name@),
{
    m.insert(key, name);
}

/// `DashMap::remove`: takes the key and its value out, where it is there.
#[verifier::external_body]
pub(crate) fn names_remove(m: &mut DashMap<u128, String>, key: u128)
    ensures
        name_contents(*final(m)) == name_contents(*old(m)).remove(key),
{
    m.remove(&key);
}

/// `DashMap::iter`: every key with a copy of its value, each once, in an order
/// that is left open.
#[verifier::external_body]
pub(crate) fn names_walk(m: &DashMap<u128, String>) -> (r: Vec<(u128, String)>)
    ensures
        forall|i: int|
            0 <= i < r@.len() ==> name_contents(*m).contains_key((#[trigger] r@[i]).0) && r@[i].1@
                == name_contents(*m)[r@[i].0],
        forall|i: int, j: int|
            0 <= i < j < r@.len() ==> (#[trigger] r@[i]).0 != (#[trigger] r@[j]).0,
        forall|k: u128| #[trigger]
            name_contents(*m).contains_key(k) ==> exists|i: int|
                0 <= i < r@.len() && (#[trigger] r@[i]).0 == k,
{
    m.iter().map(|kv| (*kv.key(), kv.value().clone())).collect()
}

// ---------------------------------------------------------------------------
// Socket addresses by node
// ---------------------------------------------------------------------------

/// The socket addresses of a map, by node.
pub uninterp spec fn node_contents(m: DashMap<String, SocketAddr>) -> Map<Seq<char>, SocketAddr>;

/// `DashMap::new`: a map that holds nothing.
#[verifier::external_body]
pub(crate) fn nodes_new() -> (r: DashMap<String, SocketAddr>)
    ensures
        (node_contents(r) == Map::<Seq<char>, SocketAddr>::empty()),
{
    DashMap::new()
}

/// `DashMap::get`: the value under the key, where there is one.
#[verifier::external_body]
pub(crate) fn nodes_get(m: &DashMap<String, SocketAddr>, node: &str) -> (r: Option<SocketAddr>)
    ensures
        match r {
            Some(a) => node_contents(*m).contains_key(node@) && a == node_contents(*m)[node@],
            None => !node_contents(*m).contains_key(node@),
        },
{
    m.get(node).map(|a| *a.value())
}

/// `DashMap::insert`: puts the value under the key, in place of what was there.
#[verifier::external_body]
pub(crate) fn nodes_insert(m: &mut DashMap<String, SocketAddr>, node: String, a: SocketAddr)
    ensures
        node_contents(*final(m)) == node_contents(*old(m)).insert(node@, a),
{
    m.insert(node, a);
}

/// `DashMap::remove`: takes the key and its value out, where it is there.
#[verifier::external_body]
pub(crate) fn nodes_remove(m: &mut DashMap<String, SocketAddr>, node: &str)
    ensures
        node_contents(*final(m)) == node_contents(*old(m)).remove(node@),
{
    m.remove(node);
}

// ---------------------------------------------------------------------------
// Sessions by node
// ---------------------------------------------------------------------------

/// The sessions of a map, by node, as far as they are known: where the other
/// side is, which key it has, and what is known of the tunnel.
pub uninterp spec fn session_contents(m: DashMap<String, Session>) -> Map<Seq<char>, SessionView>;

/// `DashMap::new`: a map that holds nothing.
#[verifier::external_body]
pub(crate) fn sessions_new() -> (r: DashMap<String, Session>)
    ensures
        (session_contents(r) == Map::<Seq<char>, SessionView>::empty()),
{
    DashMap::new()
}

/// `DashMap::insert`: puts the value under the key, in place of what was there.
#[verifier::external_body]
pub(crate) fn sessions_insert(m: &mut DashMap<String, Session>, node: String, s: Session)
    ensures
        session_contents(*final(m)) == session_contents(*old(m)).insert(node@, s@),
{
    m.insert(node, s);
}

/// `DashMap::remove`: takes the key and its value out, where it is there.
#[verifier::external_body]
pub(crate) fn sessions_remove(m: &mut DashMap<String, Session>, node: &str) -> (r: Option<Session>)
    ensures
        session_contents(*final(m)) == session_contents(*old(m)).remove(node@),
        match r {
            Some(s) => session_contents(*old(m)).contains_key(node@) && s@ == session_contents(
                *old(m),
            )[node@],
            None => !session_contents(*old(m)).contains_key(node@),
        },
{
    m.remove(node).map(|kv| kv.1)
}

/// `DashMap::iter`: every key with the socket address of its value, each once,
/// in an order that is left open.
#[verifier::external_body]
pub(crate) fn sessions_walk(m: &DashMap<String, Session>) -> (r: Vec<(String, SocketAddr)>)
    ensures
        forall|i: int|
            0 <= i < r@.len() ==> session_contents(*m).contains_key((#[trigger] r@[i]).0@)
                && r@[i].1 == session_contents(*m)[r@[i].0@].endpoint,
        forall|i: int, j: int|
            0 <= i < j < r@.len() ==> (#[trigger] r@[i]).0@ != (#[trigger] r@[j]).0@,
        forall|k: Seq<char>| #[trigger]
            session_contents(*m).contains_key(k) ==> exists|i: int|
                0 <= i < r@.len() && (#[trigger] r@[i]).0@ == k,
{
    m.iter().map(|kv| (kv.key().clone(), kv.value().endpoint)).collect()
}

} // verus!
