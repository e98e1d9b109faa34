//! Reflexive endpoints: the address a peer is seen under, with the port its
//! tunnel listens on, as the place where other peers can dial it.

use crate::net::addr::IpAddr;
use crate::net::socket::{host_text, is_public, socket_value, write_host, SocketAddr};
use crate::numeral::{decimal, decimal_text};
use crate::text::opt_text;
use vstd::prelude::*;

verus! {

/// The endpoint that other peers should dial, and whether it was derived from
/// the observed address (and so follows it) or was chosen by the peer.
#[derive(Debug)]
pub struct ResolvedEndpoint {
    /// The endpoint, where there is one.
    pub endpoint: Option<String>,
    /// Whether it was derived from the observed address.
    pub reflexive: bool,
}

/// What a `ResolvedEndpoint` holds.
#[verifier::ext_equal]
pub struct ResolvedView {
    pub endpoint: Option<Seq<char>>,
    pub reflexive: bool,
}

impl View for ResolvedEndpoint {
    type V = ResolvedView;

    open spec fn view(&self) -> ResolvedView {
        ResolvedView { endpoint: opt_text(self.endpoint), reflexive: self.reflexive }
    }
}

/// An address and a port, as an endpoint to dial.
pub open spec fn endpoint_text(ip: IpAddr, port: int) -> Seq<char> {
    host_text(ip, 0) + seq![':'] + decimal(port)
}

/// Whether an endpoint that a peer chose for itself can be dialled from
/// anywhere: a public address, or a host name.
pub open spec fn is_sticky(s: Seq<char>) -> bool {
    match socket_value(s) {
        Some(a) => is_public(a.ip),
        None => true,
    }
}

/// The endpoint that the observed address gives: only a public address with a
/// known port can be dialled.
pub open spec fn observed_endpoint(observed: Option<SocketAddr>, port: Option<u16>) -> Option<
    Seq<char>,
> {
    match (observed, port) {
        (Some(a), Some(p)) => if is_public(a.ip) {
            Some(endpoint_text(a.ip, p as int))
        } else {
            None
        },
        _ => None,
    }
}

/// Which endpoint other peers should dial.
///
/// A relay-only peer has none. An endpoint that the peer reported and that
/// can be dialled from anywhere is kept as it is. Otherwise the observed
/// endpoint wins, and a reported loopback or private endpoint is the fallback.
pub open spec fn resolved(
    reported: Option<Seq<char>>,
    observed: Option<SocketAddr>,
    port: Option<u16>,
    relay_only: bool,
) -> ResolvedView {
    if relay_only {
        ResolvedView { endpoint: None, reflexive: false }
    } else if reported is Some && is_sticky(reported->0) {
        ResolvedView { endpoint: reported, reflexive: false }
    } else if observed_endpoint(observed, port) is Some {
        ResolvedView { endpoint: observed_endpoint(observed, port), reflexive: true }
    } else {
        ResolvedView { endpoint: reported, reflexive: false }
    }
}

/// Writes an address and a port as an endpoint.
pub fn reflexive_endpoint(ip: &IpAddr, port: u16) -> (r: String)
    ensures
        r@ == endpoint_text(*ip, port as int),
{
    let mut r = write_host(ip, 0);
    r.push(':');
    r.append(decimal_text(port as u64).as_str());
    assert(r@ =~= endpoint_text(*ip, port as int));
    r
}

/// Whether an endpoint can be dialled from anywhere.
pub fn is_sticky_explicit_endpoint(s: &str) -> (r: bool)
    ensures
        r == is_sticky(s@),
{
    match SocketAddr::parse(s) {
        Some(a) => a.ip.is_public(),
        None => true,
    }
}

/// Decides which endpoint other peers should dial.
pub fn resolve_listen_endpoint(
    reported: &Option<String>,
    observed: Option<SocketAddr>,
    wg_listen_port: Option<u16>,
    relay_only: bool,
) -> (r: ResolvedEndpoint)
    ensures
        r@ == resolved(opt_text(*reported), observed, wg_listen_port, relay_only),
{
    if relay_only {
        return ResolvedEndpoint { endpoint: None, reflexive: false };
    }
    if let Some(s) = reported {
        if is_sticky_explicit_endpoint(s.as_str()) {
            return ResolvedEndpoint { endpoint: Some(s.clone()), reflexive: false };
        }
    }
    if let (Some(a), Some(p)) = (observed, wg_listen_port) {
        if a.ip.is_public() {
            return ResolvedEndpoint {
                endpoint: Some(reflexive_endpoint(&a.ip, p)),
                reflexive: true,
            };
        }
    }
    ResolvedEndpoint { endpoint: crate::text::clone_opt(reported), reflexive: false }
}

} // verus!
