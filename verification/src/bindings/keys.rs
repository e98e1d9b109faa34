//! Random bytes and X25519 keys, from the `rand_core` and `x25519_dalek` crates.

use vstd::prelude::*;

verus! {

/// The X25519 public key of 32 secret bytes.
pub uninterp spec fn x25519_public(secret: Seq<u8>) -> Seq<u8>;

/// `RngCore::fill_bytes` of `rand_core::OsRng`: as many bytes as asked for, of
/// which nothing else is known.
#[verifier::external_body]
pub(crate) fn random_bytes(n: usize) -> (r: Vec<u8>)
    ensures
        r@.len() == n,
{
    let mut buf = vec![0u8; n];
    rand_core::RngCore::fill_bytes(&mut rand_core::OsRng, &mut buf);
    buf
}

/// `PublicKey::from(&StaticSecret)` of `x25519_dalek`: the 32 bytes of the
/// public key, which depend on the 32 secret bytes alone.
#[verifier::external_body]
pub(crate) fn derive_public(secret: &[u8; 32]) -> (r: [u8; 32])
    ensures
        r@ == x25519_public(secret@),
{
    let secret = x25519_dalek::StaticSecret::from(*secret);
    x25519_dalek::PublicKey::from(&secret).to_bytes()
}

} // verus!
