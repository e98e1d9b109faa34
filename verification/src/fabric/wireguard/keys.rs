//! Keys, and who has them.

use crate::bindings::keys::{derive_public, random_bytes, x25519_public};
use crate::net::socket::SocketAddr;
use crate::numeral::{digit_char, digit_for, digit_of, lemma_digit_char};
use vstd::prelude::*;

verus! {

/// A secret key and its public key.
pub struct WireGuardKeypair {
    /// The secret key. It must not be shown.
    pub private: [u8; 32],
    /// The public key, which may be.
    pub public: [u8; 32],
}

/// Two hexadecimal digits per byte.
pub open spec fn hex_bytes(s: Seq<u8>) -> Seq<char>
    decreases s.len(),
{
    if s.len() == 0 {
        Seq::empty()
    } else {
        hex_bytes(s.drop_last()).push(digit_char((s.last() / 16) as int)).push(
            digit_char((s.last() % 16) as int),
        )
    }
}

/// A pair of keys in words, without the secret.
pub open spec fn keypair_text(public: Seq<u8>) -> Seq<char> {
    "WireGuardKeypair { private: \"<redacted>\", public: \""@ + hex_bytes(public) + "\" }"@
}

/// The key with the given 32 bytes.
pub fn key_from(bytes: &[u8]) -> (r: [u8; 32])
    requires
        bytes@.len() == 32,
    ensures
        r@ == bytes@,
{
    let mut key = [0u8;32];
    let mut i: usize = 0;
    while i < 32
        invariant
            i <= 32,
            bytes@.len() == 32,
            forall|k: int| 0 <= k < i ==> key@[k] == bytes@[k],
        decreases 32 - i,
    {
        key[i] = bytes[i];
        i = i + 1;
    }
    assert(key@ =~= bytes@);
    key
}

impl WireGuardKeypair {
    /// The pair of a secret key.
    pub fn from_private(private: [u8; 32]) -> (r: Self)
        ensures
            r.private == private,
            r.public@ == x25519_public(private@),
    {
        let public = derive_public(&private);
        WireGuardKeypair { private, public }
    }

    /// The pair in words, without the secret.
    pub fn debug_text(&self) -> (r: String)
        ensures
            r@ == keypair_text(self.public@),
    {
        let mut hex = String::new();
        let mut i: usize = 0;
        assert(self.public@.take(0) =~= Seq::<u8>::empty());
        while i < 32
            invariant
                i <= 32,
                self.public@.len() == 32,
                hex@ == hex_bytes(self.public@.take(i as int)),
            decreases 32 - i,
        {
            let b: u8 = self.public[i];
            assert(self.public@.take(i + 1).drop_last() =~= self.public@.take(i as int));
            hex.push(digit_for(b / 16));
            hex.push(digit_for(b % 16));
            i = i + 1;
        }
        assert(self.public@.take(32) =~= self.public@);
        crate::text::cat3(
            "WireGuardKeypair { private: \"<redacted>\", public: \"",
            hex.as_str(),
            "\" }",
        )
    }
}

/// A fresh pair of keys.
pub fn generate_keypair() -> (r: WireGuardKeypair)
    ensures
        r.public@ == x25519_public(r.private@),
{
    let secret = random_bytes(32);
    WireGuardKeypair::from_private(key_from(secret.as_slice()))
}

/// Another node.
#[derive(Debug, Clone)]
pub struct WireGuardPeerSpec {
    /// The node.
    pub node_id: String,
    /// Where it listens.
    pub endpoint: SocketAddr,
    /// Its public key.
    pub public_key: [u8; 32],
}

/// Each byte is written as two hexadecimal digits in lower case, the upper half
/// first, so that the bytes can be read back.
pub proof fn law_bytes_are_two_digits(s: Seq<u8>, i: int)
    requires
        0 <= i < s.len(),
    ensures
        hex_bytes(s).len() == 2 * s.len(),
        16 * digit_of(hex_bytes(s)[2 * i]) + digit_of(hex_bytes(s)[2 * i + 1]) == s[i],
        !('A' <= hex_bytes(s)[2 * i] <= 'F'),
        !('A' <= hex_bytes(s)[2 * i + 1] <= 'F'),
    decreases s.len(),
{
    let t = s.drop_last();
    lemma_hex_len(t);
    if i < t.len() {
        law_bytes_are_two_digits(t, i);
        assert(t[i] == s[i]);
    } else {
        lemma_digit_char((s.last() / 16) as int);
        lemma_digit_char((s.last() % 16) as int);
    }
}

proof fn lemma_hex_len(s: Seq<u8>)
    ensures
        hex_bytes(s).len() == 2 * s.len(),
    decreases s.len(),
{
    if s.len() > 0 {
        lemma_hex_len(s.drop_last());
    }
}

/// What is shown of a pair of keys is the public key, and that the secret one is
/// not shown.
pub proof fn law_only_the_public_key_is_shown(public: Seq<u8>)
    ensures
        keypair_text(public)
            == "WireGuardKeypair { private: \"<redacted>\", public: \""@ + hex_bytes(public)
            + "\" }"@,
{
}

} // verus!
