//! Addresses for peers: `fd5a:1f00:<slot>:<index>::1`.
//!
//! A network's name selects one of 65536 slots, and peers get the indices of
//! that slot one after the other, from 1 on. Slot 0 belongs to the unnamed
//! network.

use crate::bindings::maps::{slot_contents, slots_get, slots_insert, slots_new};
use crate::net::addr::{segs, Ipv6Addr};
use dashmap::DashMap;
use vstd::prelude::*;

verus! {

/// How the text of every address from here starts.
pub const ULA_PREFIX_LITERAL: &'static str = "fd5a:1f00:";

/// The slot of the unnamed network.
pub const DEFAULT_NETWORK_SLOT: u16 = 0;

/// The start value of 64-bit FNV-1a.
pub const FNV_OFFSET: u64 = 0xcbf2_9ce4_8422_2325;

/// The multiplier of 64-bit FNV-1a.
pub const FNV_PRIME: u64 = 0x0000_0100_0000_01b3;

/// Why no address could be given.
#[derive(Debug, Clone, Copy, PartialEq, Eq, Structural)]
pub enum AllocError {
    /// All indices of the network's slot have been given out.
    Exhausted,
}

/// Why no address could be given, in words.
pub const EXHAUSTED_TEXT: &'static str = "ULA index space exhausted (65535 peers per network)";

/// The 64-bit FNV-1a hash: for every byte, exclusive-or, then multiply.
pub open spec fn fnv(bytes: Seq<u8>) -> u64
    decreases bytes.len(),
{
    if bytes.len() == 0 {
        FNV_OFFSET
    } else {
        (((fnv(bytes.drop_last()) ^ (bytes.last() as u64)) * FNV_PRIME) % 0x1_0000_0000_0000_0000) as u64
    }
}

/// The exclusive-or of the four 16-bit lanes of a 64-bit number.
pub open spec fn fold16(h: u64) -> u64 {
    ((h >> 48) ^ (h >> 32) ^ (h >> 16) ^ h) & 0xffff
}

/// The slot of a network: its hash folded to 16 bits, with 0 moved to 1 so
/// that only the unnamed network is in slot 0.
pub open spec fn slot_of(network: Seq<char>) -> u16 {
    if network.len() == 0 {
        DEFAULT_NETWORK_SLOT
    } else {
        let folded = fold16(fnv(vstd::utf8::encode_utf8(network)));
        if folded == 0 {
            1
        } else {
            folded as u16
        }
    }
}

/// How many indices of a slot have been given out.
pub open spec fn issued_in(slots: Map<u16, u16>, slot: u16) -> u16 {
    if slots.contains_key(slot) {
        slots[slot]
    } else {
        0
    }
}

/// The segments of the address at an index of a slot.
pub open spec fn host_segments(slot: u16, index: u16) -> Seq<int> {
    seq![0xfd5a, 0x1f00, slot as int, index as int, 0, 0, 0, 1]
}

/// The counters once the slot's is at least `idx`.
pub open spec fn bumped(slots: Map<u16, u16>, slot: u16, idx: u16) -> Map<u16, u16> {
    slots.insert(
        slot,
        if issued_in(slots, slot) < idx {
            idx
        } else {
            issued_in(slots, slot)
        },
    )
}

/// The address at an index of a slot.
pub open spec fn host_address(slot: u16, index: u16) -> Ipv6Addr {
    crate::net::addr::from_segs(host_segments(slot, index))
}

/// Whether an address is one that the allocator can give out.
pub open spec fn is_host_address(a: Ipv6Addr) -> bool {
    let s = segs(a);
    &&& s[0] == 0xfd5a
    &&& s[1] == 0x1f00
    &&& s[3] != 0
    &&& s[4] == 0
    &&& s[5] == 0
    &&& s[6] == 0
    &&& s[7] == 1
}

/// The 64-bit FNV-1a hash of the bytes.
pub fn fnv1a64(bytes: &[u8]) -> (r: u64)
    ensures
        r == fnv(bytes@),
{
    let mut hash: u64 = FNV_OFFSET;
    let mut i: usize = 0;
    assert(bytes@.take(0) =~= Seq::<u8>::empty());
    while i < bytes.len()
        invariant
            i <= bytes@.len(),
            hash == fnv(bytes@.take(i as int)),
        decreases bytes@.len() - i,
    {
        let ghost next = bytes@.take(i + 1);
        assert(next.drop_last() =~= bytes@.take(i as int));
        let mixed: u64 = hash ^ (bytes[i] as u64);
        hash = mixed.wrapping_mul(FNV_PRIME);
        i = i + 1;
    }
    assert(bytes@.take(bytes@.len() as int) =~= bytes@);
    hash
}

/// The slot of a network.
pub fn network_slot(network: &str) -> (r: u16)
    ensures
        r == slot_of(network@),
        r == DEFAULT_NETWORK_SLOT <==> network@.len() == 0,
{
    if network.is_empty() {
        return DEFAULT_NETWORK_SLOT;
    }
    let h = fnv1a64(network.as_bytes());
    let folded: u64 = ((h >> 48) ^ (h >> 32) ^ (h >> 16) ^ h) & 0xffff;
    proof {
        assert(((h >> 48) ^ (h >> 32) ^ (h >> 16) ^ h) & 0xffff <= 0xffff) by (bit_vector);
    }
    if folded == 0 {
        1
    } else {
        folded as u16
    }
}

/// The address allocator: a counter for each slot.
#[derive(Debug)]
pub struct UlaAllocator {
    per_network: DashMap<u16, u16>,
}

impl View for UlaAllocator {
    type V = Map<u16, u16>;

    closed spec fn view(&self) -> Map<u16, u16> {
        slot_contents(self.per_network)
    }
}

impl UlaAllocator {
    /// An allocator that has given out nothing.
    pub fn new() -> (r: Self)
        ensures
            r@ == Map::<u16, u16>::empty(),
    {
        UlaAllocator { per_network: slots_new() }
    }

    /// Gives out the next index of the network's slot, and its address.
    pub fn allocate(&mut self, network: &str) -> (r: Result<(u16, Ipv6Addr), AllocError>)
        ensures
            match r {
                Ok((index, address)) => {
                    let slot = slot_of(network@);
                    &&& issued_in(old(self)@, slot) < u16::MAX
                    &&& index == issued_in(old(self)@, slot) + 1
                    &&& address == host_address(slot, index)
                    &&& segs(address) == host_segments(slot, index)
                    &&& final(self)@ == old(self)@.insert(slot, index)
                },
                Err(e) => {
                    &&& e == AllocError::Exhausted
                    &&& issued_in(old(self)@, slot_of(network@)) == u16::MAX
                    &&& final(self)@ == old(self)@
                },
            },
    {
        let slot = network_slot(network);
        self.allocate_in_slot(slot)
    }

    /// Gives out the next index of a slot, and its address.
    pub fn allocate_in_slot(&mut self, slot: u16) -> (r: Result<(u16, Ipv6Addr), AllocError>)
        ensures
            match r {
                Ok((index, address)) => {
                    &&& issued_in(old(self)@, slot) < u16::MAX
                    &&& index == issued_in(old(self)@, slot) + 1
                    &&& address == host_address(slot, index)
                    &&& segs(address) == host_segments(slot, index)
                    &&& final(self)@ == old(self)@.insert(slot, index)
                },
                Err(e) => {
                    &&& e == AllocError::Exhausted
                    &&& issued_in(old(self)@, slot) == u16::MAX
                    &&& final(self)@ == old(self)@
                },
            },
    {
        let current = self.issued_in_slot(slot);
        if current == u16::MAX {
            return Err(AllocError::Exhausted);
        }
        let next: u16 = current + 1;
        slots_insert(&mut self.per_network, slot, next);
        Ok((next, Self::address_for(slot, next)))
    }

    /// The address at an index of a slot.
    pub fn address_for(slot: u16, peer_index: u16) -> (r: Ipv6Addr)
        ensures
            r == host_address(slot, peer_index),
            segs(r) == host_segments(slot, peer_index),
    {
        Ipv6Addr::new(0xfd5a, 0x1f00, slot, peer_index, 0, 0, 0, 1)
    }

    fn issued_in_slot(&self, slot: u16) -> (r: u16)
        ensures
            r == issued_in(self@, slot),
    {
        match slots_get(&self.per_network, slot) {
            Some(n) => n,
            None => 0,
        }
    }

    /// How many indices of the network's slot have been given out.
    pub fn issued(&self, network: &str) -> (r: u16)
        ensures
            r == issued_in(self@, slot_of(network@)),
    {
        self.issued_in_slot(network_slot(network))
    }

    /// Moves the slot's counter to at least `idx`.
    pub fn bump_slot_at_least(&mut self, slot: u16, idx: u16)
        ensures
            final(self)@ == bumped(old(self)@, slot, idx),
    {
        let current = self.issued_in_slot(slot);
        if current < idx {
            slots_insert(&mut self.per_network, slot, idx);
        } else {
            slots_insert(&mut self.per_network, slot, current);
        }
    }
}

// ---------------------------------------------------------------------------
// Laws
// ---------------------------------------------------------------------------

/// A named network never shares the slot of the unnamed one.
pub proof fn law_named_networks_avoid_the_default_slot(network: Seq<char>)
    requires
        network.len() > 0,
    ensures
        slot_of(network) != DEFAULT_NETWORK_SLOT,
{
    let h = fnv(vstd::utf8::encode_utf8(network));
    assert(((h >> 48) ^ (h >> 32) ^ (h >> 16) ^ h) & 0xffff <= 0xffff) by (bit_vector);
}

/// Addresses of different slots, or of different indices of one slot, differ.
pub proof fn law_addresses_are_disjoint(slot_a: u16, index_a: u16, slot_b: u16, index_b: u16)
    requires
        host_address(slot_a, index_a) == host_address(slot_b, index_b),
    ensures
        slot_a == slot_b,
        index_a == index_b,
{
    crate::net::addr::lemma_from_segs(host_segments(slot_a, index_a));
    crate::net::addr::lemma_from_segs(host_segments(slot_b, index_b));
    assert(host_segments(slot_a, index_a)[2] == host_segments(slot_b, index_b)[2]);
    assert(host_segments(slot_a, index_a)[3] == host_segments(slot_b, index_b)[3]);
}

/// Moving a counter never moves it back, and leaves the other slots alone.
pub proof fn law_bumping_is_monotonic(slots: Map<u16, u16>, slot: u16, idx: u16, other: u16)
    ensures
        issued_in(bumped(slots, slot, idx), other) >= issued_in(slots, other),
        issued_in(bumped(slots, slot, idx), slot) >= idx,
        other != slot ==> issued_in(bumped(slots, slot, idx), other) == issued_in(slots, other),
{
}

/// An index that was given out is not given out again: the next one of the
/// slot is greater than every one before.
pub proof fn law_indices_are_not_reused(
    slots: Map<u16, u16>,
    slot: u16,
    given: u16,
)
    requires
        given <= issued_in(slots, slot),
        issued_in(slots, slot) < u16::MAX,
    ensures
        issued_in(slots, slot) + 1 > given,
        host_address(slot, (issued_in(slots, slot) + 1) as u16) != host_address(slot, given),
{
    let next = (issued_in(slots, slot) + 1) as u16;
    if host_address(slot, next) == host_address(slot, given) {
        law_addresses_are_disjoint(slot, next, slot, given);
    }
}

/// The hash of no bytes is the start value, and a further byte is mixed into the
/// hash of those before it.
pub proof fn law_hashing_goes_byte_by_byte(bytes: Seq<u8>, b: u8)
    ensures
        fnv(Seq::empty()) == 0xcbf2_9ce4_8422_2325,
        fnv(bytes.push(b)) == ((fnv(bytes) ^ (b as u64)) * 0x100_0000_01b3) % 0x1_0000_0000_0000_0000,
{
    assert(bytes.push(b).drop_last() =~= bytes);
}

/// The slot of a named network is the exclusive-or of the four 16-bit parts of
/// its hash, or 1 where that is 0. The unnamed network is in slot 0.
pub proof fn law_slots_come_from_the_hash(network: Seq<char>)
    ensures
        slot_of(Seq::empty()) == 0,
        network.len() > 0 ==> {
            let h = fnv(vstd::utf8::encode_utf8(network));
            let x = (h / 0x1_0000_0000_0000) ^ ((h / 0x1_0000_0000) % 0x1_0000) ^ ((h / 0x1_0000)
                % 0x1_0000) ^ (h % 0x1_0000);
            &&& x != 0 ==> slot_of(network) == x
            &&& x == 0 ==> slot_of(network) == 1
        },
{
    let h = fnv(vstd::utf8::encode_utf8(network));
    assert(((h >> 48) ^ (h >> 32) ^ (h >> 16) ^ h) & 0xffff == (h / 0x1_0000_0000_0000) ^ ((h
        / 0x1_0000_0000) % 0x1_0000) ^ ((h / 0x1_0000) % 0x1_0000) ^ (h % 0x1_0000)) by (bit_vector);
    assert(((h >> 48) ^ (h >> 32) ^ (h >> 16) ^ h) & 0xffff <= 0xffff) by (bit_vector);
}

/// The address at an index of a slot is made of the common start, the slot, the
/// index and a final 1.
pub proof fn law_what_host_addresses_are(slot: u16, index: u16)
    ensures
        host_address(slot, index).bits == 0xfd5a_1f00_0000_0000_0000_0000_0000_0000int + slot
            * 0x1_0000_0000_0000_0000_0000 + index * 0x1_0000_0000_0000_0000 + 1,
        is_host_address(host_address(slot, index)) <==> index != 0,
{
    let s = host_segments(slot, index);
    crate::net::addr::lemma_from_segs(s);
    reveal_with_fuel(crate::radix::undigits, 9);
    let d7 = s.drop_last();
    let d6 = d7.drop_last();
    let d5 = d6.drop_last();
    let d4 = d5.drop_last();
    let d3 = d4.drop_last();
    let d2 = d3.drop_last();
    let d1 = d2.drop_last();
    assert(d1.drop_last() =~= Seq::<int>::empty());
    assert(crate::radix::undigits(d1, 65536) == 0xfd5a);
    assert(crate::radix::undigits(d2, 65536) == 0xfd5a_1f00);
    assert(crate::radix::undigits(d3, 65536) == 0xfd5a_1f00_0000 + slot);
    assert(crate::radix::undigits(d4, 65536) == 0x1_0000 * (0xfd5a_1f00_0000 + slot) + index);
}

} // verus!
