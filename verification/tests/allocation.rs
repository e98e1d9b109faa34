//! Addresses of peers.

use tabbify_mesh::roster::allocator::{
    fnv1a64, network_slot, AllocError, UlaAllocator, DEFAULT_NETWORK_SLOT, ULA_PREFIX_LITERAL,
};

#[test]
fn allocates_sequential_indices_from_one_per_network() {
    let mut alloc = UlaAllocator::new();
    let (i1, _) = alloc.allocate("alice").expect("first");
    let (i2, _) = alloc.allocate("alice").expect("second");
    let (i3, _) = alloc.allocate("alice").expect("third");
    assert_eq!((i1, i2, i3), (1, 2, 3));
}

#[test]
fn distinct_addresses_per_peer_index() {
    let mut alloc = UlaAllocator::new();
    let (_, a1) = alloc.allocate("alice").expect("ok");
    let (_, a2) = alloc.allocate("alice").expect("ok");
    assert_ne!(a1, a2);
    assert!(a1.to_text().starts_with(ULA_PREFIX_LITERAL));
    assert!(a2.to_text().starts_with(ULA_PREFIX_LITERAL));
}

#[test]
fn distinct_networks_get_disjoint_blocks() {
    let mut alloc = UlaAllocator::new();
    let (ia, addr_a) = alloc.allocate("alice").expect("alice");
    let (ib, addr_b) = alloc.allocate("bob").expect("bob");
    assert_eq!(ia, 1);
    assert_eq!(ib, 1);
    assert_ne!(addr_a, addr_b);
    assert_ne!(
        addr_a.segments()[2],
        addr_b.segments()[2],
        "network slot hextet must differ for distinct networks",
    );
    assert_eq!(addr_a.segments()[3], 1);
    assert_eq!(addr_b.segments()[3], 1);
}

#[test]
fn per_network_counters_are_independent() {
    let mut alloc = UlaAllocator::new();
    let _ = alloc.allocate("alice").expect("a1");
    let _ = alloc.allocate("alice").expect("a2");
    let (ib, _) = alloc.allocate("bob").expect("b1");
    assert_eq!(ib, 1, "bob's first peer is index 1, unaffected by alice");
    assert_eq!(alloc.issued("alice"), 2);
    assert_eq!(alloc.issued("bob"), 1);
}

#[test]
fn idx_stays_within_network_block() {
    let mut alloc = UlaAllocator::new();
    let slot = network_slot("svc");
    let (idx, addr) = alloc.allocate("svc").expect("ok");
    assert_eq!(addr.segments()[2], slot, "block hextet matches network slot");
    assert_eq!(addr.segments()[3], idx, "idx hextet matches returned index");
}

#[test]
fn empty_network_uses_default_slot() {
    assert_eq!(network_slot(""), DEFAULT_NETWORK_SLOT);
    let mut alloc = UlaAllocator::new();
    let (_, addr) = alloc.allocate("").expect("ok");
    assert_eq!(addr.segments()[2], DEFAULT_NETWORK_SLOT);
}

#[test]
fn network_slot_is_deterministic() {
    assert_eq!(network_slot("alice"), network_slot("alice"));
    assert_ne!(network_slot("alice"), network_slot("bob"));
}

#[test]
fn named_network_never_lands_in_default_slot() {
    for i in 0..2000 {
        let name = format!("network-{i}");
        assert_ne!(network_slot(&name), DEFAULT_NETWORK_SLOT, "name {name} hit slot 0");
    }
}

#[test]
fn address_for_is_deterministic() {
    let a = UlaAllocator::address_for(7, 3);
    let b = UlaAllocator::address_for(7, 3);
    assert_eq!(a, b);
    assert_eq!(a.segments()[0], 0xfd5a);
    assert_eq!(a.segments()[1], 0x1f00);
    assert_eq!(a.segments()[2], 7);
    assert_eq!(a.segments()[3], 3);
    assert_eq!(a.segments()[7], 1);
}

#[test]
fn issued_reflects_allocations() {
    let mut alloc = UlaAllocator::new();
    assert_eq!(alloc.issued("alice"), 0);
    let _ = alloc.allocate("alice").expect("ok");
    let _ = alloc.allocate("alice").expect("ok");
    assert_eq!(alloc.issued("alice"), 2);
}

#[test]
fn bump_slot_at_least_is_monotonic() {
    let mut alloc = UlaAllocator::new();
    let slot = network_slot("alice");
    alloc.bump_slot_at_least(slot, 10);
    assert_eq!(alloc.issued("alice"), 10);
    alloc.bump_slot_at_least(slot, 5);
    assert_eq!(alloc.issued("alice"), 10);
    alloc.bump_slot_at_least(slot, 10);
    assert_eq!(alloc.issued("alice"), 10);
    alloc.bump_slot_at_least(slot, 42);
    let (idx, _) = alloc.allocate("alice").expect("ok");
    assert_eq!(idx, 43);
}

#[test]
fn the_hash_is_fnv_1a() {
    assert_eq!(fnv1a64(b""), 0xcbf2_9ce4_8422_2325);
    assert_eq!(fnv1a64(b"a"), 0xaf63_dc4c_8601_ec8c);
    assert_eq!(fnv1a64(b"foobar"), 0x8594_4171_f739_67e8);
}

#[test]
fn a_slot_is_the_folded_hash() {
    let h = fnv1a64(b"alice");
    let folded = ((h >> 48) ^ (h >> 32) ^ (h >> 16) ^ h) & 0xffff;
    assert_eq!(u64::from(network_slot("alice")), folded);
}

#[test]
fn a_full_slot_is_exhausted() {
    let mut alloc = UlaAllocator::new();
    alloc.bump_slot_at_least(7, u16::MAX - 1);
    assert_eq!(alloc.allocate_in_slot(7).expect("last").0, u16::MAX);
    assert_eq!(alloc.allocate_in_slot(7), Err(AllocError::Exhausted));
}
