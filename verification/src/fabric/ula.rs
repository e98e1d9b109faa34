//! Addresses of the instances of applications.
//!
//! The bits of such an address, from the top: 24 bits that are the same
//! everywhere, 8 bits for the cluster, 16 for the tenant, 64 from the
//! application's identifier and 16 for the instance.

use crate::net::addr::{segs, Ipv6Addr};
use crate::radix::undigits;
use vstd::arithmetic::div_mod::{lemma_div_denominator, lemma_fundamental_div_mod};
use vstd::prelude::*;

verus! {

/// What the addresses of a tenant of a cluster start with.
#[derive(Debug, Clone, Copy, PartialEq, Eq, Structural)]
pub struct UlaPrefix {
    magic: u8,
    tenant: u16,
}

impl UlaPrefix {
    /// The cluster's byte.
    pub closed spec fn spec_magic(&self) -> u8 {
        self.magic
    }

    /// The tenant.
    pub closed spec fn spec_tenant(&self) -> u16 {
        self.tenant
    }

    /// The prefix of a tenant of a cluster; every pair is one.
    pub fn new(magic: u8, tenant: u16) -> (r: Result<Self, &'static str>)
        ensures
            r is Ok,
            r->Ok_0.spec_magic() == magic,
            r->Ok_0.spec_tenant() == tenant,
    {
        Ok(UlaPrefix { magic, tenant })
    }

    /// The tenant.
    pub fn tenant(&self) -> (r: u16)
        ensures
            r == self.spec_tenant(),
    {
        self.tenant
    }

    /// The cluster's byte.
    pub fn magic(&self) -> (r: u8)
        ensures
            r == self.spec_magic(),
    {
        self.magic
    }
}

/// The address of an instance of an application.
#[derive(Debug, Clone, Copy, PartialEq, Eq, Structural)]
pub struct Ula {
    address: Ipv6Addr,
}

/// The segments of the address of an instance.
pub open spec fn instance_segments(magic: u8, tenant: u16, app: u128, instance: u16) -> Seq<int> {
    seq![
        0xfd5a,
        0x1f00 + magic,
        tenant as int,
        (app / 0x1_0000_0000_0000_0000_0000_0000_0000) as int,
        (app / 0x1_0000_0000_0000_0000_0000_0000) as int % 0x1_0000,
        (app / 0x1_0000_0000_0000_0000_0000) as int % 0x1_0000,
        (app / 0x1_0000_0000_0000_0000) as int % 0x1_0000,
        instance as int,
    ]
}

impl Ula {
    /// The address.
    pub closed spec fn spec_address(&self) -> Ipv6Addr {
        self.address
    }

    /// The address of an instance of an application; the application is
    /// known by the first half of its identifier.
    pub fn from_components(prefix: &UlaPrefix, app_uuid: u128, instance: u16) -> (r: Self)
        ensures
            segs(r.spec_address()) == instance_segments(
                prefix.spec_magic(),
                prefix.spec_tenant(),
                app_uuid,
                instance,
            ),
    {
        let a: u16 = (app_uuid / 0x1_0000_0000_0000_0000_0000_0000_0000) as u16;
        let b: u16 = ((app_uuid / 0x1_0000_0000_0000_0000_0000_0000) % 0x1_0000) as u16;
        let c: u16 = ((app_uuid / 0x1_0000_0000_0000_0000_0000) % 0x1_0000) as u16;
        let d: u16 = ((app_uuid / 0x1_0000_0000_0000_0000) % 0x1_0000) as u16;
        let address = Ipv6Addr::new(
            0xfd5a,
            0x1f00 + prefix.magic as u16,
            prefix.tenant,
            a,
            b,
            c,
            d,
            instance,
        );
        assert(segs(address) =~= instance_segments(
            prefix.magic,
            prefix.tenant,
            app_uuid,
            instance,
        ));
        Ula { address }
    }

    /// The address.
    pub fn address(&self) -> (r: Ipv6Addr)
        ensures
            r == self.spec_address(),
    {
        self.address
    }
}

/// The first half of an identifier, put together from its four parts.
proof fn lemma_app_half(app: int)
    requires
        app >= 0,
    ensures
        app / 0x1_0000_0000_0000_0000 == 0x1_0000 * (0x1_0000 * (0x1_0000 * (app
            / 0x1_0000_0000_0000_0000_0000_0000_0000) + (app / 0x1_0000_0000_0000_0000_0000_0000)
            % 0x1_0000) + (app / 0x1_0000_0000_0000_0000_0000) % 0x1_0000) + (app
            / 0x1_0000_0000_0000_0000) % 0x1_0000,
{
    let h = app / 0x1_0000_0000_0000_0000;
    lemma_div_denominator(app, 0x1_0000_0000_0000_0000, 0x1_0000);
    lemma_div_denominator(app, 0x1_0000_0000_0000_0000_0000, 0x1_0000);
    lemma_div_denominator(app, 0x1_0000_0000_0000_0000_0000_0000, 0x1_0000);
    let a = app / 0x1_0000_0000_0000_0000_0000;
    let b = app / 0x1_0000_0000_0000_0000_0000_0000;
    let c = app / 0x1_0000_0000_0000_0000_0000_0000_0000;
    assert(a == h / 0x1_0000 && b == a / 0x1_0000 && c == b / 0x1_0000);
    lemma_fundamental_div_mod(h, 0x1_0000);
    lemma_fundamental_div_mod(a, 0x1_0000);
    lemma_fundamental_div_mod(b, 0x1_0000);
}

/// Different clusters, tenants, applications or instances have different
/// addresses, where applications differ in the first half of their
/// identifiers.
pub proof fn law_instances_have_their_own_address(
    magic_a: u8,
    tenant_a: u16,
    app_a: u128,
    instance_a: u16,
    magic_b: u8,
    tenant_b: u16,
    app_b: u128,
    instance_b: u16,
)
    requires
        instance_segments(magic_a, tenant_a, app_a, instance_a) == instance_segments(
            magic_b,
            tenant_b,
            app_b,
            instance_b,
        ),
    ensures
        magic_a == magic_b,
        tenant_a == tenant_b,
        instance_a == instance_b,
        app_a / 0x1_0000_0000_0000_0000 == app_b / 0x1_0000_0000_0000_0000,
{
    lemma_app_half(app_a as int);
    lemma_app_half(app_b as int);
    let x = instance_segments(magic_a, tenant_a, app_a, instance_a);
    let y = instance_segments(magic_b, tenant_b, app_b, instance_b);
    assert(x[1] == y[1] && x[2] == y[2] && x[3] == y[3] && x[4] == y[4] && x[5] == y[5] && x[6]
        == y[6] && x[7] == y[7]);
}

/// The address of an instance, bit by bit: 24 bits that are the same everywhere,
/// 8 of the cluster, 16 of the tenant, the first 64 of the application's
/// identifier, and 16 of the instance.
pub proof fn law_what_instance_addresses_are(magic: u8, tenant: u16, app: u128, instance: u16)
    ensures
        undigits(instance_segments(magic, tenant, app, instance), 65536) == 0xfd5a1f
            * 0x1_0000_0000_0000_0000_0000_0000_00int + magic
            * 0x1_0000_0000_0000_0000_0000_0000 + tenant * 0x1_0000_0000_0000_0000_0000 + (app
            / 0x1_0000_0000_0000_0000) * 0x1_0000 + instance,
{
    lemma_app_half(app as int);
    let s = instance_segments(magic, tenant, app, instance);
    reveal_with_fuel(undigits, 9);
    let d7 = s.drop_last();
    let d6 = d7.drop_last();
    let d5 = d6.drop_last();
    let d4 = d5.drop_last();
    let d3 = d4.drop_last();
    let d2 = d3.drop_last();
    let d1 = d2.drop_last();
    assert(d1.drop_last() =~= Seq::<int>::empty());
    assert(undigits(d1, 65536) == 0xfd5a);
    assert(undigits(d2, 65536) == 0xfd5a_1f00 + magic);
    assert(undigits(d3, 65536) == 0x1_0000 * (0xfd5a_1f00 + magic) + tenant);
    assert(undigits(d7, 65536) == 0x1_0000_0000_0000_0000 * (0x1_0000 * (0xfd5a_1f00 + magic)
        + tenant) + app as int / 0x1_0000_0000_0000_0000);
}

} // verus!
