//! Socket addresses: an address with a port.

use crate::net::addr::{ipv4_text, ipv4_value, ipv6_text, ipv6_value, IpAddr, Ipv6Addr};
use crate::net::split::{
    find_first, find_last, first_at, lacks, last_at, lemma_first_at, lemma_last_at,
    lemma_last_at_found, slice_chars,
};
use crate::net::textual::{
    law_dotted_addresses_have_one_text, lemma_ipv4_round_trip, lemma_ipv6_chars,
    lemma_ipv6_round_trip, read_ipv4, read_ipv6, write_ipv4,
};
use crate::numeral::{
    decimal, decimal_text, digit_of, is_number, lemma_number_nonneg, lemma_number_of_numeral,
    lemma_numeral_chars, number, read_number,
};
use crate::text::chars_of;
use vstd::prelude::*;

verus! {

/// An address with a port.
#[derive(Clone, Copy, Debug, PartialEq, Eq, Structural, Hash)]
pub struct SocketAddr {
    /// The address.
    pub ip: IpAddr,
    /// The port.
    pub port: u16,
    /// The scope of an IPv6 address; zero where there is none.
    pub scope_id: u32,
}

/// The number that decimal digits stand for, up to `max`.
pub open spec fn decimal_value(s: Seq<char>, max: int) -> Option<int> {
    if is_number(s, 10) && number(s, 10) <= max {
        Some(number(s, 10))
    } else {
        None
    }
}

/// The IPv6 address, with its scope, that the text between the brackets
/// stands for: an address, or an address, `%` and a decimal scope.
pub open spec fn scoped_value(s: Seq<char>) -> Option<(Ipv6Addr, int)> {
    let q = first_at(s, '%', 0);
    if q < 0 {
        match ipv6_value(s) {
            Some(a) => Some((a, 0)),
            None => None,
        }
    } else {
        match (
            ipv6_value(s.take(q)),
            decimal_value(s.subrange(q + 1, s.len() as int), 0xffff_ffff),
        ) {
            (Some(a), Some(z)) => Some((a, z)),
            _ => None,
        }
    }
}

/// The socket address that a text stands for: `a.b.c.d:port` or
/// `[v6]:port` or `[v6%scope]:port`.
pub open spec fn socket_value(s: Seq<char>) -> Option<SocketAddr> {
    let p = last_at(s, ':');
    if p < 0 {
        None
    } else {
        let host = s.take(p);
        match decimal_value(s.subrange(p + 1, s.len() as int), 65535) {
            None => None,
            Some(port) => if ipv4_value(host) is Some {
                Some(
                    SocketAddr {
                        ip: IpAddr::V4(ipv4_value(host)->0 as u32),
                        port: port as u16,
                        scope_id: 0,
                    },
                )
            } else if host.len() >= 2 && host[0] == '[' && host.last() == ']' {
                match scoped_value(host.subrange(1, host.len() - 1)) {
                    Some((a, z)) => Some(
                        SocketAddr { ip: IpAddr::V6(a), port: port as u16, scope_id: z as u32 },
                    ),
                    None => None,
                }
            } else {
                None
            },
        }
    }
}

/// An address as it stands in front of a port: an IPv6 address is bracketed.
pub open spec fn host_text(ip: IpAddr, scope_id: int) -> Seq<char> {
    match ip {
        IpAddr::V4(v) => ipv4_text(v as int),
        IpAddr::V6(a) => if scope_id == 0 {
            seq!['['] + ipv6_text(a) + seq![']']
        } else {
            seq!['['] + ipv6_text(a) + seq!['%'] + decimal(scope_id) + seq![']']
        },
    }
}

/// A socket address in its textual form.
pub open spec fn socket_text(a: SocketAddr) -> Seq<char> {
    host_text(a.ip, a.scope_id as int) + seq![':'] + decimal(a.port as int)
}

/// The number that an unsigned decimal stands for, up to `max`; a plus sign may
/// stand before it.
pub open spec fn unsigned_value(s: Seq<char>, max: int) -> Option<int> {
    if s.len() > 1 && s[0] == '+' {
        decimal_value(s.subrange(1, s.len() as int), max)
    } else {
        decimal_value(s, max)
    }
}

/// Reads an unsigned decimal up to `max`.
pub fn read_unsigned(s: &[char], max: u64) -> (r: Option<u64>)
    requires
        max <= 0xffff_ffff,
    ensures
        match r {
            Some(v) => unsigned_value(s@, max as int) == Some(v as int),
            None => unsigned_value(s@, max as int) is None,
        },
{
    let n = s.len();
    if n > 1 && s[0] == '+' {
        let digits = slice_chars(s, 1, n);
        read_decimal(digits.as_slice(), max)
    } else {
        read_decimal(s, max)
    }
}

/// Reads decimal digits up to `max`.
pub fn read_decimal(s: &[char], max: u64) -> (r: Option<u64>)
    requires
        max <= 0xffff_ffff,
    ensures
        match r {
            Some(v) => decimal_value(s@, max as int) == Some(v as int),
            None => decimal_value(s@, max as int) is None,
        },
{
    proof {
        lemma_number_nonneg(s@, 10);
    }
    read_number(s, 10, max)
}

/// Reads the text between the brackets.
fn read_scoped(s: &[char]) -> (r: Option<(Ipv6Addr, u32)>)
    ensures
        match r {
            Some(v) => scoped_value(s@) == Some((v.0, v.1 as int)),
            None => scoped_value(s@) is None,
        },
{
    match find_first(s, '%') {
        None => match read_ipv6(s) {
            Some(a) => Some((a, 0u32)),
            None => None,
        },
        Some(q) => {
            let front = slice_chars(s, 0, q);
            let n = s.len();
            let back = slice_chars(s, q + 1, n);
            assert(front@ =~= s@.take(q as int));
            match (read_ipv6(front.as_slice()), read_decimal(back.as_slice(), 0xffff_ffff)) {
                (Some(a), Some(z)) => Some((a, z as u32)),
                _ => None,
            }
        },
    }
}

impl SocketAddr {
    /// Reads a socket address from text; `None` where the text is none.
    pub fn parse(s: &str) -> (r: Option<Self>)
        ensures
            r == socket_value(s@),
    {
        let c = chars_of(s);
        let n = c.len();
        proof {
            lemma_last_at(c@, ':');
        }
        let p = match find_last(c.as_slice(), ':') {
            Some(p) => p,
            None => {
                return None;
            },
        };
        let host = slice_chars(c.as_slice(), 0, p);
        let digits = slice_chars(c.as_slice(), p + 1, n);
        assert(host@ =~= s@.take(p as int));
        let port = match read_decimal(digits.as_slice(), 65535) {
            Some(v) => v as u16,
            None => {
                return None;
            },
        };
        match read_ipv4(host.as_slice()) {
            Some(v) => Some(SocketAddr { ip: IpAddr::V4(v), port, scope_id: 0 }),
            None => {
                let h = host.len();
                if h >= 2 && host[0] == '[' && host[h - 1] == ']' {
                    let inner = slice_chars(host.as_slice(), 1, h - 1);
                    match read_scoped(inner.as_slice()) {
                        Some(v) => Some(
                            SocketAddr { ip: IpAddr::V6(v.0), port, scope_id: v.1 },
                        ),
                        None => None,
                    }
                } else {
                    None
                }
            },
        }
    }

    /// The socket address in its textual form.
    pub fn to_text(&self) -> (r: String)
        ensures
            r@ == socket_text(*self),
    {
        let mut r = write_host(&self.ip, self.scope_id);
        r.push(':');
        r.append(decimal_text(self.port as u64).as_str());
        assert(r@ =~= socket_text(*self));
        r
    }
}

/// Writes an address as it stands in front of a port.
pub fn write_host(ip: &IpAddr, scope_id: u32) -> (r: String)
    ensures
        r@ == host_text(*ip, scope_id as int),
{
    match ip {
        IpAddr::V4(v) => write_ipv4(*v),
        IpAddr::V6(a) => {
            let mut r = String::new();
            r.push('[');
            r.append(a.to_text().as_str());
            if scope_id != 0 {
                r.push('%');
                r.append(decimal_text(scope_id as u64).as_str());
            }
            r.push(']');
            assert(r@ =~= host_text(*ip, scope_id as int));
            r
        },
    }
}

/// Whether an IPv4 address is reachable from anywhere: neither unspecified,
/// loopback (`127/8`), link-local (`169.254/16`) nor private (`10/8`,
/// `172.16/12`, `192.168/16`).
pub open spec fn is_public_v4(v: u32) -> bool {
    let a = v / 0x100_0000;
    let b = (v / 0x1_0000) % 0x100;
    &&& v != 0
    &&& a != 127
    &&& a != 10
    &&& !(a == 169 && b == 254)
    &&& !(a == 172 && 16 <= b < 32)
    &&& !(a == 192 && b == 168)
}

/// Whether an IPv6 address is reachable from anywhere: neither unspecified,
/// loopback (`::1`), link-local (`fe80::/10`) nor unique-local (`fc00::/7`).
pub open spec fn is_public_v6(a: Ipv6Addr) -> bool {
    let first = a.bits / 0x1_0000_0000_0000_0000_0000_0000_0000;
    &&& a.bits != 0
    &&& a.bits != 1
    &&& !(0xfe80 <= first < 0xfec0)
    &&& !(0xfc00 <= first < 0xfe00)
}

/// Whether an address is reachable from anywhere.
pub open spec fn is_public(ip: IpAddr) -> bool {
    match ip {
        IpAddr::V4(v) => is_public_v4(v),
        IpAddr::V6(a) => is_public_v6(a),
    }
}

impl IpAddr {
    /// Whether the address is reachable from anywhere, as `is_public`.
    pub fn is_public(&self) -> (r: bool)
        ensures
            r == is_public(*self),
    {
        match self {
            IpAddr::V4(v) => {
                let a: u32 = *v / 0x100_0000;
                let b: u32 = (*v / 0x1_0000) % 0x100;
                *v != 0 && a != 127 && a != 10 && !(a == 169 && b == 254) && !(a == 172 && 16 <= b
                    && b < 32) && !(a == 192 && b == 168)
            },
            IpAddr::V6(w) => {
                let first: u128 = w.bits / 0x1_0000_0000_0000_0000_0000_0000_0000;
                w.bits != 0 && w.bits != 1 && !(0xfe80 <= first && first < 0xfec0) && !(0xfc00
                    <= first && first < 0xfe00)
            },
        }
    }
}

/// Which IPv4 addresses cannot be dialled from anywhere: `0.0.0.0`, and those
/// of the loopback, the link-local and the three private ranges.
pub proof fn law_which_v4_addresses_are_public(v: u32)
    ensures
        is_public(IpAddr::V4(v)) <==> !(v == 0 || 0x0a00_0000 <= v <= 0x0aff_ffff || 0x7f00_0000 <= v
            <= 0x7fff_ffff || 0xa9fe_0000 <= v <= 0xa9fe_ffff || 0xac10_0000 <= v <= 0xac1f_ffff
            || 0xc0a8_0000 <= v <= 0xc0a8_ffff),
{
}

/// Which IPv6 addresses cannot be dialled from anywhere: `::` and `::1`, and
/// those of the link-local and the unique-local range.
pub proof fn law_which_v6_addresses_are_public(a: Ipv6Addr)
    ensures
        is_public(IpAddr::V6(a)) <==> !(a.bits <= 1
            || 0xfe80_0000_0000_0000_0000_0000_0000_0000 <= a.bits
            <= 0xfebf_ffff_ffff_ffff_ffff_ffff_ffff_ffff
            || 0xfc00_0000_0000_0000_0000_0000_0000_0000 <= a.bits
            <= 0xfdff_ffff_ffff_ffff_ffff_ffff_ffff_ffff),
{
}

/// What a text must look like to be a socket address: its last colon is followed
/// by a decimal number below 65536, the port, and preceded by an IPv4 address or
/// by something in brackets.
pub proof fn law_what_socket_addresses_look_like(s: Seq<char>)
    requires
        socket_value(s) is Some,
    ensures
        ({
            let a = socket_value(s)->0;
            let p = last_at(s, ':');
            let digits = s.subrange(p + 1, s.len() as int);
            &&& 0 <= p < s.len()
            &&& s[p] == ':'
            &&& is_number(digits, 10)
            &&& number(digits, 10) == a.port
            &&& match a.ip {
                IpAddr::V4(v) => ipv4_value(s.take(p)) == Some(v as int) && a.scope_id == 0,
                IpAddr::V6(w) => {
                    &&& p >= 2
                    &&& s[0] == '['
                    &&& s[p - 1] == ']'
                    &&& ipv6_value(s.subrange(1, p - 1)) == Some(w) && a.scope_id == 0 || first_at(
                        s.subrange(1, p - 1),
                        '%',
                        0,
                    ) >= 0
                },
            }
        }),
{
    lemma_last_at(s, ':');
    let p = last_at(s, ':');
    lemma_number_nonneg(s.subrange(p + 1, s.len() as int), 10);
    let host = s.take(p);
    if let Some(v) = ipv4_value(host) {
        law_dotted_addresses_have_one_text(host, v);
    } else {
        assert(host.subrange(1, host.len() - 1) =~= s.subrange(1, p - 1));
    }
}

/// A socket address that is written out and read back is the same one. Only an
/// IPv6 address has a scope.
pub proof fn law_socket_addresses_round_trip(a: SocketAddr)
    requires
        a.ip is V4 ==> a.scope_id == 0,
    ensures
        socket_value(socket_text(a)) == Some(a),
        socket_text(a) == host_text(a.ip, a.scope_id as int) + seq![':'] + decimal(a.port as int),
{
    let host = host_text(a.ip, a.scope_id as int);
    let d = decimal(a.port as int);
    let whole = host + seq![':'] + d;
    lemma_number_of_numeral(a.port as nat, 10);
    lemma_numeral_chars(a.port as nat, 10);
    assert(lacks(d, ':'));
    lemma_last_at_found(host, d, ':');
    assert(whole.take(host.len() as int) =~= host);
    assert(whole.subrange(host.len() as int + 1, whole.len() as int) =~= d);
    match a.ip {
        IpAddr::V4(v) => {
            lemma_ipv4_round_trip(v as int);
        },
        IpAddr::V6(w) => {
            if let Some(v) = ipv4_value(host) {
                law_dotted_addresses_have_one_text(host, v);
                lemma_ipv4_round_trip(v);
                assert(host[0] == '[');
            }
            lemma_scoped_round_trip(w, a.scope_id);
            let inner = if a.scope_id == 0 {
                ipv6_text(w)
            } else {
                ipv6_text(w) + seq!['%'] + decimal(a.scope_id as int)
            };
            assert(host.subrange(1, host.len() - 1) =~= inner);
        },
    }
}

proof fn lemma_scoped_round_trip(w: Ipv6Addr, scope_id: u32)
    ensures
        scope_id == 0 ==> scoped_value(ipv6_text(w)) == Some((w, 0int)),
        scoped_value(ipv6_text(w) + seq!['%'] + decimal(scope_id as int)) == Some(
            (w, scope_id as int),
        ),
{
    let t = ipv6_text(w);
    let z = decimal(scope_id as int);
    lemma_ipv6_round_trip(w);
    lemma_ipv6_chars(w);
    lemma_first_at(t, '%', 0);
    let q = first_at(t, '%', 0);
    if q >= 0 {
        assert(digit_of(t[q]) < 16 || t[q] == ':' || t[q] == '.');
    }
    lemma_number_of_numeral(scope_id as nat, 10);
    let u = t + seq!['%'] + z;
    lemma_first_at(u, '%', 0);
    let r = first_at(u, '%', 0);
    assert(u[t.len() as int] == '%');
    if 0 <= r < t.len() {
        assert(u[r] == t[r]);
        assert(digit_of(t[r]) < 16 || t[r] == ':' || t[r] == '.');
    }
    assert(r == t.len());
    assert(u.take(r) =~= t);
    assert(u.subrange(r + 1, u.len() as int) =~= z);
}

/// An endpoint that is made of an address and a port is read as those.
pub proof fn law_endpoints_round_trip(ip: IpAddr, port: u16)
    ensures
        socket_value(host_text(ip, 0) + seq![':'] + decimal(port as int)) == Some(
            SocketAddr { ip, port, scope_id: 0 },
        ),
{
    law_socket_addresses_round_trip(SocketAddr { ip, port, scope_id: 0 });
}

/// What is read as an unsigned decimal: digits with perhaps a plus sign before
/// them, up to the greatest that is asked for.
pub proof fn law_what_unsigned_decimals_are(n: nat, max: int, s: Seq<char>)
    requires
        n <= max,
    ensures
        unsigned_value(decimal(n as int), max) == Some(n as int),
        unsigned_value(seq!['+'] + decimal(n as int), max) == Some(n as int),
        unsigned_value(s, max) matches Some(v) ==> v <= max && ((is_number(s, 10) && number(s, 10)
            == v) || (s.len() > 1 && s[0] == '+' && is_number(s.skip(1), 10) && number(
            s.skip(1),
            10,
        ) == v)),
{
    let d = decimal(n as int);
    let p = seq!['+'] + d;
    lemma_number_of_numeral(n, 10);
    assert(digit_of(d[0]) < 10);
    assert(p.subrange(1, p.len() as int) =~= d);
    if s.len() > 1 && s[0] == '+' {
        assert(s.subrange(1, s.len() as int) =~= s.skip(1));
    }
}

/// Any address with any port is read: an IPv4 address as it is, an IPv6 address,
/// however it is written, in brackets; then a colon and a decimal number below
/// 65536, whatever zeros it starts with.
pub proof fn law_addresses_with_ports_are_read(
    v: u32,
    text: Seq<char>,
    a: Ipv6Addr,
    digits: Seq<char>,
)
    requires
        ipv6_value(text) == Some(a),
        lacks(text, '%'),
        is_number(digits, 10),
        number(digits, 10) <= 65535,
    ensures
        socket_value(ipv4_text(v as int) + seq![':'] + digits) == Some(
            SocketAddr { ip: IpAddr::V4(v), port: number(digits, 10) as u16, scope_id: 0 },
        ),
        socket_value(seq!['['] + text + seq![']'] + seq![':'] + digits) == Some(
            SocketAddr { ip: IpAddr::V6(a), port: number(digits, 10) as u16, scope_id: 0 },
        ),
{
    lemma_number_nonneg(digits, 10);
    assert(lacks(digits, ':')) by {
        assert forall|i: int| 0 <= i < digits.len() implies #[trigger] digits[i] != ':' by {
            assert(digit_of(digits[i]) < 10);
        }
    }
    let four = ipv4_text(v as int);
    lemma_ipv4_round_trip(v as int);
    lemma_last_at_found(four, digits, ':');
    let x = four + seq![':'] + digits;
    assert(x.take(four.len() as int) =~= four);
    assert(x.subrange(four.len() as int + 1, x.len() as int) =~= digits);
    let six = seq!['['] + text + seq![']'];
    lemma_last_at_found(six, digits, ':');
    let y = six + seq![':'] + digits;
    assert(y.take(six.len() as int) =~= six);
    assert(y.subrange(six.len() as int + 1, y.len() as int) =~= digits);
    assert(six.subrange(1, six.len() - 1) =~= text);
    lemma_first_at(text, '%', 0);
    if let Some(w) = ipv4_value(six) {
        law_dotted_addresses_have_one_text(six, w);
        lemma_ipv4_round_trip(w);
        assert(six[0] == '[');
    }
}

} // verus!
