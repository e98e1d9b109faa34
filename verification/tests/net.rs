//! Addresses, endpoints and the pairs that punch holes.

use tabbify_mesh::bindings::encoding::decode_base64;
use tabbify_mesh::clock::{now_unix_micros, Duration, Instant};
use tabbify_mesh::net::addr::Ipv6Addr;
use tabbify_mesh::net::socket::SocketAddr;
use tabbify_mesh::policy::{AclRule, Policy};
use tabbify_mesh::text::trim;
use tabbify_mesh::traversal::holepunch::{canonical_pair, DirectPairFlags, PunchTracker};
use tabbify_mesh::traversal::reflexive::{is_sticky_explicit_endpoint, resolve_listen_endpoint};

#[test]
fn addresses_are_read_in_every_form_and_written_in_the_shortest() {
    let same = [
        "::",
        "::1",
        "1::",
        "fd5a:1f00::1",
        "fd5a:1f00:0:1::1",
        "1:2:3:4:5:6:7:8",
        "1:0:0:2::3",
        "0:0:1::",
        "::ffff:1.2.3.4",
        "1:2:3:4:5:6:7:0",
    ];
    for t in same {
        let a = Ipv6Addr::parse(t).unwrap_or_else(|| panic!("{t} is an address"));
        assert_eq!(a.to_text(), t);
    }
    let other = [
        ("1:0:0:2:0:0:0:3", "1:0:0:2::3"),
        ("FD5A::ABCD", "fd5a::abcd"),
        ("64:ff9b::192.0.2.33", "64:ff9b::c000:221"),
        ("1:2:3:4:5:6:7::", "1:2:3:4:5:6:7:0"),
        ("fd5a:1f00:0001:0000:0000:0000:0000:0001", "fd5a:1f00:1::1"),
        ("::1.2.3.4", "::102:304"),
    ];
    for (t, written) in other {
        let a = Ipv6Addr::parse(t).unwrap_or_else(|| panic!("{t} is an address"));
        assert_eq!(a.to_text(), written, "{t}");
    }
    let none = [
        "00001::",
        "1::2::3",
        "1:2:3:4:5:6:7",
        "1:2:3:4:5:6:7:8:9",
        "1:2:3:4:5:6:7:8::",
        "::1.2.3.4.5",
        "::1.2.3.04",
        "::256.1.1.1",
        "",
        ":",
        ":::",
        "g::",
        " ::1",
        "fe80::1%1",
    ];
    for t in none {
        assert_eq!(Ipv6Addr::parse(t), None, "{t}");
    }
    let a = Ipv6Addr::parse("fd5a:1f00::1").unwrap();
    assert_eq!(a.segments(), [0xfd5a, 0x1f00, 0, 0, 0, 0, 0, 1]);
    assert_eq!(a.octets()[..4], [0xfd, 0x5a, 0x1f, 0]);
    assert_eq!(a, Ipv6Addr::new(0xfd5a, 0x1f00, 0, 0, 0, 0, 0, 1));
}

#[test]
fn socket_addresses_are_read_and_written() {
    for t in ["1.2.3.4:5", "127.0.0.1:65535", "[::1]:80", "[fe80::1%3]:80"] {
        let a = SocketAddr::parse(t).unwrap_or_else(|| panic!("{t} is a socket address"));
        assert_eq!(a.to_text(), t);
    }
    let none = [
        "127.0.0.1:65536",
        "127.0.0.1:",
        "127.0.0.1",
        "01.2.3.4:5",
        "[fe80::1%x]:80",
        "[::1]80",
        "::1:80",
        "host:80",
        "",
    ];
    for t in none {
        assert_eq!(SocketAddr::parse(t), None, "{t}");
    }
}

#[test]
fn public_addresses_are_told_from_private_ones() {
    let public = ["203.0.113.7:1", "8.8.8.8:1", "[2001:db8::1]:1"];
    let private = [
        "127.0.0.1:1",
        "10.0.0.1:1",
        "172.16.0.1:1",
        "192.168.1.1:1",
        "169.254.1.1:1",
        "0.0.0.0:1",
        "[::1]:1",
        "[::]:1",
        "[fd5a::1]:1",
        "[fe80::1]:1",
    ];
    for t in public {
        assert!(SocketAddr::parse(t).unwrap().ip.is_public(), "{t}");
    }
    for t in private {
        assert!(!SocketAddr::parse(t).unwrap().ip.is_public(), "{t}");
    }
}

#[test]
fn endpoints_are_resolved_behind_a_nat() {
    let seen = SocketAddr::parse("203.0.113.7:34812");
    let resolve = |reported: Option<&str>, relay_only: bool| {
        let r = resolve_listen_endpoint(
            &reported.map(str::to_owned),
            seen,
            Some(51820),
            relay_only,
        );
        (r.endpoint, r.reflexive)
    };
    assert_eq!(resolve(None, false), (Some("203.0.113.7:51820".to_owned()), true));
    assert_eq!(
        resolve(Some("198.51.100.50:51820"), false),
        (Some("198.51.100.50:51820".to_owned()), false)
    );
    assert_eq!(
        resolve(Some("relay.example:51820"), false),
        (Some("relay.example:51820".to_owned()), false)
    );
    assert_eq!(resolve(Some("198.51.100.50:51820"), true), (None, false));
    assert!(is_sticky_explicit_endpoint("198.51.100.50:51820"));
    assert!(!is_sticky_explicit_endpoint("127.0.0.1:51820"));
}

#[test]
fn pairs_have_no_direction() {
    assert_eq!(canonical_pair(2, 1), (1, 2));
    assert_eq!(canonical_pair(1, 2), (1, 2));
    let mut t = PunchTracker::new();
    assert!(t.claim(canonical_pair(2, 1), 10));
    assert!(!t.claim(canonical_pair(1, 2), 11));
    assert!(t.claim((1, 3), 20));
    assert!(t.contains((1, 2)));
    assert_eq!(t.len(), 2);
    assert_eq!(t.reap_older_than(11), 1);
    assert!(!t.contains((1, 2)));
    t.remove_peer(3);
    assert!(t.is_empty());

    let mut f = DirectPairFlags::new();
    f.set_direct(5, 4, true);
    assert!(f.is_direct(4, 5));
    f.set_direct(4, 5, false);
    assert!(!f.is_direct(5, 4));
}

#[test]
fn clocks_saturate() {
    assert_eq!(Duration::from_secs(2), Duration::from_millis(2_000));
    let early = Instant { nanos: 5 };
    let late = Instant { nanos: 9 };
    assert_eq!(late.duration_since(early), Duration { nanos: 4 });
    assert_eq!(early.duration_since(late), Duration { nanos: 0 });
    assert_eq!(now_unix_micros(12), 12);
    assert_eq!(now_unix_micros(u128::MAX), i64::MAX);
}

#[test]
fn tags_match_by_name_or_by_beginning() {
    let owned = |t: &[&str]| t.iter().map(|s| (*s).to_owned()).collect::<Vec<String>>();
    let p = Policy::new(vec![AclRule::accept(&owned(&["tag:user-*"]), &owned(&["tag:svc"]))]);
    assert!(p.can_see(&owned(&["tag:user-a"]), &owned(&["tag:svc"])));
    assert!(p.can_see(&owned(&["tag:svc"]), &owned(&["x", "tag:user-"])));
    assert!(!p.can_see(&owned(&["tag:user"]), &owned(&["tag:svc"])));
    assert!(!p.can_see(&owned(&["tag:user-a"]), &owned(&["tag:svc2"])));
    assert!(!p.can_see(&owned(&["tag:svc"]), &owned(&["tag:svc"])));
    assert!(!Policy::empty().can_see(&owned(&["*"]), &owned(&["*"])));
    assert!(Policy::default().rules.is_empty());
    let open = Policy::new(vec![AclRule::accept(&owned(&["*"]), &owned(&["*"]))]);
    assert!(open.can_see(&owned(&[]), &owned(&[])));
    assert!(open.can_see(&owned(&["x"]), &owned(&[])));
    let some = Policy::new(vec![AclRule::accept(&owned(&["tag:*"]), &owned(&["*"]))]);
    assert!(!some.can_see(&owned(&[]), &owned(&[])));
}

#[test]
fn base64_is_the_padded_standard_form() {
    assert_eq!(decode_base64("aGk="), Ok(b"hi".to_vec()));
    assert_eq!(decode_base64(""), Ok(vec![]));
    for bad in ["aGk", "aGk=\n", "aGl=", "_-A=", "===="] {
        assert!(decode_base64(bad).is_err(), "{bad}");
    }
}

#[test]
fn white_space_is_trimmed_as_std_does() {
    for t in ["", "  ", " a b ", "\t\na\u{a0}", "\u{3000}x\u{2009}", "a"] {
        assert_eq!(trim(t), t.trim(), "{t:?}");
    }
}
