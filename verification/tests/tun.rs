//! Interfaces of the system.

use tabbify_mesh::net::addr::Ipv6Addr;
use tabbify_mesh::tun::device::{OsFailure, PacketErrorKind, TunError, TunOptions};
use tabbify_mesh::tun::linux::{
    assign_ula, assign_ula_args, assigned_name, bring_up, bring_up_args, check_name,
    open_tun_dev_error, request_field, tunsetiff_error, CommandRun, LinuxStage,
};
use tabbify_mesh::tun::macos::{
    bytes_to_read, connect_sockaddr_ctl_error, get_assigned_ifname, open_kctl_socket_error,
    parse_requested_unit, payload_written, read_packet, write_packet, MacOsStage,
};
use tabbify_mesh::tun::unsupported;

fn ula() -> Ipv6Addr {
    Ipv6Addr::parse("fd5a:1f00:0001::1").unwrap()
}

#[test]
fn tun_options_round_trips_fields() {
    let opts = TunOptions { name: "utun7".into(), ula: ula(), mtu: 1420 };
    assert_eq!(opts.name, "utun7");
    assert_eq!(opts.mtu, 1420);
}

#[test]
fn open_rejects_oversized_name() {
    let err = check_name(&"wg-tabbify-too-".repeat(2)).unwrap_err();
    assert!(matches!(err, TunError::InvalidName(_)), "expected InvalidName, got {err:?}");
    assert!(check_name("123456789012345").is_ok());
    let err = check_name("1234567890123456").unwrap_err();
    assert_eq!(
        err.to_text(),
        "invalid name: linux interface names must be <= 15 bytes (got 16 = \"1234567890123456\")"
    );
}

#[test]
fn open_rejects_nul_in_name() {
    let err = check_name("wg\0bad").unwrap_err();
    assert!(matches!(err, TunError::InvalidName(_)), "expected InvalidName, got {err:?}");
    assert!(check_name("wg/bad").is_err());
    assert!(check_name("").is_ok());
}

#[test]
fn open_impl_returns_invalid_name_for_non_utun_prefix() {
    let err = parse_requested_unit("wg0").unwrap_err();
    assert!(matches!(err, TunError::InvalidName(_)), "expected InvalidName, got {err:?}");
}

#[test]
fn open_impl_rejects_non_numeric_utun_suffix() {
    let err = parse_requested_unit("utunFOO").unwrap_err();
    assert!(matches!(err, TunError::InvalidName(_)), "expected InvalidName, got {err:?}");
}

#[test]
fn open_impl_accepts_empty_name() {
    assert_eq!(parse_requested_unit("").unwrap(), 0);
}

#[test]
fn parse_requested_unit_table() {
    assert_eq!(parse_requested_unit("").unwrap(), 0, "empty -> auto");
    assert_eq!(parse_requested_unit("utun").unwrap(), 0, "no suffix -> auto");
    assert_eq!(parse_requested_unit("utun0").unwrap(), 1, "utun0 -> sc_unit=1");
    assert_eq!(parse_requested_unit("utun9").unwrap(), 10, "utun9 -> sc_unit=10");
    assert!(parse_requested_unit("wg0").is_err());
    assert!(parse_requested_unit("utun-1").is_err());
    assert!(parse_requested_unit("utunFOO").is_err());
    let big = format!("utun{}", u32::MAX);
    assert!(parse_requested_unit(&big).is_err());
}

#[test]
fn the_largest_unit_is_one_below_the_maximum() {
    let name = format!("utun{}", u32::MAX - 1);
    assert_eq!(parse_requested_unit(&name).unwrap(), u32::MAX);
    assert!(parse_requested_unit("utun4294967296").is_err());
}

#[test]
fn open_without_caps_fails_cleanly() {
    for failure in [OsFailure::NotPermitted, OsFailure::AccessDenied] {
        assert!(matches!(open_tun_dev_error(failure, "no"), TunError::PermissionDenied(_)));
    }
    assert!(matches!(open_tun_dev_error(OsFailure::NotFound, "no"), TunError::Io(_)));
    assert!(matches!(open_tun_dev_error(OsFailure::Other, "no"), TunError::Io(_)));
    assert_eq!(
        open_tun_dev_error(OsFailure::NotPermitted, "EPERM").to_text(),
        "permission denied: open(/dev/net/tun) failed: EPERM (need CAP_NET_ADMIN or root)"
    );
    assert!(matches!(
        tunsetiff_error(OsFailure::NotPermitted, "no", "wg0"),
        TunError::PermissionDenied(_)
    ));
    assert!(matches!(tunsetiff_error(OsFailure::Busy, "no", "wg0"), TunError::Io(_)));
}

#[test]
fn open_impl_returns_permission_denied_when_not_root() {
    assert_eq!(parse_requested_unit("utun99").unwrap(), 100);
    let err = open_kctl_socket_error(OsFailure::NotPermitted, "EPERM");
    assert!(matches!(err, TunError::PermissionDenied(_)), "got {err:?}");
    assert!(matches!(
        connect_sockaddr_ctl_error(OsFailure::Busy, "EBUSY", 100, "utun99"),
        TunError::DeviceBusy(_)
    ));
}

#[test]
fn names_go_into_a_zeroed_field_and_come_back() {
    let field = request_field("wg0");
    assert_eq!(field.len(), 16);
    assert_eq!(field[..4], *b"wg0\0");
    assert_eq!(assigned_name(&field).unwrap(), "wg0");
    let err = assigned_name(&[0xff, 0]).unwrap_err();
    let std_text = String::from_utf8(vec![0xff]).unwrap_err().to_string();
    assert_eq!(err.to_text(), format!("io: kernel returned non-UTF8 interface name: {std_text}"));
    assert_eq!(get_assigned_ifname(b"utun3\0\0").unwrap(), "utun3");
    assert!(get_assigned_ifname(b"utun3").is_err());
}

#[test]
fn the_interface_is_set_up_with_ip() {
    assert_eq!(
        assign_ula_args("wg0", ula()),
        vec!["-6", "addr", "add", "fd5a:1f00:1::1/64", "dev", "wg0"]
    );
    assert_eq!(
        bring_up_args("wg0", 1420),
        vec!["link", "set", "dev", "wg0", "mtu", "1420", "up"]
    );
    let ran = |success: bool, stderr: &str| CommandRun::Exited {
        success,
        status: "exit status: 2".into(),
        stderr: stderr.into(),
    };
    assert!(assign_ula("wg0", ula(), &ran(true, "")).is_ok());
    assert!(assign_ula("wg0", ula(), &ran(false, "RTNETLINK answers: File exists")).is_ok());
    assert!(assign_ula("wg0", ula(), &ran(false, "no")).is_err());
    assert!(bring_up("wg0", 1420, &ran(true, "")).is_ok());
    assert!(bring_up("wg0", 1420, &ran(false, "File exists")).is_err());
    let err = bring_up("wg0", 1420, &CommandRun::NotStarted("gone".into())).unwrap_err();
    assert_eq!(
        err.to_text(),
        "io: ip link set failed for wg0: spawn `ip`: gone (install iproute2)"
    );
}

#[test]
fn utun_packets_have_the_address_family_in_front() {
    let framed = write_packet(b"packet").unwrap();
    assert_eq!(framed, b"\0\0\0\x1epacket");
    assert_eq!(read_packet(&framed, 6).unwrap(), b"packet");
    let small = read_packet(&framed, 5).unwrap_err();
    assert_eq!(small.kind, PacketErrorKind::InvalidInput);
    assert_eq!(small.text, "buffer too small for utun frame: need 6, got 5");
    let short = read_packet(b"\0\0\0", 100).unwrap_err();
    assert_eq!(short.kind, PacketErrorKind::Other);
    assert_eq!(short.text, "utun read returned 3 bytes, expected at least 4 (AF header)");
    let empty = write_packet(b"").unwrap_err();
    assert_eq!(empty.kind, PacketErrorKind::InvalidInput);
    assert_eq!(empty.text, "utun write_packet got empty buffer");
    assert!(write_packet(&vec![0; 9_212]).is_ok());
    let long = write_packet(&vec![0; 9_213]).unwrap_err();
    assert_eq!(long.kind, PacketErrorKind::InvalidInput);
    assert_eq!(payload_written(10), 6);
    assert_eq!(payload_written(3), 0);
    assert_eq!(bytes_to_read(1_500), 1_504);
    assert_eq!(bytes_to_read(usize::MAX), 9_216);
}

#[test]
fn stages_follow_each_other_until_one_fails() {
    let mut l = LinuxStage::CheckName;
    let mut steps = 0;
    while l != LinuxStage::Opened {
        assert_eq!(l.next(false), LinuxStage::Failed);
        l = l.next(true);
        steps += 1;
    }
    assert!(steps > 4);
    let mut m = MacOsStage::ParseUnit;
    let mut steps = 0;
    while m != MacOsStage::Opened {
        assert_eq!(m.next(false), MacOsStage::Failed);
        m = m.next(true);
        steps += 1;
    }
    assert_eq!(steps, 7);
    assert_eq!(MacOsStage::Failed.next(true), MacOsStage::Failed);
}

#[test]
fn other_systems_have_none() {
    let opts = TunOptions { name: String::new(), ula: ula(), mtu: 1420 };
    let err = unsupported::open_impl(opts).unwrap_err();
    assert!(matches!(err, TunError::UnsupportedPlatform));
    assert_eq!(err.to_text(), "tun unsupported on this platform");
}
