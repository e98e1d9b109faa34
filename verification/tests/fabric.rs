//! Messages between nodes.

use std::collections::HashMap;
use tabbify_mesh::bindings::tunnel::TunnelOutcome;
use tabbify_mesh::clock::Duration;
use tabbify_mesh::fabric::error::{FabricError, MeshFabric, MeshFabricMutators, SendPlan};
use tabbify_mesh::fabric::in_process::InProcessFabric;
use tabbify_mesh::fabric::loopback::{
    encode_frame, on_body, on_length, read_body, read_length, FrameStep, Inbound, LoopbackFabric,
    LoopbackPeerSpec, StreamRead, WriteNext, WriteStage, HEADER_LEN, MAX_FRAME_BODY,
};
use tabbify_mesh::fabric::packet::{build_ipv6_packet, parse_ipv6_packet, IPV6_HEADER_LEN};
use tabbify_mesh::fabric::ula::{Ula, UlaPrefix};
use tabbify_mesh::fabric::wireguard::inbound::WireAction;
use tabbify_mesh::fabric::wireguard::keys::{
    generate_keypair, key_from, WireGuardKeypair, WireGuardPeerSpec,
};
use tabbify_mesh::fabric::wireguard::transport::{
    on_encapsulated, on_handshake, on_tick, WaitStep, WireGuardFabric, MAX_APP_PAYLOAD,
};
use tabbify_mesh::net::addr::Ipv6Addr;
use tabbify_mesh::net::socket::SocketAddr;

fn ula(s: &str) -> Ipv6Addr {
    Ipv6Addr::parse(s).expect("address")
}

fn addr(s: &str) -> SocketAddr {
    SocketAddr::parse(s).expect("socket address")
}

/// The messages that reached each endpoint.
type Inboxes = HashMap<Ipv6Addr, Vec<Vec<u8>>>;

fn send_locally<F: MeshFabric>(
    f: &mut F,
    dst: Ipv6Addr,
    msg: &[u8],
    inboxes: &mut Inboxes,
) -> Result<(), FabricError> {
    let msg = msg.to_vec();
    match f.send(dst, &msg)? {
        SendPlan::Local(to) => inboxes.entry(to).or_default().push(msg),
        other => panic!("expected a local delivery, got {other:?}"),
    }
    Ok(())
}

#[test]
fn register_send_recv_roundtrip() {
    let mut fabric = InProcessFabric::new();
    let mut inboxes = Inboxes::new();
    let ula_a = ula("fd5a:1f00:0001:0000:0000:0000:0000:0001");
    let ula_b = ula("fd5a:1f00:0001:0000:0000:0000:0000:0002");
    fabric.register_local(ula_a, "endpoint-a".into()).unwrap();
    fabric.register_local(ula_b, "endpoint-b".into()).unwrap();

    send_locally(&mut fabric, ula_b, b"hello from a", &mut inboxes).unwrap();
    send_locally(&mut fabric, ula_a, b"hello from b", &mut inboxes).unwrap();

    assert_eq!(inboxes[&ula_b], vec![b"hello from a".to_vec()]);
    assert_eq!(inboxes[&ula_a], vec![b"hello from b".to_vec()]);
}

#[test]
fn send_to_unknown_ula_returns_no_route() {
    let mut fabric = InProcessFabric::new();
    let ula_ghost = ula("fd5a:1f00:dead:dead:dead:dead:dead:dead");
    let err = fabric.send(ula_ghost, &b"nope".to_vec()).unwrap_err();
    assert!(matches!(err, FabricError::NoRoute(_)), "got: {err:?}");
    assert_eq!(err.to_text(), "no route to fd5a:1f00:dead:dead:dead:dead:dead:dead");
}

#[test]
fn unregister_removes_route() {
    let mut fabric = InProcessFabric::new();
    let a = ula("fd5a:1f00:0001:0000:0000:0000:0000:0010");
    fabric.register_local(a, "endpoint".into()).unwrap();
    assert!(matches!(fabric.send(a, &b"ok".to_vec()), Ok(SendPlan::Local(to)) if to == a));
    fabric.unregister_local(a).unwrap();
    let err = fabric.send(a, &b"after-unreg".to_vec()).unwrap_err();
    assert!(matches!(err, FabricError::NoRoute(_)));
}

#[test]
fn routing_snapshot_lists_local_endpoints() {
    let mut fabric = InProcessFabric::new();
    let ula1 = ula("fd5a:1f00:0001:0000:0000:0000:0000:0001");
    let ula2 = ula("fd5a:1f00:0001:0000:0000:0000:0000:0002");
    fabric.register_local(ula1, "ep-1".into()).unwrap();
    fabric.register_local(ula2, "ep-2".into()).unwrap();
    fabric.add_remote_route(ula("fd5a::9"), "elsewhere".into());

    let snap = fabric.routing_snapshot();
    assert_eq!(snap.local_endpoints.len(), 2);
    assert!(snap.local_endpoints.iter().any(|(a, id)| *a == ula1 && id == "ep-1"));
    assert!(snap.local_endpoints.iter().any(|(a, id)| *a == ula2 && id == "ep-2"));
    assert!(snap.remote_routes.is_empty(), "InProcessFabric never has remote routes");
}

fn app(s: &str) -> u128 {
    uuid::Uuid::parse_str(s).unwrap().as_u128()
}

#[test]
fn ula_from_uuid_components_is_deterministic() {
    let prefix = UlaPrefix::new(0x00, 1).unwrap();
    let app_uuid = app("019e2b78-78b8-7821-a416-46271c29632a");
    let a = Ula::from_components(&prefix, app_uuid, 1);
    let b = Ula::from_components(&prefix, app_uuid, 1);
    assert_eq!(a.address(), b.address(), "deterministic for same inputs");
    let c = Ula::from_components(&prefix, app_uuid, 2);
    assert_ne!(a.address(), c.address(), "different instance => different addr");
}

#[test]
fn ula_address_encodes_prefix_magic_and_tenant() {
    let prefix = UlaPrefix::new(0x00, 42).unwrap();
    let app_uuid = app("019e2b78-78b8-7821-a416-46271c29632a");
    let u = Ula::from_components(&prefix, app_uuid, 1);
    let segs = u.address().segments();
    assert_eq!(segs[0], 0xfd5a, "ULA prefix high");
    assert_eq!(segs[1], 0x1f00, "ULA magic byte (0x00)");
    assert_eq!(segs[2], 42, "tenant id");
    assert_eq!(segs[7], 1, "instance id in low 16 bits");
    assert_eq!((prefix.magic(), prefix.tenant()), (0, 42));
}

#[test]
fn ula_address_encodes_full_64_bit_app_uuid_prefix() {
    let prefix = UlaPrefix::new(0x00, 1).unwrap();
    let app_uuid = app("019e2b78-78b8-7821-a416-46271c29632a");
    let u = Ula::from_components(&prefix, app_uuid, 1);
    let segs = u.address().segments();
    assert_eq!(segs[3], 0x019e, "app64 byte 0..1");
    assert_eq!(segs[4], 0x2b78, "app64 byte 2..3");
    assert_eq!(segs[5], 0x78b8, "app64 byte 4..5");
    assert_eq!(segs[6], 0x7821, "app64 byte 6..7");
}

#[test]
fn ula_address_distinguishes_uuids_differing_only_in_byte_4_to_7() {
    let prefix = UlaPrefix::new(0x00, 1).unwrap();
    let uuid_a = app("019e2b78-78b8-7821-a416-46271c29632a");
    let uuid_b = app("019e2b78-aaaa-7821-a416-46271c29632a");
    let ula_a = Ula::from_components(&prefix, uuid_a, 1);
    let ula_b = Ula::from_components(&prefix, uuid_b, 1);
    assert_ne!(ula_a.address(), ula_b.address());
    let segs_a = ula_a.address().segments();
    let segs_b = ula_b.address().segments();
    assert_eq!(segs_a[3], segs_b[3], "byte 0..1 still identical");
    assert_eq!(segs_a[4], segs_b[4], "byte 2..3 still identical");
    assert_ne!(segs_a[5], segs_b[5], "byte 4..5 diverges");
}

#[test]
fn ula_address_includes_magic_byte_in_segment_1() {
    let prefix = UlaPrefix::new(0xab, 7).unwrap();
    let app_uuid = app("019e2b78-78b8-7821-a416-46271c29632a");
    let u = Ula::from_components(&prefix, app_uuid, 1);
    let segs = u.address().segments();
    assert_eq!(segs[1], 0x1fab, "magic byte 0xab combined into segment 1");
    assert_eq!(segs[2], 7);
}

fn fresh_fabric(port: u16, node_id: &str) -> LoopbackFabric {
    LoopbackFabric::bind(addr(&format!("127.0.0.1:{port}")), node_id.into())
}

/// Hands the bytes of a connection to the node at the other end; gives what is
/// delivered there.
fn arrive(to: &LoopbackFabric, bytes: &[u8]) -> Option<(Ipv6Addr, Vec<u8>)> {
    let n = match on_length(StreamRead::Bytes(bytes[..8].to_vec())) {
        FrameStep::ReadBody(n) => n,
        other => panic!("expected a length, got {other:?}"),
    };
    assert_eq!(n, bytes.len() - 8);
    match to.handle_connection(on_body(StreamRead::Bytes(bytes[8..].to_vec()))) {
        Inbound::Deliver { dst, payload } => Some((dst, payload)),
        Inbound::Continue => None,
        Inbound::Close => panic!("the frame was refused"),
    }
}

fn stream(f: &mut LoopbackFabric, dst: Ipv6Addr, msg: &[u8]) -> (String, SocketAddr, Vec<u8>) {
    match f.send(dst, &msg.to_vec()).unwrap() {
        SendPlan::Stream { node_id, addr, bytes } => (node_id, addr, bytes),
        other => panic!("expected a stream, got {other:?}"),
    }
}

#[test]
fn local_endpoint_delivery_within_one_node() {
    let mut fabric = fresh_fabric(4000, "alpha");
    let mut inboxes = Inboxes::new();
    let a = ula("fd5a:1f00:0001:0000:0000:0000:0000:0001");
    fabric.register_local(a, "ep".into()).unwrap();
    send_locally(&mut fabric, a, b"hi", &mut inboxes).unwrap();
    assert_eq!(inboxes[&a], vec![b"hi".to_vec()]);
}

#[test]
fn cross_node_delivery_via_tcp() {
    let mut alpha = fresh_fabric(4001, "alpha");
    let mut beta = fresh_fabric(4002, "beta");
    alpha.add_peer(LoopbackPeerSpec { node_id: "beta".into(), addr: beta.local_addr() });
    beta.add_peer(LoopbackPeerSpec { node_id: "alpha".into(), addr: alpha.local_addr() });
    let ula_b = ula("fd5a:1f00:0001:0000:0000:0000:0000:0002");
    beta.register_local(ula_b, "ep-b".into()).unwrap();
    alpha.add_remote_route(ula_b, "beta".into());

    let (node, to, bytes) = stream(&mut alpha, ula_b, b"hello from alpha");
    assert_eq!(node, "beta");
    assert_eq!(to, beta.local_addr());
    assert_eq!(arrive(&beta, &bytes), Some((ula_b, b"hello from alpha".to_vec())));
    assert_eq!(beta.local_node_id(), "beta");
}

#[test]
fn loopback_unknown_ula_returns_no_route() {
    let mut alpha = fresh_fabric(4003, "alpha");
    let ghost = ula("fd5a:1f00:dead::1");
    let err = alpha.send(ghost, &b"nope".to_vec()).unwrap_err();
    assert!(matches!(err, FabricError::NoRoute(_)));
}

#[test]
fn cross_node_reconnects_after_peer_restart() {
    let mut alpha = fresh_fabric(4004, "alpha");
    let ula_b = ula("fd5a:1f00:0001:0000:0000:0000:0000:0003");
    let mut beta_v1 = fresh_fabric(4005, "beta");
    alpha.add_peer(LoopbackPeerSpec { node_id: "beta".into(), addr: beta_v1.local_addr() });
    beta_v1.register_local(ula_b, "ep-b".into()).unwrap();
    alpha.add_remote_route(ula_b, "beta".into());
    let (_, to, bytes) = stream(&mut alpha, ula_b, b"first");
    assert_eq!(to, beta_v1.local_addr());
    assert_eq!(arrive(&beta_v1, &bytes).unwrap().1, b"first");

    let mut beta_v2 = fresh_fabric(4006, "beta");
    beta_v2.register_local(ula_b, "ep-b".into()).unwrap();
    alpha.add_peer(LoopbackPeerSpec { node_id: "beta".into(), addr: beta_v2.local_addr() });
    let (_, to, bytes) = stream(&mut alpha, ula_b, b"second");
    assert_eq!(to, beta_v2.local_addr());
    assert_eq!(arrive(&beta_v2, &bytes).unwrap().1, b"second");
}

#[test]
fn routing_snapshot_includes_remote_routes() {
    let mut alpha = fresh_fabric(4007, "alpha");
    let ula_local = ula("fd5a:1f00:0001:0000:0000:0000:0000:0010");
    let ula_remote = ula("fd5a:1f00:0001:0000:0000:0000:0000:0011");
    alpha.register_local(ula_local, "ep-local".into()).unwrap();
    alpha.add_remote_route(ula_remote, "beta".into());
    let snap = alpha.routing_snapshot();
    assert!(snap.local_endpoints.iter().any(|(a, id)| *a == ula_local && id == "ep-local"));
    assert!(snap.remote_routes.iter().any(|(a, node)| *a == ula_remote && node == "beta"));
    alpha.remove_remote_route(ula_remote);
    assert!(alpha.routing_snapshot().remote_routes.is_empty());
}

#[test]
fn oversized_payload_is_rejected_with_encoding_error() {
    let mut alpha = fresh_fabric(4008, "alpha");
    alpha.add_peer(LoopbackPeerSpec { node_id: "beta".into(), addr: addr("127.0.0.1:1") });
    let a = ula("fd5a:1f00:0001:0000:0000:0000:0000:0020");
    alpha.add_remote_route(a, "beta".into());
    let huge = vec![0u8; 4 * 1024 * 1024];
    let err = alpha.send(a, &huge).unwrap_err();
    assert!(matches!(err, FabricError::Encoding(_)), "got: {err:?}");
    assert_eq!(err.to_text(), "encoding: frame body 4194336 exceeds max 4194304");
    let most = vec![0u8; MAX_FRAME_BODY - HEADER_LEN];
    assert!(alpha.send(a, &most).is_ok());
}

#[test]
fn a_peer_without_an_address_is_an_error() {
    let mut alpha = fresh_fabric(4009, "alpha");
    let a = ula("fd5a::1");
    alpha.add_remote_route(a, "beta".into());
    let err = alpha.send(a, &vec![1]).unwrap_err();
    assert!(matches!(&err, FabricError::Transport(e) if e == "peer beta has no registered address"));
    alpha.add_peer(LoopbackPeerSpec { node_id: "beta".into(), addr: addr("127.0.0.1:1") });
    assert!(alpha.send(a, &vec![1]).is_ok());
    alpha.remove_peer("beta");
    assert!(alpha.send(a, &vec![1]).is_err());
}

#[test]
fn frames_are_laid_out_as_documented() {
    let dst = ula("fd5a:1f00:0001::2");
    let src = ula("fd5a:1f00:0001::1");
    let f = encode_frame(dst, src, b"hi").unwrap();
    assert_eq!(f[..8], [34, 0, 0, 0, 0, 0, 0, 0]);
    assert_eq!(f[8..24], [0xfd, 0x5a, 0x1f, 0, 0, 1, 0, 0, 0, 0, 0, 0, 0, 0, 0, 2]);
    assert_eq!(f[24..40], [0xfd, 0x5a, 0x1f, 0, 0, 1, 0, 0, 0, 0, 0, 0, 0, 0, 0, 1]);
    assert_eq!(f[40..], *b"hi");
    assert_eq!(read_length(&f[..8]), Ok(34));
    let body = read_body(&f[8..]);
    assert_eq!((body.dst, body.src, body.payload), (dst, src, b"hi".to_vec()));
}

#[test]
fn bad_lengths_are_refused() {
    assert_eq!(read_length(&31u64.to_le_bytes()), Err("body_len 31 < header 32".to_owned()));
    assert_eq!(read_length(&32u64.to_le_bytes()), Ok(32));
    assert_eq!(read_length(&4_194_304u64.to_le_bytes()), Ok(4_194_304));
    assert_eq!(
        read_length(&4_194_305u64.to_le_bytes()),
        Err("body_len 4194305 > max 4194304".to_owned())
    );
}

#[test]
fn connections_end_between_frames_or_break() {
    let alpha = fresh_fabric(4010, "alpha");
    assert!(matches!(on_length(StreamRead::Ended), FrameStep::Closed));
    assert!(matches!(on_body(StreamRead::Ended), FrameStep::Failed(e) if e == "early eof"));
    assert!(matches!(on_body(StreamRead::Failed("x".into())), FrameStep::Failed(e) if e == "x"));
    assert!(matches!(alpha.handle_connection(FrameStep::Closed), Inbound::Close));
    assert!(matches!(alpha.handle_connection(FrameStep::Failed("x".into())), Inbound::Close));
    let stray = encode_frame(ula("fd5a::7"), ula("::"), b"x").unwrap();
    assert_eq!(arrive(&alpha, &stray), None);
}

#[test]
fn a_frame_is_written_once_more_over_a_new_connection() {
    let to = addr("127.0.0.1:9");
    let stage = |s: WriteStage, e: Option<&str>| s.next(e.map(str::to_owned), "beta", to);
    assert!(matches!(stage(WriteStage::Connect, None), WriteNext::Stage(WriteStage::Write)));
    assert!(matches!(stage(WriteStage::Write, None), WriteNext::Written));
    assert!(matches!(
        stage(WriteStage::Write, Some("broken")),
        WriteNext::Stage(WriteStage::Reconnect)
    ));
    assert!(matches!(stage(WriteStage::Reconnect, None), WriteNext::Stage(WriteStage::Rewrite)));
    assert!(matches!(stage(WriteStage::Rewrite, None), WriteNext::Written));
    assert!(matches!(
        stage(WriteStage::Rewrite, Some("broken")),
        WriteNext::Failed(FabricError::Transport(e)) if e == "peer write: broken"
    ));
    assert!(matches!(
        stage(WriteStage::Connect, Some("refused")),
        WriteNext::Failed(FabricError::Transport(e)) if e == "connect beta (127.0.0.1:9): refused"
    ));
}

fn packet_round_trip() {
    let src = ula("fd5a:1f00:0001::1");
    let dst = ula("fd5a:1f00:0001::2");
    let payload = b"hello world";
    let packet = build_ipv6_packet(src, dst, payload).unwrap();
    let (parsed_src, parsed_dst, parsed_payload) = parse_ipv6_packet(&packet).unwrap();
    assert_eq!(parsed_src, src);
    assert_eq!(parsed_dst, dst);
    assert_eq!(parsed_payload, payload);
}

#[test]
fn tests_ipv6_packet_roundtrip_preserves_payload() {
    packet_round_trip();
}

#[test]
fn wireguard_ipv6_packet_roundtrip_preserves_payload() {
    packet_round_trip();
}

fn short_packet() {
    let err = parse_ipv6_packet(&[0u8; 10]).unwrap_err();
    assert!(matches!(err, FabricError::Encoding(_)));
}

#[test]
fn tests_ipv6_packet_rejects_short_input() {
    short_packet();
}

#[test]
fn wireguard_ipv6_packet_rejects_short_input() {
    short_packet();
}

fn wrong_version() {
    let mut bytes = vec![0u8; IPV6_HEADER_LEN];
    bytes[0] = 0x40;
    let err = parse_ipv6_packet(&bytes).unwrap_err();
    assert!(matches!(err, FabricError::Encoding(_)));
}

#[test]
fn tests_ipv6_packet_rejects_wrong_version() {
    wrong_version();
}

#[test]
fn wireguard_ipv6_packet_rejects_wrong_version() {
    wrong_version();
}

fn length_mismatch() {
    let mut packet =
        build_ipv6_packet(Ipv6Addr::unspecified(), Ipv6Addr::unspecified(), b"x").unwrap();
    packet.truncate(IPV6_HEADER_LEN);
    let err = parse_ipv6_packet(&packet).unwrap_err();
    assert!(matches!(err, FabricError::Encoding(_)));
}

#[test]
fn tests_ipv6_packet_rejects_length_mismatch() {
    length_mismatch();
}

#[test]
fn wireguard_ipv6_packet_rejects_length_mismatch() {
    length_mismatch();
}

#[test]
fn packets_are_laid_out_as_documented() {
    let p = build_ipv6_packet(ula("::1"), ula("::2"), b"abc").unwrap();
    assert_eq!(p[..8], [0x60, 0, 0, 0, 0, 3, 59, 64]);
    assert_eq!((p[23], p[39]), (1, 2));
    assert_eq!(p[40..], *b"abc");
    assert!(build_ipv6_packet(ula("::1"), ula("::2"), &vec![0; 65_535]).is_ok());
    let err = build_ipv6_packet(ula("::1"), ula("::2"), &vec![0; 65_536]).unwrap_err();
    assert!(matches!(err, FabricError::Encoding(_)));
}

fn distinct_keypairs() {
    let kp1 = generate_keypair();
    let kp2 = generate_keypair();
    assert_ne!(kp1.public, kp2.public);
}

#[test]
fn tests_generate_keypair_produces_distinct_keys_each_call() {
    distinct_keypairs();
}

#[test]
fn wireguard_generate_keypair_produces_distinct_keys_each_call() {
    distinct_keypairs();
}

#[test]
fn keypairs_are_of_the_curve_and_are_shown_without_the_secret() {
    let secret = [7u8; 32];
    let kp = WireGuardKeypair::from_private(secret);
    let expected = x25519_dalek::PublicKey::from(&x25519_dalek::StaticSecret::from(secret));
    assert_eq!(kp.public, expected.to_bytes());
    let shown = kp.debug_text();
    assert!(shown.contains("redacted"), "{shown}");
    let hex: String = kp.public.iter().map(|b| format!("{b:02x}")).collect();
    assert!(shown.contains(&hex[..8]), "{shown}");
    assert!(!shown.contains("0707"), "{shown}");
    assert_eq!(key_from(&secret), secret);
}

/// Two nodes that know each other.
struct Pair {
    a: WireGuardFabric,
    b: WireGuardFabric,
    inbox: Vec<(Ipv6Addr, Vec<u8>)>,
    sent: usize,
}

impl Pair {
    fn new() -> Self {
        let a_keys = generate_keypair();
        let b_keys = generate_keypair();
        let mut a = WireGuardFabric::bind(addr("127.0.0.1:5001"), "a".into(), a_keys.private);
        let mut b = WireGuardFabric::bind(addr("127.0.0.1:5002"), "b".into(), b_keys.private);
        a.add_wireguard_peer(WireGuardPeerSpec {
            node_id: "b".into(),
            endpoint: b.local_addr(),
            public_key: b_keys.public,
        });
        b.add_wireguard_peer(WireGuardPeerSpec {
            node_id: "a".into(),
            endpoint: a.local_addr(),
            public_key: a_keys.public,
        });
        Pair { a, b, inbox: Vec::new(), sent: 0 }
    }

    /// Carries a datagram from the first node to the second, and everything
    /// that follows from it.
    fn carry(&mut self, first: Vec<u8>) {
        let mut to_b = vec![first];
        let mut to_a: Vec<Vec<u8>> = Vec::new();
        while !to_b.is_empty() || !to_a.is_empty() {
            let (a_addr, b_addr) = (self.a.local_addr(), self.b.local_addr());
            for d in std::mem::take(&mut to_b) {
                self.sent += 1;
                for act in self.b.process_inbound(a_addr, &d) {
                    match act {
                        WireAction::Send { addr, bytes } => {
                            assert_eq!(addr, a_addr);
                            to_a.push(bytes);
                        }
                        WireAction::Deliver { dst, payload } => self.inbox.push((dst, payload)),
                    }
                }
            }
            for d in std::mem::take(&mut to_a) {
                for act in self.a.process_inbound(b_addr, &d) {
                    match act {
                        WireAction::Send { addr, bytes } => {
                            assert_eq!(addr, b_addr);
                            to_b.push(bytes);
                        }
                        WireAction::Deliver { .. } => panic!("nobody wrote to the first node"),
                    }
                }
            }
        }
    }

    fn handshake(&mut self) {
        let timeout = Duration::from_secs(5);
        let mut waited = Duration::from_secs(0);
        loop {
            match self.a.wait_until_handshake("b", waited, timeout) {
                WaitStep::Ready => return,
                WaitStep::Send { addr, bytes } => {
                    assert_eq!(addr, self.b.local_addr());
                    self.carry(bytes);
                }
                WaitStep::Wait => {}
                WaitStep::TimedOut(e) => panic!("{e:?}"),
            }
            waited = Duration { nanos: waited.nanos + 20_000_000 };
        }
    }

    fn send(&mut self, dst: Ipv6Addr, msg: &[u8]) {
        match self.a.send(dst, &msg.to_vec()).expect("send") {
            SendPlan::Datagram { addr, bytes } => {
                assert_eq!(addr, self.b.local_addr());
                self.carry(bytes);
            }
            SendPlan::HeldBack => {}
            other => panic!("expected a datagram, got {other:?}"),
        }
    }
}

#[test]
fn two_node_handshake_and_payload_delivery() {
    let mut p = Pair::new();
    let ula_b = ula("fd5a:1f00:0001:0000:0000:0000:0000:0002");
    p.b.register_local(ula_b, "endpoint-beta".into()).expect("register beta endpoint");
    p.a.add_remote_route(ula_b, "b".into());
    p.handshake();
    p.send(ula_b, b"hello over wireguard");
    assert_eq!(p.inbox, vec![(ula_b, b"hello over wireguard".to_vec())]);
}

#[test]
fn multiple_payloads_reuse_the_session() {
    let mut p = Pair::new();
    let a = ula("fd5a:1f00:0001:0000:0000:0000:0000:0099");
    p.b.register_local(a, "ep-b".into()).expect("register");
    p.a.add_remote_route(a, "b".into());
    p.handshake();
    let after_handshake = p.sent;
    for i in 0..5u8 {
        let payload = vec![i; 32];
        p.send(a, &payload);
        assert_eq!(p.inbox.last(), Some(&(a, payload)), "payload {i} round-tripped intact");
    }
    assert_eq!(p.sent, after_handshake + 5);
}

#[test]
fn messages_wait_for_a_session_and_then_go_out_in_order() {
    let mut p = Pair::new();
    let a = ula("fd5a::99");
    p.b.register_local(a, "ep-b".into()).expect("register");
    p.a.add_remote_route(a, "b".into());
    let first = vec![1; 44];
    let start = match p.a.send(a, &first).expect("first") {
        SendPlan::Datagram { bytes, .. } => bytes,
        other => panic!("expected the start of a handshake, got {other:?}"),
    };
    assert_eq!(start.len(), 148);
    assert_eq!(start[..4], [1, 0, 0, 0]);
    assert!(matches!(p.a.send(a, &b"two".to_vec()), Ok(SendPlan::HeldBack)));
    assert!(matches!(p.a.send(a, &vec![3; 9000]), Ok(SendPlan::HeldBack)));
    p.carry(start);
    assert_eq!(p.inbox, vec![(a, first), (a, b"two".to_vec()), (a, vec![3; 9000])]);
    let data = match p.a.send(a, &b"four".to_vec()).expect("later") {
        SendPlan::Datagram { bytes, .. } => bytes,
        other => panic!("expected a datagram, got {other:?}"),
    };
    assert_eq!(data.len(), 40 + 4 + 32);
    assert_eq!(data[..4], [4, 0, 0, 0]);
}

#[test]
fn short_messages_do_not_open_a_session_but_wait_for_one() {
    let mut p = Pair::new();
    let a = ula("fd5a::99");
    p.b.register_local(a, "ep-b".into()).expect("register");
    p.a.add_remote_route(a, "b".into());
    let err = p.a.send(a, &vec![7; 43]).expect_err("no room for the start of a handshake");
    assert!(matches!(
        &err,
        FabricError::Transport(e) if e == "boringtun encapsulate error: DestinationBufferTooSmall"
    ));
    assert!(p.a.send(a, &b"again".to_vec()).is_err());
    p.handshake();
    assert_eq!(p.inbox, vec![(a, vec![7; 43]), (a, b"again".to_vec())]);
}

#[test]
fn wireguard_udp_unknown_ula_returns_no_route() {
    let keys = generate_keypair();
    let mut fabric = WireGuardFabric::bind(addr("127.0.0.1:5003"), "solo".into(), keys.private);
    let ghost = ula("fd5a:1f00:dead::1");
    let err = fabric.send(ghost, &b"nope".to_vec()).unwrap_err();
    assert!(matches!(err, FabricError::NoRoute(_)));
}

#[test]
fn local_endpoint_delivery_skips_encryption() {
    let keys = generate_keypair();
    let mut fabric = WireGuardFabric::bind(addr("127.0.0.1:5004"), "solo".into(), keys.private);
    let mut inboxes = Inboxes::new();
    let a = ula("fd5a:1f00:0001::42");
    fabric.register_local(a, "local-ep".into()).expect("register");
    send_locally(&mut fabric, a, b"hi self", &mut inboxes).expect("send local");
    assert_eq!(inboxes[&a], vec![b"hi self".to_vec()]);
    assert_eq!(fabric.local_node_id(), "solo");
}

#[test]
fn oversized_payload_rejected() {
    let keys = generate_keypair();
    let mut fabric = WireGuardFabric::bind(addr("127.0.0.1:5005"), "solo".into(), keys.private);
    let peer_keys = generate_keypair();
    fabric.add_wireguard_peer(WireGuardPeerSpec {
        node_id: "ghost".into(),
        endpoint: addr("127.0.0.1:1"),
        public_key: peer_keys.public,
    });
    let a = ula("fd5a:1f00:0001::dead");
    fabric.add_remote_route(a, "ghost".into());
    let huge = vec![0u8; MAX_APP_PAYLOAD + 1];
    let err = fabric.send(a, &huge).unwrap_err();
    assert!(matches!(&err, FabricError::Encoding(_)));
    assert_eq!(err.to_text(), "encoding: payload 65472 exceeds max 65471");
    assert!(fabric.send(a, &vec![0u8; MAX_APP_PAYLOAD]).is_ok());
}

#[test]
fn strangers_and_garbage_are_dropped() {
    let mut p = Pair::new();
    assert!(p.b.process_inbound(addr("127.0.0.1:9999"), &[1, 2, 3]).is_empty());
    let a_addr = p.a.local_addr();
    assert!(p.b.process_inbound(a_addr, &[1, 2, 3]).is_empty());
    p.b.remove_wireguard_peer("a");
    assert!(p.b.process_inbound(a_addr, &[1, 2, 3]).is_empty());
}

#[test]
fn messages_for_nobody_here_are_dropped() {
    let mut p = Pair::new();
    let nobody = ula("fd5a::5");
    p.a.add_remote_route(nobody, "b".into());
    p.handshake();
    p.send(nobody, b"anyone?");
    assert!(p.inbox.is_empty());
}

#[test]
fn waiting_gives_up_in_time() {
    let keys = generate_keypair();
    let mut fabric = WireGuardFabric::bind(addr("127.0.0.1:5006"), "solo".into(), keys.private);
    let timeout = Duration::from_millis(2_500);
    assert!(matches!(
        fabric.wait_until_handshake("b", Duration::from_millis(2_499), timeout),
        WaitStep::Wait
    ));
    match fabric.wait_until_handshake("b", timeout, timeout) {
        WaitStep::TimedOut(FabricError::Transport(e)) => {
            assert_eq!(e, "handshake to b did not complete within 2.5s");
        }
        other => panic!("expected to give up, got {other:?}"),
    }
    assert!(matches!(
        fabric.kick_handshake("b"),
        Err(FabricError::Transport(e)) if e == "peer b not registered"
    ));
}

#[test]
fn one_handshake_is_started_at_a_time() {
    let mut p = Pair::new();
    let (to, bytes) = p.a.kick_handshake("b").expect("known").expect("first");
    assert_eq!(to, p.b.local_addr());
    assert_eq!(bytes.len(), 148);
    assert!(p.a.kick_handshake("b").expect("known").is_none());
    assert!(p.a.tick().is_empty());
}

#[test]
fn an_unanswered_handshake_is_started_anew() {
    let mut p = Pair::new();
    let (_, first) = p.a.kick_handshake("b").expect("known").expect("first");
    let start = std::time::Instant::now();
    let mut sent = p.a.tick();
    assert!(sent.is_empty());
    while sent.is_empty() && start.elapsed() < std::time::Duration::from_secs(10) {
        sent = p.a.tick();
    }
    assert!(start.elapsed() >= std::time::Duration::from_secs(4));
    assert_eq!(sent.len(), 1);
    assert_eq!(sent[0].0, p.b.local_addr());
    assert_eq!(sent[0].1.len(), 148);
    assert_eq!(sent[0].1[..4], [1, 0, 0, 0]);
    assert_ne!(sent[0].1, first);
}

/// A session from the first node to an endpoint of the second, and a message
/// encrypted for it.
fn sealed(msg: &[u8]) -> (Pair, Ipv6Addr, Vec<u8>) {
    let mut p = Pair::new();
    let a = ula("fd5a::99");
    p.b.register_local(a, "ep-b".into()).expect("register");
    p.a.add_remote_route(a, "b".into());
    p.handshake();
    match p.a.send(a, &msg.to_vec()).expect("send") {
        SendPlan::Datagram { bytes, .. } => (p, a, bytes),
        other => panic!("expected a datagram, got {other:?}"),
    }
}

#[test]
fn messages_are_delivered_once_and_only_as_sent() {
    let (mut p, a, bytes) = sealed(b"as sent");
    let from = p.a.local_addr();
    let mut bent = bytes.clone();
    let last = bent.len() - 1;
    bent[last] ^= 1;
    assert!(p.b.process_inbound(from, &bent).is_empty());
    let got = p.b.process_inbound(from, &bytes);
    assert_eq!(got.len(), 1);
    assert!(matches!(
        &got[0],
        WireAction::Deliver { dst, payload } if *dst == a && payload == b"as sent"
    ));
    assert!(p.b.process_inbound(from, &bytes).is_empty());
}

#[test]
fn messages_whose_counter_has_run_out_are_dropped() {
    let (mut p, a, bytes) = sealed(b"later");
    let from = p.a.local_addr();
    for low in [0x00, 0x01, 0xff] {
        let mut spent = bytes.clone();
        spent[8..16].copy_from_slice(&[low, 0xfc, 0xff, 0xff, 0xff, 0xff, 0xff, 0xff]);
        assert!(p.b.process_inbound(from, &spent).is_empty());
    }
    let got = p.b.process_inbound(from, &bytes);
    assert!(matches!(
        &got[0],
        WireAction::Deliver { dst, payload } if *dst == a && payload == b"later"
    ));
}

#[test]
fn answers_of_a_tunnel_are_told_apart() {
    let to = addr("127.0.0.1:7");
    assert!(matches!(
        on_encapsulated(to, TunnelOutcome::Failed("Oops".into())),
        Err(FabricError::Transport(e)) if e == "boringtun encapsulate error: Oops"
    ));
    assert!(matches!(on_encapsulated(to, TunnelOutcome::Done), Ok(SendPlan::HeldBack)));
    assert!(matches!(
        on_handshake(to, TunnelOutcome::Failed("Oops".into())),
        Err(FabricError::Transport(e)) if e == "boringtun handshake error: Oops"
    ));
    assert!(matches!(
        on_handshake(to, TunnelOutcome::ToTunnelV4 { debug: "V4".into() }),
        Err(FabricError::Transport(e)) if e == "unexpected boringtun handshake result: V4"
    ));
    assert_eq!(on_tick(to, TunnelOutcome::ToNetwork(vec![1])), Some((to, vec![1])));
    assert_eq!(on_tick(to, TunnelOutcome::Failed("Oops".into())), None);
}
