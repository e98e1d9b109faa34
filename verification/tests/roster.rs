//! Joining, staying in and leaving the mesh.

use base64::Engine as _;
use std::collections::HashSet;
use tabbify_mesh::auth::ValidationError;
use tabbify_mesh::bindings::ids::id_text;
use tabbify_mesh::clock::{Duration, Instant, Reading};
use tabbify_mesh::net::socket::SocketAddr;
use tabbify_mesh::roster::api::{PeerEvent, PeerInfo, PeerPathDto, RegisterRequest, TopologyEdge};
use tabbify_mesh::roster::coordinator::effect::{
    CoordinatorError, Effect, RegisterOutcome, RosterEvent,
};
use tabbify_mesh::roster::coordinator::state::Coordinator;
use tabbify_mesh::roster::entry::PeerEntry;
use tabbify_mesh::roster::events::{HolePunchInitiate, PeerJoined};
use tabbify_mesh::roster::timeout::{sweep_interval, sweep_once};

fn at(millis: u64) -> Reading {
    Reading {
        instant: Instant { nanos: u128::from(millis) * 1_000_000 },
        unix_micros: millis as i64 * 1_000,
    }
}

fn fresh_id() -> u128 {
    uuid::Uuid::now_v7().as_u128()
}

fn pubkey(seed: u8) -> String {
    base64::engine::general_purpose::STANDARD.encode([seed; 32])
}

fn socket(s: &str) -> SocketAddr {
    SocketAddr::parse(s).expect("addr")
}

/// A coordinator, the time, and what it asked for so far.
struct Mesh {
    c: Coordinator,
    out: Vec<Effect>,
    now: Reading,
}

impl Mesh {
    fn new() -> Self {
        Self::with_timeout(Duration::from_secs(60))
    }

    fn with_timeout(timeout: Duration) -> Self {
        Mesh { c: Coordinator::new(timeout), out: Vec::new(), now: at(1_000_000) }
    }

    fn restored(saved: &Vec<PeerJoined>) -> Self {
        let mut m = Self::new();
        m.c.restore(saved, m.now.instant);
        m
    }

    fn register(
        &mut self,
        req: RegisterRequest,
    ) -> Result<(PeerEntry, RegisterOutcome), CoordinatorError> {
        self.c.register(&req, self.now, &mut self.out)
    }

    fn register_from(
        &mut self,
        req: RegisterRequest,
        observed: &str,
    ) -> Result<(PeerEntry, RegisterOutcome), CoordinatorError> {
        let unasked = Err(ValidationError::Failed(String::new()));
        self.c.register_authenticated(
            &req,
            None,
            unasked,
            Some(socket(observed)),
            self.now,
            &mut self.out,
        )
    }

    fn heartbeat(
        &mut self,
        peer_id: u128,
        observed: &str,
        port: Option<u16>,
        hosted: Vec<String>,
        version: Option<String>,
        relay_only: bool,
    ) -> Result<PeerEntry, CoordinatorError> {
        self.c.heartbeat(
            peer_id,
            observed.to_owned(),
            port,
            hosted,
            version,
            None,
            relay_only,
            self.now,
            &mut self.out,
        )
    }

    fn deregister(&mut self, peer_id: u128, reason: &str) -> bool {
        self.c.deregister(peer_id, reason, self.now, &mut self.out)
    }

    fn snapshot(&self) -> Vec<PeerInfo> {
        self.c.snapshot()
    }

    fn later(&mut self, millis: u64) {
        self.now = Reading {
            instant: Instant { nanos: self.now.instant.nanos + u128::from(millis) * 1_000_000 },
            unix_micros: self.now.unix_micros + millis as i64 * 1_000,
        };
    }

    fn published_punches(&self) -> Vec<&HolePunchInitiate> {
        self.out
            .iter()
            .filter_map(|e| match e {
                Effect::Publish(RosterEvent::HolePunch(h)) => Some(h),
                _ => None,
            })
            .collect()
    }

    fn broadcasts(&self) -> Vec<&PeerEvent> {
        self.out
            .iter()
            .filter_map(|e| match e {
                Effect::Broadcast(b) => Some(b),
                _ => None,
            })
            .collect()
    }

    fn last_saved(&self) -> Vec<PeerJoined> {
        let mut saved = Vec::new();
        for e in &self.out {
            if let Effect::Persist(v) = e {
                saved = v.clone();
            }
        }
        saved
    }
}

fn req(seed: u8, name: &str) -> RegisterRequest {
    RegisterRequest {
        wg_public_key: pubkey(seed),
        listen_endpoint: Some("127.0.0.1:51820".into()),
        wg_listen_port: Some(51820),
        display_name: name.into(),
        network: String::new(),
        tags: vec!["dev-machine".into()],
        hosted_app_ulas: vec![],
        kind: "peer".into(),
        parent: None,
        app_uuid: None,
        requested_ula: None,
        software_version: None,
        mesh_version: None,
        relay_only: false,
    }
}

fn passive_req(seed: u8, name: &str) -> RegisterRequest {
    RegisterRequest { listen_endpoint: None, ..req(seed, name) }
}

fn req_hosting(seed: u8, name: &str, hosted: &[&str]) -> RegisterRequest {
    RegisterRequest {
        hosted_app_ulas: hosted.iter().map(|s| (*s).to_owned()).collect(),
        ..req(seed, name)
    }
}

fn req_runner(seed: u8, name: &str, parent: &str, app_uuid: &str) -> RegisterRequest {
    RegisterRequest {
        kind: "runner".into(),
        parent: Some(parent.into()),
        app_uuid: Some(app_uuid.into()),
        ..req(seed, name)
    }
}

fn req_with_requested_ula(seed: u8, name: &str, requested_ula: &str) -> RegisterRequest {
    RegisterRequest { requested_ula: Some(requested_ula.into()), ..req(seed, name) }
}

fn path(peer_id: u128, direct: bool, last_rx_age_ms: u64) -> PeerPathDto {
    PeerPathDto { peer_id: id_text(peer_id), direct, last_rx_age_ms }
}

fn sequential_ulas() {
    let mut m = Mesh::new();
    let (p1, o1) = m.register(req(1, "alice")).expect("register 1");
    let (p2, o2) = m.register(req(2, "bob")).expect("register 2");
    assert_eq!(o1, RegisterOutcome::Created);
    assert_eq!(o2, RegisterOutcome::Created);
    assert_eq!(p1.peer_index, 1);
    assert_eq!(p2.peer_index, 2);
    assert_ne!(p1.peer_id, p2.peer_id);
    assert_ne!(p1.ula, p2.ula);
}

#[test]
fn tests_register_assigns_sequential_ulas() {
    sequential_ulas();
}

#[test]
fn coordinator_register_assigns_sequential_ulas() {
    sequential_ulas();
}

fn same_pubkey_again() {
    let mut m = Mesh::new();
    let (first, o1) = m.register(req(7, "alice")).expect("first");
    let (second, o2) = m
        .register(RegisterRequest { display_name: "alice-renamed".into(), ..req(7, "ignored") })
        .expect("re-register");
    assert_eq!(o1, RegisterOutcome::Created);
    assert_eq!(o2, RegisterOutcome::Existed);
    assert_eq!(first.peer_id, second.peer_id);
    assert_eq!(first.ula, second.ula);
    assert_eq!(second.display_name, "alice-renamed");
    assert_eq!(m.snapshot().len(), 1);
}

#[test]
fn tests_re_register_same_pubkey_is_idempotent() {
    same_pubkey_again();
}

#[test]
fn coordinator_re_register_same_pubkey_is_idempotent() {
    same_pubkey_again();
}

fn heartbeat_known_only() {
    let mut m = Mesh::new();
    let (entry, _) = m.register(req(3, "carol")).expect("register");
    let updated = m
        .heartbeat(entry.peer_id, "203.0.113.1:51820", Some(51820), vec![], None, false)
        .expect("heartbeat");
    assert_eq!(updated.peer_id, entry.peer_id);

    let bogus = fresh_id();
    let before = m.out.len();
    let err =
        m.heartbeat(bogus, "ignored", None, vec![], None, false).expect_err("unknown peer");
    assert!(matches!(err, CoordinatorError::UnknownPeer(id) if id == bogus));
    assert_eq!(m.out.len(), before);
}

#[test]
fn tests_heartbeat_updates_only_known_peers() {
    heartbeat_known_only();
}

#[test]
fn coordinator_heartbeat_updates_only_known_peers() {
    heartbeat_known_only();
}

#[test]
fn record_peer_paths_replaces_reporter_edges() {
    let mut m = Mesh::new();
    let (reporter, _) = m.register(req(20, "reporter")).expect("register R");
    let (target, _) = m.register(req(21, "target")).expect("register P");

    assert_eq!(m.c.edge(reporter.peer_id, target.peer_id), None);

    let confirmed =
        m.c.record_peer_paths(reporter.peer_id, &vec![path(target.peer_id, true, 42)]);
    assert_eq!(confirmed.len(), 1);
    assert_eq!(m.c.edge(reporter.peer_id, target.peer_id), Some((true, 42)));

    m.c.record_peer_paths(reporter.peer_id, &vec![]);
    assert_eq!(m.c.edge(reporter.peer_id, target.peer_id), None);

    let none = m.c.record_peer_paths(fresh_id(), &vec![path(target.peer_id, false, 0)]);
    assert!(none.is_empty());
}

#[test]
fn self_connectivity_is_per_machine_self_view() {
    let mut m = Mesh::new();
    let (m_direct, _) = m.register(req(40, "Mdirect")).expect("register Md");
    let (m_relay, _) = m.register(req(41, "Mrelay")).expect("register Mr");
    let (m_none, _) = m.register(req(42, "Mnone")).expect("register Mn");
    let (target, _) = m.register(req(43, "target")).expect("register T");

    m.c.record_peer_paths(
        m_direct.peer_id,
        &vec![path(target.peer_id, false, 100), path(m_relay.peer_id, true, 3)],
    );
    m.c.record_peer_paths(m_relay.peer_id, &vec![path(target.peer_id, false, 250)]);

    assert_eq!(m.c.self_connectivity(m_direct.peer_id).as_deref(), Some("direct"));
    assert_eq!(m.c.self_connectivity(m_relay.peer_id).as_deref(), Some("relay"));
    assert_eq!(m.c.self_connectivity(m_none.peer_id), None);
    assert_eq!(m.c.self_connectivity(fresh_id()), None);
}

fn connectivity(snap: &[PeerInfo], id: u128) -> Option<String> {
    snap.iter().find(|p| p.peer_id == id_text(id)).and_then(|p| p.connectivity.clone())
}

#[test]
fn snapshot_stamps_connectivity_from_each_peers_own_paths() {
    let mut m = Mesh::new();
    let (a, _) = m.register(req(30, "A")).expect("register A");
    let (b, _) = m.register(req(31, "B")).expect("register B");
    let (c, _) = m.register(req(32, "C")).expect("register C");

    m.c.record_peer_paths(a.peer_id, &vec![path(b.peer_id, true, 5)]);
    m.c.record_peer_paths(b.peer_id, &vec![path(a.peer_id, false, 200)]);

    let snap = m.snapshot();
    assert_eq!(connectivity(&snap, a.peer_id).as_deref(), Some("direct"));
    assert_eq!(connectivity(&snap, b.peer_id).as_deref(), Some("relay"));
    assert_eq!(connectivity(&snap, c.peer_id), None);
}

#[test]
fn snapshot_with_vantage_overrides_with_single_vantage_view() {
    let mut m = Mesh::new();
    let (reporter, _) = m.register(req(33, "R")).expect("register R");
    let (direct_m, _) = m.register(req(34, "Mdirect")).expect("register Md");
    let (relay_m, _) = m.register(req(35, "Mrelay")).expect("register Mr");
    let (no_edge_m, _) = m.register(req(36, "Munknown")).expect("register Mu");

    m.c.record_peer_paths(
        reporter.peer_id,
        &vec![path(direct_m.peer_id, true, 5), path(relay_m.peer_id, false, 200)],
    );

    let stamped = m.c.snapshot_with_vantage(Some(reporter.peer_id));
    assert_eq!(connectivity(&stamped, direct_m.peer_id).as_deref(), Some("direct"));
    assert_eq!(connectivity(&stamped, relay_m.peer_id).as_deref(), Some("relay"));
    assert_eq!(connectivity(&stamped, no_edge_m.peer_id), None);
}

#[test]
fn dead_tunnels_override_paths_and_the_freshest_path_counts() {
    let mut m = Mesh::new();
    let (a, _) = m.register(req(30, "A")).expect("register A");
    let (b, _) = m.register(req(31, "B")).expect("register B");
    let (c, _) = m.register(req(32, "C")).expect("register C");
    m.c.record_peer_paths(a.peer_id, &vec![path(b.peer_id, true, 50), path(c.peer_id, false, 7)]);
    assert_eq!(m.c.self_connectivity_aged(a.peer_id), (Some("direct".to_owned()), Some(7)));
    m.c.record_dataplane_health(a.peer_id, false);
    assert_eq!(m.c.self_connectivity_aged(a.peer_id), (Some("dead".to_owned()), None));
    m.c.record_dataplane_health(a.peer_id, true);
    assert_eq!(m.c.self_connectivity_aged(a.peer_id), (Some("direct".to_owned()), Some(7)));
    assert_eq!(m.c.self_connectivity_aged(fresh_id()), (None, None));
}

fn deregister_twice() {
    let mut m = Mesh::new();
    let (entry, _) = m.register(req(4, "dave")).expect("register");
    assert!(m.deregister(entry.peer_id, "test"));
    let before = m.out.len();
    assert!(!m.deregister(entry.peer_id, "test"));
    assert_eq!(m.out.len(), before);
    let (replacement, outcome) = m.register(req(4, "dave-prime")).expect("register again");
    assert_ne!(replacement.peer_id, entry.peer_id);
    assert_eq!(outcome, RegisterOutcome::Created);
}

#[test]
fn tests_deregister_is_idempotent() {
    deregister_twice();
}

#[test]
fn coordinator_deregister_is_idempotent() {
    deregister_twice();
}

fn ordered_snapshot() {
    let mut m = Mesh::new();
    let _ = m.register(req(10, "p10")).expect("ok");
    let _ = m.register(req(11, "p11")).expect("ok");
    let _ = m.register(req(12, "p12")).expect("ok");
    let names: Vec<_> = m.snapshot().iter().map(|p| p.display_name.clone()).collect();
    assert_eq!(names, vec!["p10".to_string(), "p11".into(), "p12".into()]);
}

#[test]
fn tests_snapshot_is_ordered_by_peer_index() {
    ordered_snapshot();
}

#[test]
fn coordinator_snapshot_is_ordered_by_peer_index() {
    ordered_snapshot();
}

fn short_pubkey() {
    let mut m = Mesh::new();
    let too_short = base64::engine::general_purpose::STANDARD.encode([0u8; 16]);
    let err = m
        .register(RegisterRequest {
            wg_public_key: too_short,
            listen_endpoint: None,
            wg_listen_port: None,
            tags: vec![],
            ..req(0, "short")
        })
        .expect_err("invalid pubkey");
    assert!(matches!(err, CoordinatorError::InvalidPubkey(16)));
    assert_eq!(
        err.to_text(),
        "invalid wireguard public key (expected 32 bytes, got 16)"
    );
}

#[test]
fn tests_invalid_pubkey_length_is_rejected() {
    short_pubkey();
}

#[test]
fn coordinator_invalid_pubkey_length_is_rejected() {
    short_pubkey();
}

fn only_timed_out() {
    let mut m = Mesh::with_timeout(Duration::from_millis(50));
    let (a, _) = m.register(req(20, "a")).expect("ok");
    m.later(500);
    let _ = m.register(req(21, "b")).expect("ok");
    assert_eq!(m.c.stale_peers(m.now.instant), vec![a.peer_id]);
}

#[test]
fn tests_stale_peers_returns_only_timed_out_entries() {
    only_timed_out();
}

#[test]
fn coordinator_stale_peers_returns_only_timed_out_entries() {
    only_timed_out();
}

fn punch_pair(base: fn(u8, &str) -> RegisterRequest) {
    let mut m = Mesh::new();
    let (alice, _) = m.register(base(40, "alice")).expect("a");
    let (bob, _) = m.register(base(41, "bob")).expect("b");

    m.heartbeat(alice.peer_id, "203.0.113.10:11111", Some(51820), vec![], None, false)
        .expect("a hb1");
    assert_eq!(m.published_punches().len(), 0);

    m.heartbeat(bob.peer_id, "198.51.100.20:22222", Some(51820), vec![], None, false)
        .expect("b hb1");
    let events = m.published_punches();
    assert_eq!(events.len(), 2);
    let from_alice = events
        .iter()
        .find(|e| e.initiator_peer_id == id_text(alice.peer_id))
        .expect("event from alice");
    assert_eq!(from_alice.target_peer_id, id_text(bob.peer_id));
    assert_eq!(from_alice.target_external_endpoint, "198.51.100.20:51820");
    let from_bob = events
        .iter()
        .find(|e| e.initiator_peer_id == id_text(bob.peer_id))
        .expect("event from bob");
    assert_eq!(from_bob.target_peer_id, id_text(alice.peer_id));
    assert_eq!(from_bob.target_external_endpoint, "203.0.113.10:51820");

    assert_eq!(m.c.punch_tracker().len(), 1);

    m.heartbeat(alice.peer_id, "203.0.113.10:11111", Some(51820), vec![], None, false)
        .expect("a hb2");
    assert_eq!(m.published_punches().len(), 2);
}

#[test]
fn tests_heartbeat_emits_holepunch_pair_when_both_peers_have_external() {
    punch_pair(passive_req);
}

#[test]
fn coordinator_heartbeat_emits_holepunch_pair_when_both_peers_have_external() {
    punch_pair(req);
}

fn punch_broadcast(base: fn(u8, &str) -> RegisterRequest) {
    let mut m = Mesh::new();
    let (alice, _) = m.register(base(70, "alice")).expect("a");
    let (bob, _) = m.register(base(71, "bob")).expect("b");
    m.out.clear();
    m.heartbeat(alice.peer_id, "203.0.113.70:11111", Some(51820), vec![], None, false)
        .expect("a hb");
    m.heartbeat(bob.peer_id, "198.51.100.71:22222", Some(51820), vec![], None, false)
        .expect("b hb");

    let punches: Vec<_> = m
        .broadcasts()
        .into_iter()
        .filter_map(|e| match e {
            PeerEvent::HolePunch(h) => Some(h),
            _ => None,
        })
        .collect();
    assert_eq!(punches.len(), 2);
    assert!(punches.iter().any(|p| p.target_external_endpoint == "203.0.113.70:51820"));
    assert!(punches.iter().any(|p| p.target_external_endpoint == "198.51.100.71:51820"));
}

#[test]
fn tests_heartbeat_broadcasts_holepunch_pair_to_sse_subscribers() {
    punch_broadcast(passive_req);
}

#[test]
fn coordinator_heartbeat_broadcasts_holepunch_pair_to_sse_subscribers() {
    punch_broadcast(req);
}

fn one_lacks_external() {
    let mut m = Mesh::new();
    let (alice, _) = m.register(req(50, "alice")).expect("a");
    let (_bob, _) = m.register(req(51, "bob")).expect("b");
    m.heartbeat(alice.peer_id, "203.0.113.30:33333", None, vec![], None, false).expect("a hb");
    assert_eq!(m.published_punches().len(), 0);
    assert!(m.c.punch_tracker().is_empty());
}

#[test]
fn tests_heartbeat_does_not_emit_when_one_peer_lacks_external() {
    one_lacks_external();
}

#[test]
fn coordinator_heartbeat_does_not_emit_when_one_peer_lacks_external() {
    one_lacks_external();
}

fn empty_external() {
    let mut m = Mesh::new();
    let (alice, _) = m.register(req(60, "alice")).expect("a");
    let (bob, _) = m.register(req(61, "bob")).expect("b");
    m.heartbeat(alice.peer_id, "203.0.113.50:44444", None, vec![], None, false).expect("a hb");
    m.heartbeat(bob.peer_id, "", None, vec![], None, false).expect("b hb empty external");
    assert_eq!(m.published_punches().len(), 0);
}

#[test]
fn tests_heartbeat_with_empty_external_skips_emit() {
    empty_external();
}

#[test]
fn coordinator_heartbeat_with_empty_external_skips_emit() {
    empty_external();
}

#[test]
fn heartbeat_suppresses_holepunch_when_either_peer_relay_only() {
    let mut m = Mesh::new();
    let (alice, _) = m.register(req(80, "alice")).expect("a");
    let (bob, _) = m.register(req(81, "bob")).expect("b");
    let mut event = bob.to_joined_event();
    event.relay_only = true;
    event.listen_endpoint = "198.51.100.81:51820".into();
    m.c.apply_peer_joined(&event, m.now.instant).expect("bob entry");

    m.heartbeat(alice.peer_id, "203.0.113.80:11111", Some(51820), vec![], None, false)
        .expect("a hb");
    m.heartbeat(bob.peer_id, "198.51.100.81:22222", Some(51820), vec![], None, true)
        .expect("b hb");

    assert_eq!(m.published_punches().len(), 0);
    assert!(m.c.punch_tracker().is_empty());
}

#[test]
fn heartbeat_emits_holepunch_for_two_non_relay_only_peers() {
    let mut m = Mesh::new();
    let (alice, _) = m.register(req(82, "alice")).expect("a");
    let (bob, _) = m.register(req(83, "bob")).expect("b");
    let mut event = bob.to_joined_event();
    event.listen_endpoint = "198.51.100.83:51820".into();
    m.c.apply_peer_joined(&event, m.now.instant).expect("bob entry");

    m.heartbeat(alice.peer_id, "203.0.113.82:11111", Some(51820), vec![], None, false)
        .expect("a hb");
    m.heartbeat(bob.peer_id, "198.51.100.83:22222", Some(51820), vec![], None, false)
        .expect("b hb");

    assert_eq!(m.published_punches().len(), 2);
}

#[test]
fn flagged_relay_only_peers_are_dialled_where_they_were_seen() {
    let mut m = Mesh::new();
    let (alice, _) = m.register(passive_req(84, "alice")).expect("a");
    let (bob, _) = m.register(passive_req(85, "bob")).expect("b");
    m.c.set_direct_pair(bob.peer_id, alice.peer_id, true);
    assert!(m.c.direct_pair_flags().is_direct(alice.peer_id, bob.peer_id));
    m.heartbeat(alice.peer_id, "203.0.113.84:11111", Some(51820), vec![], None, false)
        .expect("a hb");
    m.heartbeat(bob.peer_id, "198.51.100.85:22222", Some(4000), vec![], None, true)
        .expect("b hb");
    let punches = m.published_punches();
    assert_eq!(punches.len(), 2);
    // The port falls back to the usual one: the relay-only peer has no endpoint.
    assert!(punches.iter().any(|p| p.target_external_endpoint == "198.51.100.85:51820"));
    m.c.set_direct_pair(alice.peer_id, bob.peer_id, false);
    assert!(!m.c.direct_pair_flags().is_direct(bob.peer_id, alice.peer_id));
}

#[test]
fn leaving_lets_a_pair_be_told_again() {
    let mut m = Mesh::new();
    let (alice, _) = m.register(passive_req(86, "alice")).expect("a");
    let (bob, _) = m.register(passive_req(87, "bob")).expect("b");
    m.heartbeat(alice.peer_id, "203.0.113.86:1", Some(51820), vec![], None, false).expect("a");
    m.heartbeat(bob.peer_id, "198.51.100.87:1", Some(51820), vec![], None, false).expect("b");
    assert_eq!(m.c.punch_tracker().len(), 1);
    assert!(m.deregister(bob.peer_id, "test"));
    assert!(m.c.punch_tracker().is_empty());
    let (bob, _) = m.register_from(passive_req(87, "bob"), "198.51.100.87:1").expect("b again");
    m.heartbeat(bob.peer_id, "198.51.100.87:1", Some(51820), vec![], None, false).expect("b");
    assert_eq!(m.published_punches().len(), 4);
}

#[test]
fn told_pairs_are_forgotten_after_a_while() {
    let mut m = Mesh::new();
    let (alice, _) = m.register(passive_req(88, "alice")).expect("a");
    let (bob, _) = m.register(passive_req(89, "bob")).expect("b");
    m.heartbeat(alice.peer_id, "203.0.113.88:1", Some(51820), vec![], None, false).expect("a");
    m.heartbeat(bob.peer_id, "198.51.100.89:1", Some(51820), vec![], None, false).expect("b");
    let told = m.now.unix_micros;
    assert_eq!(m.c.reap_stale_resources(told + 10, 10), 0);
    assert_eq!(m.c.punch_tracker().len(), 1);
    assert_eq!(m.c.reap_stale_resources(told + 11, 10), 1);
    assert!(m.c.punch_tracker().is_empty());
}

#[test]
fn relay_only_register_advertises_no_listen_endpoint() {
    let mut m = Mesh::new();
    let (entry, _) = m
        .register_from(
            RegisterRequest {
                relay_only: true,
                listen_endpoint: Some("203.0.113.90:51820".into()),
                ..req(90, "relay-only-node")
            },
            "203.0.113.90:34812",
        )
        .expect("register relay-only");
    assert_eq!(entry.listen_endpoint, None);
    assert!(entry.relay_only);
    assert!(!entry.endpoint_is_reflexive);
}

fn natted(base: fn(u8, &str) -> RegisterRequest) {
    let mut m = Mesh::new();
    let (entry, outcome) =
        m.register_from(base(1, "natted"), "203.0.113.7:34812").expect("register");
    assert_eq!(outcome, RegisterOutcome::Created);
    assert_eq!(entry.listen_endpoint.as_deref(), Some("203.0.113.7:51820"));
    assert_eq!(entry.observed_external, "203.0.113.7:34812");
    assert_eq!(m.snapshot()[0].listen_endpoint.as_deref(), Some("203.0.113.7:51820"));
}

#[test]
fn tests_register_stores_reflexive_endpoint_for_natted_peer() {
    natted(passive_req);
}

#[test]
fn coordinator_register_stores_reflexive_endpoint_for_natted_peer() {
    natted(req);
}

fn advertised(seed: u8, tags: &[&str]) -> RegisterRequest {
    RegisterRequest {
        listen_endpoint: Some("198.51.100.50:51820".into()),
        tags: tags.iter().map(|t| (*t).to_owned()).collect(),
        ..req(seed, "advertised")
    }
}

fn public_self_report() {
    let mut m = Mesh::new();
    let (entry, _) = m
        .register_from(advertised(2, &["dev-machine"]), "203.0.113.7:34812")
        .expect("register");
    assert_eq!(entry.listen_endpoint.as_deref(), Some("198.51.100.50:51820"));
}

#[test]
fn tests_register_preserves_public_self_report_over_reflexive() {
    public_self_report();
}

#[test]
fn coordinator_register_preserves_public_self_report_over_reflexive() {
    public_self_report();
}

fn keeps_loopback() {
    let mut m = Mesh::new();
    let (entry, _) = m.register_from(req(3, "local"), "127.0.0.1:55001").expect("register");
    assert_eq!(entry.listen_endpoint.as_deref(), Some("127.0.0.1:51820"));
}

#[test]
fn tests_register_keeps_loopback_when_observed_is_private() {
    keeps_loopback();
}

#[test]
fn coordinator_register_keeps_loopback_when_observed_is_private() {
    keeps_loopback();
}

fn rolls_over(base: fn(u8, &str) -> RegisterRequest) {
    let mut m = Mesh::new();
    let (entry, _) = m.register_from(base(4, "roamer"), "203.0.113.7:34812").expect("register");
    assert_eq!(entry.listen_endpoint.as_deref(), Some("203.0.113.7:51820"));
    let updated = m
        .heartbeat(entry.peer_id, "198.51.100.99:60000", Some(51820), vec![], None, false)
        .expect("heartbeat");
    assert_eq!(updated.listen_endpoint.as_deref(), Some("198.51.100.99:51820"));
}

#[test]
fn tests_heartbeat_rolls_reflexive_endpoint_over_on_ip_change() {
    rolls_over(passive_req);
}

#[test]
fn coordinator_heartbeat_rolls_reflexive_endpoint_over_on_ip_change() {
    rolls_over(req);
}

fn advertised_survives() {
    let mut m = Mesh::new();
    let (entry, _) =
        m.register_from(advertised(5, &[]), "203.0.113.7:34812").expect("register");
    let updated = m
        .heartbeat(entry.peer_id, "203.0.113.7:34900", Some(51820), vec![], None, false)
        .expect("heartbeat");
    assert_eq!(updated.listen_endpoint.as_deref(), Some("198.51.100.50:51820"));
}

#[test]
fn tests_heartbeat_preserves_public_advertised_endpoint() {
    advertised_survives();
}

#[test]
fn coordinator_heartbeat_preserves_public_advertised_endpoint() {
    advertised_survives();
}

#[test]
fn heartbeat_synthesizes_reflexive_for_passive_peer() {
    let mut m = Mesh::new();
    let (entry, _) = m.register(passive_req(8, "late")).expect("register");
    assert_eq!(entry.listen_endpoint.as_deref(), None);
    assert!(!entry.endpoint_is_reflexive);
    let updated = m
        .heartbeat(entry.peer_id, "203.0.113.7:34812", Some(51820), vec![], None, false)
        .expect("heartbeat");
    assert_eq!(updated.listen_endpoint.as_deref(), Some("203.0.113.7:51820"));
    assert!(updated.endpoint_is_reflexive);
}

#[test]
fn heartbeat_promotes_loopback_fallback_to_reflexive() {
    let mut m = Mesh::new();
    let (entry, _) = m.register(req(8, "late")).expect("register");
    assert_eq!(entry.listen_endpoint.as_deref(), Some("127.0.0.1:51820"));
    assert!(!entry.endpoint_is_reflexive);
    let updated = m
        .heartbeat(entry.peer_id, "203.0.113.7:34812", Some(51820), vec![], None, false)
        .expect("heartbeat");
    assert_eq!(updated.listen_endpoint.as_deref(), Some("203.0.113.7:51820"));
    assert!(updated.endpoint_is_reflexive);
}

#[test]
fn tests_re_register_refreshes_reflexive_endpoint() {
    let mut m = Mesh::new();
    let (first, _) = m.register(passive_req(6, "peer")).expect("first");
    assert_eq!(first.listen_endpoint.as_deref(), None);
    let (second, outcome) =
        m.register_from(passive_req(6, "peer"), "203.0.113.7:34812").expect("re-register");
    assert_eq!(outcome, RegisterOutcome::Existed);
    assert_eq!(first.peer_id, second.peer_id);
    assert_eq!(second.listen_endpoint.as_deref(), Some("203.0.113.7:51820"));
}

#[test]
fn coordinator_re_register_refreshes_reflexive_endpoint() {
    let mut m = Mesh::new();
    let (first, _) = m.register(req(6, "peer")).expect("first");
    assert_eq!(first.listen_endpoint.as_deref(), Some("127.0.0.1:51820"));
    let (second, outcome) =
        m.register_from(req(6, "peer"), "203.0.113.7:34812").expect("re-register");
    assert_eq!(outcome, RegisterOutcome::Existed);
    assert_eq!(first.peer_id, second.peer_id);
    assert_eq!(second.listen_endpoint.as_deref(), Some("203.0.113.7:51820"));
}

#[test]
fn joiners_that_cannot_be_dialled_are_passive() {
    let mut m = Mesh::new();
    let bare = RegisterRequest { wg_listen_port: None, ..passive_req(2, "bare") };
    let (entry, _) = m.register_from(bare, "127.0.0.1:40000").expect("register");
    assert_eq!(entry.listen_endpoint, None);
    let public = RegisterRequest {
        listen_endpoint: Some("203.0.113.50:51820".into()),
        ..req(1, "public-peer")
    };
    let (entry, _) = m.register_from(public, "127.0.0.1:40001").expect("register");
    assert_eq!(entry.listen_endpoint.as_deref(), Some("203.0.113.50:51820"));
    let beat = m
        .heartbeat(entry.peer_id, "127.0.0.1:40002", Some(51820), vec![], None, false)
        .expect("heartbeat");
    assert_eq!(beat.listen_endpoint.as_deref(), Some("203.0.113.50:51820"));
}

const APP_A: &str = "fd5a:1f02:dead:beef:cafe:0:0:1";
const APP_B: &str = "fd5a:1f02:dead:beef:cafe:0:0:2";

fn hosted_stored() {
    let mut m = Mesh::new();
    let (entry, outcome) =
        m.register(req_hosting(1, "supervisor", &[APP_A, APP_B])).expect("register");
    assert_eq!(outcome, RegisterOutcome::Created);
    assert_eq!(entry.hosted_app_ulas, vec![APP_A.to_owned(), APP_B.to_owned()]);
    let snap = m.snapshot();
    assert_eq!(snap.len(), 1);
    assert_eq!(snap[0].hosted_app_ulas, vec![APP_A.to_owned(), APP_B.to_owned()]);
}

#[test]
fn tests_register_stores_and_advertises_hosted_app_ulas() {
    hosted_stored();
}

#[test]
fn coordinator_register_stores_and_advertises_hosted_app_ulas() {
    hosted_stored();
}

fn hosted_replaced() {
    let mut m = Mesh::new();
    let (entry, _) = m.register(req_hosting(2, "supervisor", &[APP_A])).expect("register");
    assert_eq!(entry.hosted_app_ulas, vec![APP_A.to_owned()]);
    let updated = m
        .heartbeat(
            entry.peer_id,
            "203.0.113.1:51820",
            Some(51820),
            vec![APP_B.to_owned()],
            None,
            false,
        )
        .expect("heartbeat");
    assert_eq!(updated.hosted_app_ulas, vec![APP_B.to_owned()]);
    let cleared = m
        .heartbeat(entry.peer_id, "203.0.113.1:51820", Some(51820), vec![], None, false)
        .expect("heartbeat clear");
    assert!(cleared.hosted_app_ulas.is_empty());
}

#[test]
fn tests_heartbeat_replaces_hosted_app_ula_set() {
    hosted_replaced();
}

#[test]
fn coordinator_heartbeat_replaces_hosted_app_ula_set() {
    hosted_replaced();
}

fn hosted_broadcast() {
    let mut m = Mesh::new();
    let (entry, _) = m.register(req(3, "supervisor")).expect("register");
    m.out.clear();
    m.heartbeat(
        entry.peer_id,
        "203.0.113.1:51820",
        Some(51820),
        vec![APP_A.to_owned()],
        None,
        false,
    )
    .expect("heartbeat");
    let saw_hosted = m.broadcasts().into_iter().any(|e| match e {
        PeerEvent::Updated(info) => {
            info.peer_id == id_text(entry.peer_id)
                && info.hosted_app_ulas == vec![APP_A.to_owned()]
        }
        _ => false,
    });
    assert!(saw_hosted);
}

#[test]
fn tests_heartbeat_broadcasts_updated_with_new_hosted_set() {
    hosted_broadcast();
}

#[test]
fn coordinator_heartbeat_broadcasts_updated_with_new_hosted_set() {
    hosted_broadcast();
}

fn hosted_refreshed() {
    let mut m = Mesh::new();
    let (first, o1) = m.register(req_hosting(4, "supervisor", &[APP_A])).expect("first");
    assert_eq!(o1, RegisterOutcome::Created);
    let (second, o2) = m.register(req_hosting(4, "supervisor", &[APP_B])).expect("re-register");
    assert_eq!(o2, RegisterOutcome::Existed);
    assert_eq!(first.peer_id, second.peer_id);
    assert_eq!(second.hosted_app_ulas, vec![APP_B.to_owned()]);
}

#[test]
fn tests_re_register_refreshes_hosted_app_ula_set() {
    hosted_refreshed();
}

#[test]
fn coordinator_re_register_refreshes_hosted_app_ula_set() {
    hosted_refreshed();
}

fn hosted_default() {
    let mut m = Mesh::new();
    let (entry, _) = m.register(req(5, "legacy")).expect("register");
    assert!(entry.hosted_app_ulas.is_empty());
}

#[test]
fn tests_register_defaults_hosted_app_ulas_to_empty() {
    hosted_default();
}

#[test]
fn coordinator_register_defaults_hosted_app_ulas_to_empty() {
    hosted_default();
}

fn runner_metadata() {
    let mut m = Mesh::new();
    let parent_ula = "fd5a:1f00:0:1::1";
    let app_id = "01910f10-0000-7000-8000-000000000001";
    let (entry, outcome) =
        m.register(req_runner(80, "runner-1", parent_ula, app_id)).expect("register");
    assert_eq!(outcome, RegisterOutcome::Created);
    assert_eq!(entry.kind, "runner");
    assert_eq!(entry.parent.as_deref(), Some(parent_ula));
    assert_eq!(entry.app_uuid.as_deref(), Some(app_id));
    let snap = m.snapshot();
    assert_eq!(snap.len(), 1);
    assert_eq!(snap[0].kind, "runner");
    assert_eq!(snap[0].parent.as_deref(), Some(parent_ula));
    assert_eq!(snap[0].app_uuid.as_deref(), Some(app_id));
}

#[test]
fn tests_runner_peer_metadata_round_trips_through_roster() {
    runner_metadata();
}

#[test]
fn coordinator_runner_peer_metadata_round_trips_through_roster() {
    runner_metadata();
}

fn plain_defaults() {
    let mut m = Mesh::new();
    let (entry, _) = m.register(req(81, "plain")).expect("register");
    assert_eq!(entry.kind, "peer");
    assert!(entry.parent.is_none());
    assert!(entry.app_uuid.is_none());
    let snap = m.snapshot();
    assert_eq!(snap[0].kind, "peer");
    assert!(snap[0].parent.is_none());
    assert!(snap[0].app_uuid.is_none());
}

#[test]
fn tests_plain_peer_defaults_to_kind_peer_with_no_parent_or_app_uuid() {
    plain_defaults();
}

#[test]
fn coordinator_plain_peer_defaults_to_kind_peer_with_no_parent_or_app_uuid() {
    plain_defaults();
}

fn requested_honoured() {
    let mut m = Mesh::new();
    let want = "fd5a:1f02:aaaa::1";
    let (entry, outcome) =
        m.register(req_with_requested_ula(90, "runner-a", want)).expect("register");
    assert_eq!(outcome, RegisterOutcome::Created);
    assert_eq!(entry.ula.to_text(), want);
    let snap = m.snapshot();
    assert_eq!(snap.len(), 1);
    assert_eq!(snap[0].ula, want);
}

#[test]
fn tests_register_honours_requested_ula_when_unclaimed() {
    requested_honoured();
}

#[test]
fn coordinator_register_honours_requested_ula_when_unclaimed() {
    requested_honoured();
}

fn requested_conflict() {
    let mut m = Mesh::new();
    let want = "fd5a:1f02:bbbb::1";
    m.register(req_with_requested_ula(91, "peer-a", want)).expect("peer-a register");
    let before = m.out.len();
    let err = m
        .register(req_with_requested_ula(92, "peer-b", want))
        .expect_err("peer-b must be rejected");
    assert!(matches!(&err, CoordinatorError::UlaConflict(u) if u == want));
    assert_eq!(
        err.to_text(),
        "requested ULA already claimed by another peer: fd5a:1f02:bbbb::1"
    );
    assert_eq!(m.snapshot().len(), 1);
    assert_eq!(m.out.len(), before);
}

#[test]
fn tests_register_rejects_requested_ula_claimed_by_different_peer() {
    requested_conflict();
}

#[test]
fn coordinator_register_rejects_requested_ula_claimed_by_different_peer() {
    requested_conflict();
}

#[test]
fn register_evicts_stale_holder_and_adopts_requested_ula() {
    let mut m = Mesh::new();
    let want = "fd5a:1f02:dead::1";
    let (a, _) =
        m.register(req_with_requested_ula(40, "stale-peer", want)).expect("peer-a register");
    let pubkey_a = vec![40u8; 32];
    assert!(m.c.is_registered_pubkey(&pubkey_a));
    m.later(61_000);
    m.out.clear();

    let (b, outcome) = m
        .register(req_with_requested_ula(41, "fresh-peer", want))
        .expect("fresh peer must adopt the stale ULA");
    assert_eq!(outcome, RegisterOutcome::Created);
    assert_eq!(b.ula.to_text(), want);
    assert_ne!(b.peer_id, a.peer_id);

    assert_eq!(m.snapshot().len(), 1);
    assert_eq!(m.snapshot()[0].ula, want);
    assert!(!m.c.is_registered_pubkey(&pubkey_a));
    assert!(m
        .out
        .iter()
        .any(|e| matches!(e, Effect::DropRelay(k) if *k == pubkey_a)));

    let mut removed_old = false;
    let mut removed_before_added = false;
    for e in m.broadcasts() {
        match e {
            PeerEvent::Removed { peer_id, .. } if *peer_id == id_text(a.peer_id) => {
                removed_old = true;
            }
            PeerEvent::Added(info) if info.peer_id == id_text(b.peer_id) => {
                removed_before_added = removed_old;
            }
            _ => {}
        }
    }
    assert!(removed_old);
    assert!(removed_before_added);
    assert!(m.out.iter().any(|e| matches!(
        e,
        Effect::Publish(RosterEvent::Left(l)) if l.reason == "evicted_stale_ula_holder"
    )));
}

#[test]
fn register_keeps_409_when_holder_heartbeat_is_current() {
    let mut m = Mesh::new();
    let want = "fd5a:1f02:beef::1";
    let (a, _) =
        m.register(req_with_requested_ula(42, "live-peer", want)).expect("peer-a register");
    // Silent for exactly as long as it may be.
    m.later(60_000);
    let err = m
        .register(req_with_requested_ula(43, "intruder", want))
        .expect_err("a live holder must not be kicked off its ULA");
    assert!(matches!(err, CoordinatorError::UlaConflict(_)));
    assert_eq!(m.snapshot().len(), 1);
    assert_eq!(m.snapshot()[0].peer_id, id_text(a.peer_id));
    assert_eq!(m.snapshot()[0].ula, want);
}

fn reclaim_own() {
    let mut m = Mesh::new();
    let want = "fd5a:1f02:cccc::1";
    let (first, o1) =
        m.register(req_with_requested_ula(93, "runner-c", want)).expect("first register");
    assert_eq!(o1, RegisterOutcome::Created);
    assert_eq!(first.ula.to_text(), want);
    let (second, o2) = m
        .register(req_with_requested_ula(93, "runner-c-restart", want))
        .expect("re-register");
    assert_eq!(o2, RegisterOutcome::Existed);
    assert_eq!(first.peer_id, second.peer_id);
    assert_eq!(second.ula.to_text(), want);
}

#[test]
fn tests_register_allows_same_peer_to_reclaim_its_own_ula() {
    reclaim_own();
}

#[test]
fn coordinator_register_allows_same_peer_to_reclaim_its_own_ula() {
    reclaim_own();
}

fn fallback_to_idx() {
    let mut m = Mesh::new();
    let (p1, _) = m.register(req(94, "plain-a")).expect("ok");
    let (p2, _) = m.register(req(95, "plain-b")).expect("ok");
    assert_ne!(p1.ula, p2.ula);
    assert_eq!(p1.peer_index, 1);
    assert_eq!(p2.peer_index, 2);
}

#[test]
fn tests_register_fallback_to_idx_when_no_requested_ula() {
    fallback_to_idx();
}

#[test]
fn coordinator_register_fallback_to_idx_when_no_requested_ula() {
    fallback_to_idx();
}

#[test]
fn malformed_requested_ula_asks_for_none() {
    let mut m = Mesh::new();
    let (p, _) = m.register(req_with_requested_ula(96, "odd", "not-an-address")).expect("ok");
    assert_eq!(p.ula.to_text(), "fd5a:1f00:0:1::1");
}

#[test]
fn a_block_address_of_another_network_is_refused() {
    let mut m = Mesh::new();
    let slot = tabbify_mesh::roster::allocator::network_slot("alice");
    let foreign = tabbify_mesh::roster::allocator::UlaAllocator::address_for(slot, 9).to_text();
    let err = m
        .register(RegisterRequest { network: "bob".into(), ..req_with_requested_ula(97, "x", &foreign) })
        .expect_err("outside its network");
    assert!(matches!(
        &err,
        CoordinatorError::UlaNetworkMismatch { ula, network } if *ula == foreign && network == "bob"
    ));
    assert_eq!(
        err.to_text(),
        format!("requested ULA {foreign} is outside network `bob`'s address block")
    );
    assert!(m.snapshot().is_empty());
    assert!(m.out.is_empty());
    let (own, _) = m
        .register(RegisterRequest {
            network: "alice".into(),
            ..req_with_requested_ula(98, "y", &foreign)
        })
        .expect("inside its network");
    assert_eq!(own.peer_index, 9);
}

#[test]
fn a_full_network_takes_nobody_in() {
    let mut m = Mesh::new();
    let last = tabbify_mesh::roster::allocator::UlaAllocator::address_for(0, u16::MAX).to_text();
    m.register(req_with_requested_ula(1, "last", &last)).expect("last address");
    let err = m.register(req(2, "late")).expect_err("full");
    assert!(matches!(err, CoordinatorError::Allocation(_)));
    assert_eq!(err.to_text(), "ULA index space exhausted (65535 peers per network)");
    assert_eq!(m.snapshot().len(), 1);
}

#[test]
fn bad_base64_is_refused_in_words() {
    let mut m = Mesh::new();
    let err = m
        .register(RegisterRequest { wg_public_key: "!!!!".into(), ..req(1, "x") })
        .expect_err("no base64");
    let expected = base64::engine::general_purpose::STANDARD
        .decode("!!!!")
        .expect_err("no base64")
        .to_string();
    assert!(matches!(&err, CoordinatorError::PubkeyDecode(e) if *e == expected));
    assert_eq!(err.to_text(), format!("invalid base64 in wg_public_key: {expected}"));
}

#[test]
fn software_version_is_stored_and_broadcast() {
    let mut m = Mesh::new();
    let mut r = req(200, "versioned");
    r.software_version = Some("v1.4.0".to_owned());
    let (entry, _) = m.register(r).expect("register");
    assert_eq!(entry.software_version.as_deref(), Some("v1.4.0"));
    assert_eq!(m.snapshot()[0].software_version.as_deref(), Some("v1.4.0"));
    match m.broadcasts()[0] {
        PeerEvent::Added(info) => assert_eq!(info.software_version.as_deref(), Some("v1.4.0")),
        other => panic!("expected Added, got {other:?}"),
    }

    let after = m
        .heartbeat(entry.peer_id, "", Some(51820), vec![], Some("v1.5.0".to_owned()), false)
        .expect("heartbeat");
    assert_eq!(after.software_version.as_deref(), Some("v1.5.0"));
    match m.broadcasts()[1] {
        PeerEvent::Updated(info) => assert_eq!(info.software_version.as_deref(), Some("v1.5.0")),
        other => panic!("expected Updated, got {other:?}"),
    }

    let kept = m
        .heartbeat(entry.peer_id, "", Some(51820), vec![], None, false)
        .expect("heartbeat none");
    assert_eq!(kept.software_version.as_deref(), Some("v1.5.0"));
}

#[test]
fn restore_brings_peers_back_at_the_same_ula() {
    let mut m1 = Mesh::new();
    let (a, _) = m1.register(req(1, "alice")).expect("reg alice");
    let (b, _) = m1.register(req(2, "bob")).expect("reg bob");
    let m2 = Mesh::restored(&m1.last_saved());
    let snap = m2.snapshot();
    assert_eq!(snap.len(), 2);
    let alice = snap.iter().find(|p| p.peer_id == id_text(a.peer_id)).expect("alice restored");
    assert_eq!(alice.ula, a.ula.to_text());
    assert!(snap.iter().any(|p| p.ula == b.ula.to_text()));
}

#[test]
fn sticky_reregister_after_restore_is_idempotent_no_409() {
    let mut m1 = Mesh::new();
    let (p, _) = m1.register(req(7, "registry")).expect("reg");
    let mut m2 = Mesh::restored(&m1.last_saved());
    let (again, outcome) = m2.register(req(7, "registry")).expect("sticky re-register");
    assert_eq!(outcome, RegisterOutcome::Existed);
    assert_eq!(again.peer_id, p.peer_id);
    assert_eq!(again.ula, p.ula);
}

#[test]
fn different_peer_claiming_a_restored_ula_gets_409() {
    let mut m1 = Mesh::new();
    let (p, _) = m1.register(req(1, "holder")).expect("reg");
    let claimed_ula = p.ula.to_text();
    let mut m2 = Mesh::restored(&m1.last_saved());
    let mut intruder = req(2, "intruder");
    intruder.requested_ula = Some(claimed_ula.clone());
    let err = m2.register(intruder).expect_err("claiming a restored ULA must conflict");
    assert!(matches!(err, CoordinatorError::UlaConflict(u) if u == claimed_ula));
}

#[test]
fn allocator_resumes_past_restored_indices() {
    let mut m1 = Mesh::new();
    m1.register(req(1, "a")).expect("a");
    m1.register(req(2, "b")).expect("b");
    let mut m2 = Mesh::restored(&m1.last_saved());
    let (fresh, outcome) = m2.register(req(9, "fresh")).expect("fresh");
    assert_eq!(outcome, RegisterOutcome::Created);
    assert_eq!(fresh.peer_index, 3);
}

#[test]
fn deregister_persists_so_peer_is_not_resurrected() {
    let mut m1 = Mesh::new();
    let (p, _) = m1.register(req(1, "ephemeral")).expect("reg");
    assert!(m1.deregister(p.peer_id, "client_deregister"));
    let m2 = Mesh::restored(&m1.last_saved());
    assert!(m2.snapshot().is_empty());
}

#[test]
fn restored_peer_is_not_immediately_stale() {
    let mut m1 = Mesh::new();
    m1.register(req(1, "p")).expect("reg");
    let m2 = Mesh::restored(&m1.last_saved());
    assert!(m2.c.stale_peers(m2.now.instant).is_empty());
}

#[test]
fn restoring_skips_what_describes_no_peer() {
    let mut m1 = Mesh::new();
    m1.register(req(1, "a")).expect("a");
    let mut saved = m1.last_saved();
    let mut bad = saved[0].clone();
    bad.peer_id = "nobody".into();
    saved.push(bad);
    let mut worse = saved[0].clone();
    worse.ula = "nowhere".into();
    saved.push(worse);
    let mut m2 = Mesh::new();
    assert_eq!(m2.c.restore(&saved, m2.now.instant), 1);
    assert_eq!(m2.snapshot().len(), 1);
}

fn find_edge<'a>(edges: &'a [TopologyEdge], x: u128, y: u128) -> Option<&'a TopologyEdge> {
    let (x, y) = (id_text(x), id_text(y));
    let (lo, hi) = if x < y { (x, y) } else { (y, x) };
    edges.iter().find(|e| e.from == lo && e.to == hi)
}

#[test]
fn topology_collapses_edges_and_filters_runners() {
    let mut m = Mesh::new();
    let (a, _) = m
        .register(RegisterRequest {
            tags: vec!["supervisor".into(), "firecracker".into()],
            software_version: Some("1.4.35".into()),
            relay_only: false,
            ..req(60, "A")
        })
        .expect("register A");
    let (b, _) = m.register(req(61, "B")).expect("register B");
    let (c, _) = m.register(req(62, "C")).expect("register C");
    let (runner, _) = m
        .register(req_with_requested_ula(63, "runner-1", "fd5a:1f02:aaaa::1"))
        .expect("register runner");

    m.c.record_peer_paths(a.peer_id, &vec![path(b.peer_id, true, 50), path(c.peer_id, false, 900)]);
    m.c.record_peer_paths(b.peer_id, &vec![path(a.peer_id, false, 30)]);
    m.c.record_peer_paths(runner.peer_id, &vec![path(a.peer_id, true, 10)]);

    let topo = m.c.topology();
    let machine_ids: HashSet<String> = topo.machines.iter().map(|x| x.peer_id.clone()).collect();
    assert_eq!(machine_ids.len(), 3);
    assert!(machine_ids.contains(&id_text(a.peer_id)));
    assert!(machine_ids.contains(&id_text(b.peer_id)));
    assert!(machine_ids.contains(&id_text(c.peer_id)));
    assert!(!machine_ids.contains(&id_text(runner.peer_id)));

    let machine_a =
        topo.machines.iter().find(|x| x.peer_id == id_text(a.peer_id)).expect("machine A present");
    assert_eq!(machine_a.name, "A");
    assert_eq!(machine_a.ula, a.ula.to_text());
    assert_eq!(machine_a.tags, vec!["supervisor", "firecracker"]);
    assert!(!machine_a.relay_only);
    assert_eq!(machine_a.software_version.as_deref(), Some("1.4.35"));
    assert_eq!(machine_a.connectivity.as_deref(), Some("direct"));

    for e in &topo.edges {
        assert_ne!(e.from, id_text(runner.peer_id));
        assert_ne!(e.to, id_text(runner.peer_id));
    }

    let ab = find_edge(&topo.edges, a.peer_id, b.peer_id).expect("edge A-B present");
    assert!(ab.direct);
    assert_eq!(ab.age_ms, 30);
    let ab_count = topo
        .edges
        .iter()
        .filter(|e| {
            (e.from == id_text(a.peer_id) && e.to == id_text(b.peer_id))
                || (e.from == id_text(b.peer_id) && e.to == id_text(a.peer_id))
        })
        .count();
    assert_eq!(ab_count, 1);

    let ac = find_edge(&topo.edges, a.peer_id, c.peer_id).expect("edge A-C present");
    assert!(!ac.direct);
    assert_eq!(ac.age_ms, 900);

    assert!(find_edge(&topo.edges, b.peer_id, c.peer_id).is_none());
    assert!((&topo.edges[0].from, &topo.edges[0].to) < (&topo.edges[1].from, &topo.edges[1].to));
}

#[test]
fn no_machine_has_an_edge_to_itself() {
    let mut m = Mesh::new();
    let (a, _) = m.register(req(67, "A")).expect("register A");
    let (b, _) = m.register(req(68, "B")).expect("register B");
    m.c.record_peer_paths(a.peer_id, &vec![path(a.peer_id, true, 1), path(b.peer_id, true, 2)]);
    m.c.record_peer_paths(b.peer_id, &vec![path(a.peer_id, false, 3), path(b.peer_id, true, 4)]);
    let topo = m.c.topology();
    assert_eq!(topo.edges.len(), 1);
    assert!(topo.edges[0].from < topo.edges[0].to);
    assert_eq!(topo.edges[0].age_ms, 2);
}

#[test]
fn edges_end_at_machines_that_are_shown() {
    let mut m = Mesh::new();
    let (a, _) = m.register(req(64, "A")).expect("register A");
    let (b, _) = m.register(req(65, "B")).expect("register B");
    let (gone, _) = m.register(req(66, "C")).expect("register C");
    m.c.record_peer_paths(
        a.peer_id,
        &vec![path(b.peer_id, true, 5), path(gone.peer_id, true, 5)],
    );
    assert_eq!(m.c.topology().edges.len(), 2);
    assert!(m.deregister(gone.peer_id, "test"));
    let topo = m.c.topology();
    assert_eq!(topo.edges.len(), 1);
    let ids: HashSet<String> = topo.machines.iter().map(|x| x.peer_id.clone()).collect();
    for e in &topo.edges {
        assert!(ids.contains(&e.from));
        assert!(ids.contains(&e.to));
    }
}

#[test]
fn topology_excludes_runner_by_kind_and_tag_without_1f02_ula() {
    let mut m = Mesh::new();
    let (a, _) = m.register(req(70, "A")).expect("register A");
    let (kind_runner, _) = m
        .register(RegisterRequest {
            kind: "runner".into(),
            tags: vec!["dev-machine".into()],
            parent: Some("fd5a:1f00:0:1::1".into()),
            app_uuid: Some("01910f10-0000-7000-8000-000000000001".into()),
            ..req(71, "runner-kind-only")
        })
        .expect("register kind-only runner");
    let (tag_runner, _) = m
        .register(RegisterRequest { tags: vec!["runner".into()], ..req(72, "runner-tag-only") })
        .expect("register tag-only runner");
    assert_ne!(kind_runner.ula.segments()[1], 0x1f02);
    assert_ne!(tag_runner.ula.segments()[1], 0x1f02);

    m.c.record_peer_paths(
        a.peer_id,
        &vec![path(kind_runner.peer_id, true, 5), path(tag_runner.peer_id, true, 5)],
    );
    m.c.record_peer_paths(kind_runner.peer_id, &vec![path(a.peer_id, true, 5)]);
    m.c.record_peer_paths(tag_runner.peer_id, &vec![path(a.peer_id, true, 5)]);

    let topo = m.c.topology();
    let machine_ids: HashSet<String> = topo.machines.iter().map(|x| x.peer_id.clone()).collect();
    assert_eq!(machine_ids.len(), 1);
    assert!(machine_ids.contains(&id_text(a.peer_id)));
    assert!(!machine_ids.contains(&id_text(kind_runner.peer_id)));
    assert!(!machine_ids.contains(&id_text(tag_runner.peer_id)));
    assert!(topo.edges.is_empty());
}

#[test]
fn sweep_removes_only_stale_peers() {
    let mut m = Mesh::with_timeout(Duration::from_millis(50));
    let bare = |seed: u8, name: &str| RegisterRequest {
        listen_endpoint: None,
        wg_listen_port: None,
        tags: vec![],
        ..req(seed, name)
    };
    let (a, _) = m.register(bare(1, "stale")).expect("ok");
    let (b, _) = m.register(bare(2, "fresh")).expect("ok");
    m.later(80);
    m.heartbeat(b.peer_id, "", None, vec![], None, false).expect("heartbeat");
    sweep_once(&mut m.c, m.now, &mut m.out);
    let snap = m.snapshot();
    assert_eq!(snap.len(), 1);
    assert_eq!(snap[0].peer_id, id_text(b.peer_id));
    assert!(snap.iter().all(|p| p.peer_id != id_text(a.peer_id)));
    assert!(m.out.iter().any(|e| matches!(
        e,
        Effect::Publish(RosterEvent::Left(l)) if l.reason == "heartbeat_timeout"
    )));
}

#[test]
fn sweep_interval_is_clamped() {
    assert_eq!(
        sweep_interval(Duration::from_millis(100)),
        Duration::from_secs(1),
        "small timeout floors at 1s",
    );
    assert_eq!(
        sweep_interval(Duration::from_secs(60)),
        Duration::from_secs(15),
        "60s timeout sweeps every 15s",
    );
    assert_eq!(
        sweep_interval(Duration::from_secs(3600)),
        Duration::from_secs(60),
        "huge timeout caps at 60s",
    );
}

#[test]
fn peers_are_found_by_their_key() {
    let mut m = Mesh::new();
    let (a, _) = m.register(req(9, "a")).expect("a");
    assert_eq!(m.c.peer_for_pubkey(&[9; 32]), Some((a.peer_id, a.ula)));
    assert_eq!(m.c.peer_for_pubkey(&[8; 32]), None);
    assert!(!m.c.is_registered_pubkey(&[8; 32]));
}

#[test]
fn counters_are_rendered() {
    let mut m = Mesh::new();
    m.c.note_relay_forwarded(1500);
    m.c.note_relay_forwarded(12);
    m.c.note_holepunch_emitted();
    m.c.note_relay_wake_emitted();
    m.c.note_relay_wake_emitted();
    assert_eq!(
        m.c.render_metrics(),
        "# HELP relay_forwarded_bytes_total Bytes forwarded over the relay floor.\n\
         # TYPE relay_forwarded_bytes_total counter\n\
         relay_forwarded_bytes_total 1512\n\
         # HELP holepunch_emitted_total HolePunchInitiate directives emitted.\n\
         # TYPE holepunch_emitted_total counter\n\
         holepunch_emitted_total 1\n\
         # HELP relay_wake_emitted_total RelayWake rendezvous nudges emitted.\n\
         # TYPE relay_wake_emitted_total counter\n\
         relay_wake_emitted_total 2\n"
    );
    assert!(!m.c.proactive_on());
    m.c.set_proactive(true);
    assert!(m.c.proactive_on());
}

#[test]
fn joining_asks_for_a_publication_a_broadcast_and_a_copy() {
    let mut m = Mesh::new();
    let (a, _) = m.register(req(5, "a")).expect("a");
    assert_eq!(m.out.len(), 3);
    assert!(matches!(
        &m.out[0],
        Effect::Publish(RosterEvent::Joined(j)) if j.peer_id == id_text(a.peer_id)
            && j.joined_at_micros == m.now.unix_micros
    ));
    assert!(matches!(
        &m.out[1],
        Effect::Broadcast(PeerEvent::Added(i)) if i.wg_public_key == pubkey(5)
    ));
    assert!(matches!(&m.out[2], Effect::Persist(v) if v.len() == 1));
    m.out.clear();
    assert!(m.deregister(a.peer_id, "bye"));
    assert_eq!(m.out.len(), 4);
    assert!(matches!(&m.out[0], Effect::Publish(RosterEvent::Left(l)) if l.reason == "bye"));
    assert!(matches!(&m.out[1], Effect::DropRelay(k) if *k == vec![5u8; 32]));
    assert!(matches!(&m.out[2], Effect::Broadcast(PeerEvent::Removed { .. })));
    assert!(matches!(&m.out[3], Effect::Persist(v) if v.is_empty()));
}

#[test]
fn drawn_identifiers_are_of_version_seven() {
    let mut m = Mesh::new();
    let (a, _) = m.register(req(5, "a")).expect("a");
    let id = uuid::Uuid::from_u128(a.peer_id);
    assert_eq!(id.get_version_num(), 7);
    assert_eq!(id_text(a.peer_id), id.to_string());
}
