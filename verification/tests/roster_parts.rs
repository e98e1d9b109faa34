//! Events, commands, visibility and the durable copy.

use base64::Engine as _;
use std::collections::HashMap;
use tabbify_mesh::bindings::ids::id_text;
use tabbify_mesh::clock::{Duration, Instant, Reading};
use tabbify_mesh::policy::{AclRule, Policy};
use tabbify_mesh::roster::allocator::{network_slot, UlaAllocator};
use tabbify_mesh::roster::api::{NodeCommandDto, PeerEvent, RegisterRequest};
use tabbify_mesh::roster::coordinator::effect::{CoordinatorError, Effect};
use tabbify_mesh::roster::coordinator::state::Coordinator;
use tabbify_mesh::roster::entry::PeerEntry;
use tabbify_mesh::roster::events::{PeerHeartbeat, PeerJoined, PeerLeft};
use tabbify_mesh::roster::store::{
    FileRosterStore, NoopRosterStore, RosterStore, SaveAction, SaveStep,
};

const NOW: Instant = Instant { nanos: 1_000_000_000 };

fn reading() -> Reading {
    Reading { instant: NOW, unix_micros: 1_000_000 }
}

fn fresh_id() -> u128 {
    uuid::Uuid::now_v7().as_u128()
}

fn owned(tags: &[&str]) -> Vec<String> {
    tags.iter().map(|s| (*s).to_owned()).collect()
}

fn coordinator() -> Coordinator {
    Coordinator::new(Duration::from_secs(60))
}

fn joined(id: &str) -> PeerJoined {
    PeerJoined {
        peer_id: id.to_owned(),
        wg_public_key: vec![1; 32],
        ula: "fd5a:1f00:1:5::1".into(),
        listen_endpoint: String::new(),
        display_name: "test".into(),
        network: "n1".into(),
        tags: vec![],
        hosted_app_ulas: vec![],
        joined_at_micros: 1,
        kind: "peer".into(),
        parent: None,
        app_uuid: None,
        software_version: None,
        mesh_version: None,
        relay_only: false,
    }
}

fn beat(id: u128, observed: &str, at_micros: i64) -> PeerHeartbeat {
    PeerHeartbeat {
        peer_id: id_text(id),
        observed_external: observed.into(),
        hosted_app_ulas: vec![],
        software_version: None,
        mesh_version: None,
        at_micros,
    }
}

#[test]
fn apply_methods_can_be_called_directly() {
    let mut coord = coordinator();
    let peer_id = fresh_id();
    let event = PeerJoined {
        listen_endpoint: "127.0.0.1:51820".into(),
        tags: vec!["t1".into()],
        ..joined(&id_text(peer_id))
    };
    let entry = coord.apply_peer_joined(&event, NOW).expect("apply joined");
    assert_eq!(entry.peer_index, 5);
    assert_eq!(coord.snapshot().len(), 1);

    coord.apply_peer_heartbeat(&beat(peer_id, "203.0.113.1:51820", 2), NOW);
    coord.apply_peer_heartbeat(&beat(fresh_id(), "", 3), NOW);
    assert_eq!(coord.snapshot().len(), 1);

    let left = PeerLeft {
        peer_id: id_text(peer_id),
        reason: "shutdown".into(),
        left_at_micros: 4,
    };
    coord.apply_peer_left(&left);
    assert_eq!(coord.snapshot().len(), 0);
}

#[test]
fn apply_peer_left_drops_relay_conn() {
    let mut coord = coordinator();
    let peer_id = fresh_id();
    let pubkey = vec![1u8; 32];
    coord.apply_peer_joined(&joined(&id_text(peer_id)), NOW).expect("apply joined");
    let left = PeerLeft {
        peer_id: id_text(peer_id),
        reason: "shutdown".into(),
        left_at_micros: 2,
    };
    assert_eq!(coord.apply_peer_left(&left), Some(pubkey));
    assert_eq!(coord.apply_peer_left(&left), None);
}

fn bare_req(seed: u8, name: &str, network: &str) -> RegisterRequest {
    RegisterRequest {
        wg_public_key: base64::engine::general_purpose::STANDARD.encode([seed; 32]),
        listen_endpoint: None,
        wg_listen_port: None,
        display_name: name.into(),
        network: network.into(),
        tags: vec![],
        hosted_app_ulas: vec![],
        kind: "peer".into(),
        parent: None,
        app_uuid: None,
        requested_ula: None,
        software_version: None,
        mesh_version: None,
        relay_only: false,
    }
}

#[test]
fn apply_peer_joined_advances_allocator_within_network() {
    let mut coord = coordinator();
    let slot = network_slot("net7");
    let ula = UlaAllocator::address_for(slot, 7);
    let event = PeerJoined {
        wg_public_key: vec![9; 32],
        ula: ula.to_text(),
        display_name: "applied".into(),
        network: "net7".into(),
        ..joined(&id_text(fresh_id()))
    };
    coord.apply_peer_joined(&event, NOW).expect("apply");
    let mut out = Vec::new();
    let (entry, _) =
        coord.register(&bare_req(42, "fresh", "net7"), reading(), &mut out).expect("register");
    assert_eq!(entry.peer_index, 8);
}

#[test]
fn apply_peer_joined_rejects_invalid_uuid() {
    let mut coord = coordinator();
    let bad = PeerJoined { display_name: "x".into(), ..joined("not-a-uuid") };
    let err = coord.apply_peer_joined(&bad, NOW).expect_err("bad uuid");
    assert!(matches!(&err, CoordinatorError::InvalidPeerId(_)));
    let expected = uuid::Uuid::parse_str("not-a-uuid").expect_err("bad uuid").to_string();
    assert_eq!(err.to_text(), format!("invalid peer id: {expected}"));
    assert!(coord.snapshot().is_empty());
}

#[test]
fn events_with_a_bad_address_are_refused() {
    let mut coord = coordinator();
    let bad = PeerJoined { ula: "nowhere".into(), ..joined(&id_text(fresh_id())) };
    let err = coord.apply_peer_joined(&bad, NOW).expect_err("bad address");
    assert!(matches!(err, CoordinatorError::InvalidPeerId(_)));
    assert!(coord.snapshot().is_empty());
}

fn cmd(id: &str, verb: &str, peer: u128) -> NodeCommandDto {
    NodeCommandDto {
        command_id: id.to_owned(),
        verb: verb.to_owned(),
        peer_id: id_text(peer),
        nonce: format!("nonce-{id}"),
        issued_at: 1,
        expiry: i64::MAX,
        signature: "deadbeef".to_owned(),
    }
}

fn register_one(coord: &mut Coordinator) -> u128 {
    let peer = fresh_id();
    let event = PeerJoined { display_name: "node-1".into(), ..joined(&id_text(peer)) };
    coord.apply_peer_joined(&event, NOW).expect("register test peer");
    peer
}

#[test]
fn enqueue_then_drain_returns_once() {
    let mut coord = Coordinator::new(Duration::from_secs(30));
    let peer = register_one(&mut coord);
    coord.enqueue_command(peer, cmd("c1", "restart_joiner", peer));
    coord.enqueue_command(peer, cmd("c2", "reset_wg", peer));
    let drained = coord.drain_commands(peer);
    assert_eq!(drained.len(), 2);
    assert_eq!(drained[0].command_id, "c1");
    assert!(coord.drain_commands(peer).is_empty());
}

#[test]
fn enqueue_unknown_peer_is_noop() {
    let mut coord = Coordinator::new(Duration::from_secs(30));
    let ghost = fresh_id();
    coord.enqueue_command(ghost, cmd("c1", "restart_joiner", ghost));
    assert!(coord.drain_commands(ghost).is_empty());
}

#[test]
fn ack_removes_pending_command() {
    let mut coord = Coordinator::new(Duration::from_secs(30));
    let peer = register_one(&mut coord);
    coord.enqueue_command(peer, cmd("c1", "reset_wg", peer));
    coord.ack_commands(peer, &vec!["c1".to_owned()]);
    assert!(coord.drain_commands(peer).is_empty());
}

#[test]
fn pending_command_ids_is_non_draining() {
    let mut coord = Coordinator::new(Duration::from_secs(30));
    let peer = register_one(&mut coord);
    coord.enqueue_command(peer, cmd("c1", "restart_joiner", peer));
    assert_eq!(coord.pending_command_ids(peer), vec!["c1".to_owned()]);
    assert_eq!(coord.pending_command_ids(peer), vec!["c1".to_owned()]);
    assert_eq!(coord.drain_commands(peer).len(), 1);
}

#[test]
fn acknowledging_leaves_other_commands_in_order() {
    let mut coord = coordinator();
    let peer = register_one(&mut coord);
    for id in ["a", "b", "c", "b"] {
        coord.enqueue_command(peer, cmd(id, "v", peer));
    }
    coord.ack_commands(peer, &vec!["b".to_owned(), "z".to_owned()]);
    assert_eq!(coord.pending_command_ids(peer), vec!["a".to_owned(), "c".to_owned()]);
    assert_eq!(coord.drain_commands(peer), vec![cmd("a", "v", peer), cmd("c", "v", peer)]);
}

fn shared_service_policy() -> Policy {
    Policy::new(vec![
        AclRule::accept(&owned(&["tag:user-a"]), &owned(&["tag:user-a"])),
        AclRule::accept(&owned(&["tag:user-b"]), &owned(&["tag:user-b"])),
        AclRule::accept(&owned(&["tag:user-*"]), &owned(&["tag:svc"])),
    ])
}

fn coordinator_with(policy: Policy) -> Coordinator {
    Coordinator::with_policy(Duration::from_secs(60), policy)
}

fn join(c: &mut Coordinator, seed: u8, name: &str, network: &str, tags: &[&str]) -> PeerEntry {
    let req = RegisterRequest {
        listen_endpoint: Some("127.0.0.1:51820".into()),
        wg_listen_port: Some(51820),
        tags: owned(tags),
        ..bare_req(seed, name, network)
    };
    let mut out = Vec::new();
    c.register(&req, reading(), &mut out).expect("register").0
}

#[test]
fn user_networks_are_isolated_but_both_reach_shared_service() {
    let mut c = coordinator_with(shared_service_policy());
    let a1 = join(&mut c, 1, "a1", "a", &["tag:user-a"]);
    let a2 = join(&mut c, 2, "a2", "a", &["tag:user-a"]);
    let b1 = join(&mut c, 3, "b1", "b", &["tag:user-b"]);
    let svc = join(&mut c, 4, "svc1", "svc", &["tag:svc"]);

    let a1_view = c.visible_peers(a1.peer_id, &owned(&["tag:user-a"]));
    let a1_names: Vec<_> = a1_view.iter().map(|p| p.display_name.clone()).collect();
    assert!(a1_names.contains(&"a2".to_owned()), "a1 must see a2: {a1_names:?}");
    assert!(a1_names.contains(&"svc1".to_owned()), "a1 must see svc: {a1_names:?}");
    assert!(!a1_names.contains(&"b1".to_owned()), "a1 must NOT see b1: {a1_names:?}");
    assert!(!a1_names.contains(&"a1".to_owned()), "a1 must NOT see itself");
    assert_eq!(a1_view.len(), 2, "a1 sees exactly a2 and svc");

    let b1_view = c.visible_peers(b1.peer_id, &owned(&["tag:user-b"]));
    let b1_names: Vec<_> = b1_view.iter().map(|p| p.display_name.clone()).collect();
    assert!(b1_names.contains(&"svc1".to_owned()), "b1 must see svc: {b1_names:?}");
    assert!(!b1_names.contains(&"a1".to_owned()), "b1 must NOT see a1: {b1_names:?}");
    assert!(!b1_names.contains(&"a2".to_owned()), "b1 must NOT see a2: {b1_names:?}");
    assert_eq!(b1_view.len(), 1, "b1 sees exactly svc");

    let svc_view = c.visible_peers(svc.peer_id, &owned(&["tag:svc"]));
    let svc_names: Vec<_> = svc_view.iter().map(|p| p.display_name.clone()).collect();
    assert!(svc_names.contains(&"a1".to_owned()), "svc sees a1: {svc_names:?}");
    assert!(svc_names.contains(&"a2".to_owned()), "svc sees a2: {svc_names:?}");
    assert!(svc_names.contains(&"b1".to_owned()), "svc sees b1: {svc_names:?}");
    assert_eq!(svc_view.len(), 3, "svc sees all three user nodes");

    assert_ne!(
        a2.ula.segments()[2],
        b1.ula.segments()[2],
        "user-a and user-b networks must occupy disjoint ULA blocks",
    );
}

#[test]
fn empty_policy_hides_everyone() {
    let mut c = coordinator_with(Policy::empty());
    let a = join(&mut c, 1, "a", "a", &["tag:user-a"]);
    let _ = join(&mut c, 2, "b", "a", &["tag:user-a"]);
    let view = c.visible_peers(a.peer_id, &owned(&["tag:user-a"]));
    assert!(view.is_empty(), "default-deny: empty policy reveals nothing");
}

#[test]
fn peer_tags_resolves_registered_peer() {
    let mut c = coordinator_with(shared_service_policy());
    let a = join(&mut c, 1, "a", "a", &["tag:user-a"]);
    assert_eq!(c.peer_tags(a.peer_id), Some(vec!["tag:user-a".to_owned()]));
    assert_eq!(c.peer_tags(fresh_id()), None);
}

#[test]
fn viewer_can_see_matches_policy() {
    let c = coordinator_with(shared_service_policy());
    assert!(c.viewer_can_see(&owned(&["tag:user-a"]), &owned(&["tag:svc"])));
    assert!(!c.viewer_can_see(&owned(&["tag:user-a"]), &owned(&["tag:user-b"])));
}

#[test]
fn a_new_policy_is_announced_peer_by_peer() {
    let mut c = coordinator_with(Policy::empty());
    let a = join(&mut c, 1, "a", "n", &["tag:user-a"]);
    let b = join(&mut c, 2, "b", "n", &["tag:user-a"]);
    c.set_policy(shared_service_policy());
    assert_eq!(c.policy().rules.len(), 3);
    assert_eq!(c.visible_peers(a.peer_id, &owned(&["tag:user-a"])).len(), 1);
    let mut out: Vec<Effect> = Vec::new();
    c.resync_all_peers(&mut out);
    let mut announced = Vec::new();
    for e in &out {
        match e {
            Effect::Broadcast(PeerEvent::Updated(i)) => announced.push(i.peer_id.clone()),
            other => panic!("expected an update, got {other:?}"),
        }
    }
    assert_eq!(announced, vec![id_text(a.peer_id), id_text(b.peer_id)]);
}

fn sample_peer(idx: u8, name: &str) -> PeerJoined {
    PeerJoined {
        wg_public_key: vec![idx; 32],
        ula: format!("fd5a:1f00:0:{idx}::1"),
        listen_endpoint: "203.0.113.5:51820".into(),
        display_name: name.into(),
        network: String::new(),
        tags: vec!["supervisor".into()],
        software_version: Some("v1.0.0".into()),
        ..joined(&id_text(fresh_id()))
    }
}

#[test]
fn noop_store_loads_empty_and_save_is_a_noop() {
    let store = NoopRosterStore;
    store.save(&vec![sample_peer(1, "a")]);
    assert!(store.load().is_empty());
}

#[test]
fn file_store_load_is_empty_when_no_snapshot_exists() {
    let store = FileRosterStore::new("state");
    assert!(
        store.load(None, |_| panic!("there is nothing to decode")).is_empty(),
        "a missing snapshot loads as empty, not an error",
    );
}

#[test]
fn file_store_load_is_empty_on_corrupt_snapshot() {
    let store = FileRosterStore::new("state");
    let corrupt = b"{ not valid json".to_vec();
    let loaded = store.load(Some(corrupt), |b| {
        assert_eq!(b, b"{ not valid json");
        serde_json::from_slice::<Vec<u8>>(b).ok().map(|_| vec![sample_peer(1, "a")])
    });
    assert!(
        loaded.is_empty(),
        "a corrupt snapshot must never crash startup — load empty + self-heal",
    );
}

#[test]
fn a_read_snapshot_is_the_roster() {
    let peers = vec![sample_peer(1, "node"), sample_peer(7, "supervisor")];
    let store = FileRosterStore::new("state");
    assert_eq!(store.load(Some(vec![1]), |_| Some(peers.clone())), peers);
    let mut c = coordinator();
    assert_eq!(c.restore(&peers, NOW), 2);
    let kept = c.persist_roster();
    assert_eq!(kept.len(), 2);
    for p in &peers {
        assert!(kept.contains(p), "{p:?}");
    }
}

#[test]
fn the_copy_is_written_beside_and_moved_over() {
    let store = FileRosterStore::new("/var/lib/mesh");
    assert_eq!(store.path(), "/var/lib/mesh/roster.json");
    assert!(matches!(
        store.action(SaveStep::CreateDir),
        SaveAction::CreateDir(dir) if dir == "/var/lib/mesh"
    ));
    assert!(matches!(
        store.action(SaveStep::WriteTemp),
        SaveAction::Write(path) if path == "/var/lib/mesh/roster.tmp"
    ));
    assert!(matches!(
        store.action(SaveStep::Rename),
        SaveAction::Rename { from, to }
            if from == "/var/lib/mesh/roster.tmp" && to == "/var/lib/mesh/roster.json"
    ));
    assert!(matches!(store.action(SaveStep::Done), SaveAction::Nothing));
    assert!(matches!(
        FileRosterStore::new("").action(SaveStep::CreateDir),
        SaveAction::Nothing
    ));
    assert_eq!(FileRosterStore::new("data/").path(), "data/roster.json");

    let mut step = SaveStep::Serialize;
    let mut taken = Vec::new();
    while step != SaveStep::Done {
        taken.push(step);
        assert_eq!(step.next(false), SaveStep::Abandoned);
        step = step.next(true);
    }
    assert_eq!(
        taken,
        vec![SaveStep::Serialize, SaveStep::CreateDir, SaveStep::WriteTemp, SaveStep::Rename]
    );
    assert_eq!(SaveStep::Abandoned.next(true), SaveStep::Abandoned);
}

/// Files in memory. What is written is the number of a list of peers.
#[derive(Default)]
struct Files {
    lists: Vec<Vec<PeerJoined>>,
    files: HashMap<String, Vec<u8>>,
}

impl Files {
    fn save(&mut self, store: &FileRosterStore, peers: Vec<PeerJoined>, fails_at: SaveStep) {
        let bytes = vec![self.lists.len() as u8];
        self.lists.push(peers);
        let mut step = SaveStep::Serialize;
        while step != SaveStep::Done && step != SaveStep::Abandoned {
            let ok = step != fails_at;
            match store.action(step) {
                SaveAction::Write(path) if ok => drop(self.files.insert(path, bytes.clone())),
                SaveAction::Write(path) => drop(self.files.insert(path, vec![])),
                SaveAction::Rename { from, to } if ok => {
                    let moved = self.files.remove(&from).expect("written first");
                    self.files.insert(to, moved);
                }
                _ => {}
            }
            step = step.next(ok);
        }
    }

    fn load(&self, store: &FileRosterStore) -> Vec<PeerJoined> {
        store.load(self.files.get(&store.path()).cloned(), |bytes| {
            bytes.first().map(|n| self.lists[*n as usize].clone())
        })
    }
}

#[test]
fn file_store_round_trips_the_snapshot() {
    let store = FileRosterStore::new("state");
    let mut files = Files::default();
    let peers = vec![sample_peer(1, "node"), sample_peer(7, "supervisor")];
    files.save(&store, peers.clone(), SaveStep::Done);
    assert_eq!(files.load(&store), peers, "snapshot must round-trip exactly");
}

#[test]
fn file_store_save_replaces_prior_snapshot() {
    let store = FileRosterStore::new("state");
    let mut files = Files::default();
    files.save(&store, vec![sample_peer(1, "first")], SaveStep::Done);
    files.save(
        &store,
        vec![sample_peer(2, "second"), sample_peer(3, "third")],
        SaveStep::Done,
    );
    let loaded = files.load(&store);
    assert_eq!(loaded.len(), 2, "save replaces, never appends");
    assert_eq!(loaded[0].display_name, "second");
}

#[test]
fn a_failed_save_keeps_the_old_copy() {
    let store = FileRosterStore::new("state");
    let old = vec![sample_peer(1, "old")];
    for step in
        [SaveStep::Serialize, SaveStep::CreateDir, SaveStep::WriteTemp, SaveStep::Rename]
    {
        let mut files = Files::default();
        files.save(&store, old.clone(), SaveStep::Done);
        files.save(&store, vec![sample_peer(2, "new")], step);
        assert_eq!(files.load(&store), old);
    }
}
