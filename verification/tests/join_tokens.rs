//! What a join token decides.

use base64::Engine as _;
use tabbify_mesh::auth::{ValidatedClaims, ValidationError};
use tabbify_mesh::bindings::ids::id_text;
use tabbify_mesh::clock::{Duration, Instant, Reading};
use tabbify_mesh::policy::{AclRule, Policy};
use tabbify_mesh::roster::allocator::network_slot;
use tabbify_mesh::roster::api::{PeerEvent, RegisterRequest};
use tabbify_mesh::roster::coordinator::effect::{CoordinatorError, Effect, RegisterOutcome};
use tabbify_mesh::roster::coordinator::registration::AuthQuestion;
use tabbify_mesh::roster::coordinator::state::Coordinator;
use tabbify_mesh::roster::entry::PeerEntry;

fn pubkey(seed: u8) -> String {
    base64::engine::general_purpose::STANDARD.encode([seed; 32])
}

fn owned(tags: &[&str]) -> Vec<String> {
    tags.iter().map(|s| (*s).to_owned()).collect()
}

fn req_with(seed: u8, network: &str, tags: &[&str]) -> RegisterRequest {
    RegisterRequest {
        wg_public_key: pubkey(seed),
        listen_endpoint: Some("127.0.0.1:51820".into()),
        wg_listen_port: Some(51820),
        display_name: "node".into(),
        network: network.into(),
        tags: owned(tags),
        hosted_app_ulas: vec![],
        kind: "peer".into(),
        parent: None,
        app_uuid: None,
        requested_ula: None,
        software_version: None,
        mesh_version: None,
        relay_only: false,
    }
}

fn permissive() -> Policy {
    Policy::new(vec![AclRule::accept(&owned(&["*"]), &owned(&["*"]))])
}

/// A coordinator and what it asked for so far.
struct Mesh {
    c: Coordinator,
    out: Vec<Effect>,
}

type Joined = Result<(PeerEntry, RegisterOutcome), CoordinatorError>;

impl Mesh {
    fn new(validates: bool) -> Self {
        let c = Coordinator::with_policy_and_validator(
            Duration::from_secs(60),
            permissive(),
            validates,
        );
        Mesh { c, out: Vec::new() }
    }

    fn join(
        &mut self,
        req: RegisterRequest,
        bearer: Option<&str>,
        reply: Result<ValidatedClaims, ValidationError>,
    ) -> Joined {
        let now = Reading { instant: Instant { nanos: 1_000_000 }, unix_micros: 1_000 };
        self.c.register_authenticated(&req, bearer, reply, None, now, &mut self.out)
    }
}

fn unasked() -> Result<ValidatedClaims, ValidationError> {
    Err(ValidationError::Failed("never asked".into()))
}

fn claims(
    subject: &str,
    network: &str,
    tags: &[&str],
) -> Result<ValidatedClaims, ValidationError> {
    Ok(ValidatedClaims {
        valid: true,
        subject: subject.into(),
        network: network.into(),
        tags: owned(tags),
        requested_ulas: vec![],
        kind: "join".into(),
        exp: 1_900_000_000,
    })
}

fn alice() -> Result<ValidatedClaims, ValidationError> {
    claims("node-alice", "alice", &["tag:user-alice"])
}

fn fixed_ula_claims(
    allowed: &[&str],
    network: &str,
) -> Result<ValidatedClaims, ValidationError> {
    let mut c = claims("store-service", network, &[]).expect("claims");
    c.requested_ulas = owned(allowed);
    Ok(c)
}

fn valid_token() {
    let mut m = Mesh::new(true);
    let req = req_with(1, "request-network", &["tag:request-supplied"]);
    let (entry, outcome) = m.join(req, Some("good-token"), alice()).expect("admit");
    assert_eq!(outcome, RegisterOutcome::Created);
    assert_eq!(entry.network, "alice", "network must come from claims");
    assert_eq!(entry.tags, vec!["tag:user-alice".to_owned()], "tags must come from claims");
}

#[test]
fn jwt_tests_valid_token_admits_with_claims_network_and_tags() {
    valid_token();
}

#[test]
fn coordinator_valid_token_admits_with_claims_network_and_tags() {
    valid_token();
}

#[test]
fn exact_signed_capability_allows_only_its_fixed_ula_and_binds_network() {
    let mut m = Mesh::new(true);
    let mut req = req_with(21, "spoofed-other-network", &["infra", "forge"]);
    req.requested_ula = Some("fd5a:1f00:fffe:0:0:0:0:1".into());
    let reply = fixed_ula_claims(&["fd5a:1f00:fffe::1"], "store-system");
    let (entry, _) =
        m.join(req, Some("token-for-store-system"), reply).expect("exact capability admits");
    assert_eq!(entry.ula.to_text(), "fd5a:1f00:fffe::1");
    assert_eq!(entry.network, "store-system", "token network is authoritative");
}

#[test]
fn concurrent_exact_capability_registers_cannot_both_reserve_fixed_ula() {
    let mut m = Mesh::new(true);
    let mut outcomes = Vec::new();
    for (seed, token) in [(31, "first-token"), (32, "second-token")] {
        let mut request = req_with(seed, "spoofed-network", &[]);
        request.requested_ula = Some("fd5a:1f00:fffe::1".into());
        let reply = fixed_ula_claims(&["fd5a:1f00:fffe::1"], "store-system");
        outcomes.push(m.join(request, Some(token), reply));
    }
    assert_eq!(outcomes.iter().filter(|result| result.is_ok()).count(), 1);
    assert_eq!(
        outcomes
            .iter()
            .filter(|result| matches!(result, Err(CoordinatorError::UlaConflict(_))))
            .count(),
        1
    );
    assert_eq!(m.c.snapshot().len(), 1);
}

#[test]
fn capability_for_fixed_ula_one_rejects_fixed_ula_two() {
    let mut m = Mesh::new(true);
    let mut req = req_with(22, "store-system", &[]);
    req.requested_ula = Some("fd5a:1f00:fffe::2".into());
    let reply = fixed_ula_claims(&["fd5a:1f00:fffe::1"], "store-system");
    let error = m.join(req, Some("token-for-one"), reply).expect_err("capability must be exact");
    assert!(matches!(error, CoordinatorError::Unauthorized(_)));
}

#[test]
fn self_advertised_infra_or_forge_tags_never_authorize_fixed_ula() {
    let mut m = Mesh::new(true);
    let mut req = req_with(23, "store-system", &["infra", "forge"]);
    req.requested_ula = Some("fd5a:1f00:fffe::1".into());
    let reply = fixed_ula_claims(&[], "store-system");
    let error =
        m.join(req, Some("no-capability"), reply).expect_err("self tags must not grant fixed ULA");
    assert!(matches!(error, CoordinatorError::Unauthorized(_)));
}

fn spoofed_tags() {
    let mut m = Mesh::new(true);
    let spoof = req_with(2, "bob", &["tag:user-bob", "tag:admin"]);
    let (entry, _) = m.join(spoof, Some("good-token"), alice()).expect("admit");
    assert_eq!(entry.network, "alice");
    assert_eq!(entry.tags, vec!["tag:user-alice".to_owned()]);
    assert!(!entry.tags.iter().any(|t| t == "tag:admin"), "spoofed admin tag must not appear");
    let claims_slot = network_slot("alice");
    assert_eq!(
        entry.ula.segments()[2],
        claims_slot,
        "ULA block must be derived from the claims network"
    );
}

#[test]
fn jwt_tests_spoofed_request_tags_are_ignored_in_favor_of_claims() {
    spoofed_tags();
}

#[test]
fn coordinator_spoofed_request_tags_are_ignored_in_favor_of_claims() {
    spoofed_tags();
}

fn revoked_token() {
    let mut m = Mesh::new(true);
    let reply = Ok(ValidatedClaims {
        valid: false,
        subject: String::new(),
        network: String::new(),
        tags: vec![],
        requested_ulas: vec![],
        kind: "join".into(),
        exp: 0,
    });
    let err =
        m.join(req_with(3, "alice", &[]), Some("revoked-token"), reply).expect_err("must reject");
    assert!(matches!(err, CoordinatorError::Unauthorized(_)), "{err:?}");
    assert_eq!(m.c.snapshot().len(), 0);
    assert!(m.out.is_empty());
}

#[test]
fn jwt_tests_invalid_or_revoked_token_is_rejected() {
    revoked_token();
}

#[test]
fn coordinator_invalid_or_revoked_token_is_rejected() {
    revoked_token();
}

fn missing_token() {
    let mut m = Mesh::new(true);
    let req = req_with(4, "alice", &[]);
    assert!(matches!(m.c.auth_question(&req, None), AuthQuestion::Missing));
    let err = m.join(req, None, unasked()).expect_err("must reject");
    assert!(matches!(err, CoordinatorError::Unauthorized(_)), "{err:?}");
    assert_eq!(m.c.snapshot().len(), 0);
}

#[test]
fn jwt_tests_missing_token_is_rejected_when_validator_configured() {
    missing_token();
}

#[test]
fn coordinator_missing_token_is_rejected_when_validator_configured() {
    missing_token();
}

fn unreachable_service() {
    let mut m = Mesh::new(true);
    let reply = Err(ValidationError::Failed("connection refused".into()));
    let err =
        m.join(req_with(5, "alice", &[]), Some("token"), reply).expect_err("must fail closed");
    assert!(matches!(err, CoordinatorError::Unauthorized(_)), "{err:?}");
    assert_eq!(m.c.snapshot().len(), 0);
}

#[test]
fn jwt_tests_auth_service_unreachable_fails_closed() {
    unreachable_service();
}

#[test]
fn coordinator_auth_service_unreachable_fails_closed() {
    unreachable_service();
}

fn escape_hatch() {
    let mut m = Mesh::new(false);
    let (entry, _) = m
        .join(req_with(6, "alice", &["tag:user-alice"]), None, unasked())
        .expect("admit (escape hatch)");
    assert_eq!(entry.network, "alice");
    assert_eq!(entry.tags, vec!["tag:user-alice".to_owned()]);
}

#[test]
fn jwt_tests_escape_hatch_without_validator_trusts_request() {
    escape_hatch();
}

#[test]
fn coordinator_escape_hatch_without_validator_trusts_request() {
    escape_hatch();
}

fn restamped() {
    let mut m = Mesh::new(true);
    let (first, o1) =
        m.join(req_with(7, "x", &["tag:request"]), Some("token"), alice()).expect("first");
    assert_eq!(o1, RegisterOutcome::Created);
    let (second, o2) =
        m.join(req_with(7, "x", &["tag:admin"]), Some("token"), alice()).expect("re-register");
    assert_eq!(o2, RegisterOutcome::Existed);
    assert_eq!(first.peer_id, second.peer_id);
    assert_eq!(
        second.tags,
        vec!["tag:user-alice".to_owned()],
        "re-register tags must still come from claims"
    );
}

#[test]
fn jwt_tests_re_register_restamps_tags_from_claims() {
    restamped();
}

#[test]
fn coordinator_re_register_restamps_tags_from_claims() {
    restamped();
}

#[test]
fn re_register_rehomes_peer_to_new_network_from_claims() {
    let mut m = Mesh::new(true);
    let alpha = || claims("dedik", "alpha", &["tag:net-alpha"]);
    let beta = || claims("dedik", "beta", &["tag:net-beta", "tag:deploy-beta"]);

    let (first, o1) = m
        .join(req_with(11, "junk", &["tag:spoof"]), Some("tok-alpha"), alpha())
        .expect("first join");
    assert_eq!(o1, RegisterOutcome::Created);
    assert_eq!(first.network, "alpha");
    assert_eq!(first.tags, vec!["tag:net-alpha".to_owned()]);

    let mut retagged = req_with(11, "junk", &["tag:spoof"]);
    retagged.requested_ula = Some(first.ula.to_text());
    let (second, o2) = m.join(retagged, Some("tok-beta"), beta()).expect("re-home");
    assert_eq!(o2, RegisterOutcome::Existed, "same pubkey is still a re-register");
    assert_eq!(first.peer_id, second.peer_id, "identity (peer_id) is preserved");
    assert_eq!(second.network, "beta", "network reconciled to the new claims");
    assert_eq!(
        second.tags,
        vec!["tag:net-beta".to_owned(), "tag:deploy-beta".to_owned()],
        "tags replaced wholesale",
    );
    assert_ne!(first.ula, second.ula);
    assert_ne!(first.ula.segments()[2], second.ula.segments()[2]);

    let mut again = req_with(11, "junk", &["tag:spoof"]);
    again.requested_ula = Some(first.ula.to_text());
    let (third, o3) = m.join(again, Some("tok-beta"), beta()).expect("steady re-register");
    assert_eq!(o3, RegisterOutcome::Existed);
    assert_eq!(third.network, "beta");
    assert_eq!(third.ula, second.ula, "same-network re-register is ULA-stable");
}

#[test]
fn moving_peers_are_seen_to_leave_first() {
    let mut m = Mesh::new(true);
    let (first, _) = m
        .join(req_with(12, "", &[]), Some("a"), claims("dedik", "alpha", &["tag:old"]))
        .expect("first join");
    m.out.clear();
    let (second, _) = m
        .join(req_with(12, "", &[]), Some("b"), claims("dedik", "beta", &["tag:new"]))
        .expect("move");
    match &m.out[0] {
        Effect::Broadcast(PeerEvent::Removed { peer_id, tags }) => {
            assert_eq!(*peer_id, id_text(first.peer_id));
            assert_eq!(*tags, vec!["tag:old".to_owned()]);
        }
        other => panic!("expected Removed, got {other:?}"),
    }
    match &m.out[1] {
        Effect::Broadcast(PeerEvent::Added(info)) => {
            assert_eq!(info.peer_id, id_text(first.peer_id));
            assert_eq!(info.tags, vec!["tag:new".to_owned()]);
            assert_eq!(info.ula, second.ula.to_text());
        }
        other => panic!("expected Added, got {other:?}"),
    }
    assert_eq!(second.ula.segments()[2], network_slot("beta"));
}

#[test]
fn the_service_is_asked_about_the_token_and_the_key() {
    let m = Mesh::new(true);
    let req = req_with(9, "alice", &[]);
    match m.c.auth_question(&req, Some("good-token")) {
        AuthQuestion::Ask { token, wg_public_key } => {
            assert_eq!(token, "good-token");
            assert_eq!(wg_public_key, Some(pubkey(9)));
        }
        other => panic!("expected a question, got {other:?}"),
    }
    assert!(matches!(m.c.auth_question(&req, Some("")), AuthQuestion::Missing));
    assert!(matches!(Mesh::new(false).c.auth_question(&req, Some("x")), AuthQuestion::Trusted));
}

#[test]
fn refusals_are_put_in_words() {
    let mut m = Mesh::new(true);
    let missing = m.join(req_with(1, "a", &[]), None, unasked()).expect_err("missing");
    let wrong = m
        .join(req_with(1, "a", &[]), Some("t"), Err(ValidationError::WrongKind("deploy".into())))
        .expect_err("kind");
    let failed = m
        .join(req_with(1, "a", &[]), Some("t"), Err(ValidationError::Failed("boom".into())))
        .expect_err("failed");
    assert_eq!(
        missing.to_text(),
        "unauthorized join: missing join token (Authorization: Bearer)"
    );
    assert_eq!(wrong.to_text(), "unauthorized join: join token has wrong kind: deploy");
    assert_eq!(failed.to_text(), "unauthorized join: join token validation failed: boom");
}
