//! Which network and tags a joiner has.

use tabbify_mesh::auth::ValidatedClaims;
use tabbify_mesh::roster::api::RegisterRequest;
use tabbify_mesh::roster::identity::stamp_identity;

fn req(network: &str, tags: &[&str]) -> RegisterRequest {
    RegisterRequest {
        wg_public_key: "AAAA".into(),
        listen_endpoint: None,
        wg_listen_port: None,
        display_name: "n".into(),
        network: network.into(),
        tags: tags.iter().map(|s| (*s).to_owned()).collect(),
        hosted_app_ulas: vec![],
        kind: "peer".into(),
        parent: None,
        app_uuid: None,
        requested_ula: None,
        software_version: None,
        mesh_version: None,
        relay_only: false,
    }
}

fn claims(network: &str, tags: &[&str]) -> ValidatedClaims {
    ValidatedClaims {
        valid: true,
        subject: "node".into(),
        network: network.into(),
        tags: tags.iter().map(|s| (*s).to_owned()).collect(),
        requested_ulas: Vec::new(),
        kind: "join".into(),
        exp: 1_900_000_000,
    }
}

#[test]
fn escape_hatch_stamps_network_and_tags_from_request() {
    let id = stamp_identity(&req("alice", &["tag:user-alice"]), None);
    assert_eq!(id.network, "alice");
    assert_eq!(id.tags, vec!["tag:user-alice".to_owned()]);
}

#[test]
fn escape_hatch_preserves_empty_network() {
    let id = stamp_identity(&req("", &[]), None);
    assert_eq!(id.network, "");
    assert!(id.tags.is_empty());
}

#[test]
fn claims_override_request_network_and_tags() {
    let spoofed = req("bob", &["tag:user-bob", "tag:admin"]);
    let validated = claims("alice", &["tag:user-alice"]);
    let id = stamp_identity(&spoofed, Some(&validated));
    assert_eq!(id.network, "alice", "network must come from claims");
    assert_eq!(
        id.tags,
        vec!["tag:user-alice".to_owned()],
        "tags must come from claims, spoofed request tags ignored"
    );
}

#[test]
fn claims_with_empty_tags_still_override_request() {
    let spoofed = req("bob", &["tag:user-bob"]);
    let validated = claims("alice", &[]);
    let id = stamp_identity(&spoofed, Some(&validated));
    assert_eq!(id.network, "alice");
    assert!(id.tags.is_empty(), "non-capability request tags must not leak through");
}

#[test]
fn capability_tags_merge_over_claims_identity_tags_do_not() {
    let advertised = req(
        "bob",
        &["supervisor", "firecracker", "builder", "docker", "tag:user-bob", "tag:system"],
    );
    let validated = claims("alice", &["tag:net-alice"]);
    let id = stamp_identity(&advertised, Some(&validated));
    assert_eq!(id.network, "alice", "network still from claims");
    assert_eq!(
        id.tags,
        vec![
            "tag:net-alice".to_owned(),
            "supervisor".to_owned(),
            "firecracker".to_owned(),
            "builder".to_owned(),
            "docker".to_owned(),
        ],
        "supervisor/firecracker/builder/docker merge; tag:user-bob + tag:system are dropped"
    );
}

#[test]
fn merged_capability_tag_is_not_duplicated() {
    let advertised = req("alice", &["firecracker", "supervisor"]);
    let validated = claims("alice", &["tag:net-alice", "firecracker"]);
    let id = stamp_identity(&advertised, Some(&validated));
    assert_eq!(
        id.tags,
        vec![
            "tag:net-alice".to_owned(),
            "firecracker".to_owned(),
            "supervisor".to_owned(),
        ],
    );
}
