use decentralized_storage::domain_service::{
    delete, delete_at, register, register_at, renew, renew_at, resolve, resolve_at,
    validate_domain, validate_ttl,
};
use decentralized_storage::model::StateSnapshot;

fn fresh() -> StateSnapshot {
    StateSnapshot::initial()
}

fn registered(now: u64) -> StateSnapshot {
    let mut s = fresh();
    let msg = register_at(
        &mut s,
        "alice",
        "local.jiamiseo.com",
        "deploy-000003",
        300,
        now,
        "nebula-test-id".to_string(),
    )
    .unwrap();
    assert_eq!(
        msg,
        "registered domain=local.jiamiseo.com owner=alice deployment=deploy-000003 ttl=300s"
    );
    s
}

#[test]
fn register_records_domain_with_default_policies() {
    let s = registered(1_000);
    assert_eq!(s.updated_at, 1_000);
    assert_eq!(s.version, 1);
    assert_eq!(s.domains.len(), 1);
    let rec = s.domains.get("local.jiamiseo.com").unwrap();
    assert_eq!(rec.owner, "alice");
    assert_eq!(rec.deployment, "deploy-000003");
    assert_eq!(rec.domain, "local.jiamiseo.com");
    assert_eq!(rec.data_id, "nebula-test-id");
    assert_eq!(rec.created_at, 1_000);
    assert_eq!(rec.expires_at, 1_300);
    assert_eq!(rec.last_renewed_at, 1_000);
    assert!(rec.stored_data_desc.is_empty());
    assert!(rec.content_type.is_empty());
    assert!(rec.preview_url.is_empty());
    assert_eq!(rec.retrieval_profile.target_p95_ms, 120);
    assert_eq!(
        rec.retrieval_profile.acceleration_layers,
        vec!["edge-cache", "gateway-cache", "origin-fallback"]
    );
    assert_eq!(rec.durability_profile.min_replicas, 5);
    assert_eq!(rec.durability_profile.erasure_coding, "10+4");
    assert_eq!(rec.durability_profile.repair_threshold, 3);
    assert_eq!(
        rec.durability_profile.node_clusters,
        vec![
            "nebula-self-hosted-core",
            "nebula-self-hosted-edge",
            "nebula-self-hosted-archive"
        ]
    );
    assert_eq!(rec.economics_profile.budget_mode, "hybrid-reserved+spot");
    assert_eq!(rec.economics_profile.quote_valid_hours, 24);
    assert_eq!(rec.economics_profile.rebalance_threshold_percent, 20);
    assert_eq!(rec.compliance_profile.encryption, "client-side-aes256");
    assert_eq!(rec.compliance_profile.regional_pinning, vec!["ap-east", "eu-central"]);
    assert!(rec.compliance_profile.audit_trail);
}

#[test]
fn register_content_hash_is_sha256_of_seed() {
    let s = registered(1_000);
    let rec = s.domains.get("local.jiamiseo.com").unwrap();
    // sha256("alice|local.jiamiseo.com|deploy-000003|1000")
    assert_eq!(rec.content_hash.len(), 64);
    assert_eq!(
        rec.content_hash,
        decentralized_storage::model::generate_content_hash(
            "alice|local.jiamiseo.com|deploy-000003|1000"
        )
    );
}

#[test]
fn register_twice_is_refused_and_leaves_state() {
    let mut s = registered(1_000);
    let err = register_at(
        &mut s,
        "bob",
        "local.jiamiseo.com",
        "deploy-9",
        300,
        2_000,
        "other".to_string(),
    )
    .unwrap_err();
    assert_eq!(err, "domain already exists: local.jiamiseo.com");
    assert_eq!(s.updated_at, 1_000);
    assert_eq!(s.domains.get("local.jiamiseo.com").unwrap().owner, "alice");
}

#[test]
fn register_expiry_saturates() {
    let mut s = fresh();
    register_at(&mut s, "a", "x.io", "d", 600, u64::MAX - 10, "id".to_string()).unwrap();
    assert_eq!(s.domains.get("x.io").unwrap().expires_at, u64::MAX);
}

#[test]
fn domain_rules_give_each_error() {
    assert_eq!(validate_domain("ab").unwrap_err(), "domain length must be between 3 and 253");
    let long = "a".repeat(250) + ".com";
    assert_eq!(validate_domain(&long).unwrap_err(), "domain length must be between 3 and 253");
    assert_eq!(validate_domain("abcdef").unwrap_err(), "domain must contain at least one dot");
    assert_eq!(
        validate_domain("bad_name.com").unwrap_err(),
        "domain can only contain letters, digits, '.', '-'"
    );
    assert_eq!(
        validate_domain("域名.com").unwrap_err(),
        "domain can only contain letters, digits, '.', '-'"
    );
    assert!(validate_domain("a.b").is_ok());
    assert!(validate_domain("Node-1.Example.org").is_ok());
    // the length is counted in bytes: "é" is two bytes long
    assert_eq!(validate_domain("é").unwrap_err(), "domain length must be between 3 and 253");
}

#[test]
fn ttl_rules() {
    assert_eq!(validate_ttl(59).unwrap_err(), "ttl must be in [60, 31536000] seconds");
    assert_eq!(validate_ttl(31_536_001).unwrap_err(), "ttl must be in [60, 31536000] seconds");
    assert!(validate_ttl(60).is_ok());
    assert!(validate_ttl(31_536_000).is_ok());
}

#[test]
fn register_checks_domain_before_ttl() {
    let mut s = fresh();
    let err = register_at(&mut s, "a", "nodot", "d", 1, 5, "id".to_string()).unwrap_err();
    assert_eq!(err, "domain must contain at least one dot");
    let err = register_at(&mut s, "a", "ok.io", "d", 1, 5, "id".to_string()).unwrap_err();
    assert_eq!(err, "ttl must be in [60, 31536000] seconds");
    assert_eq!(s.domains.len(), 0);
}

#[test]
fn resolve_reports_active_then_expired() {
    let s = registered(1_000);
    let (status, rec) = resolve_at(&s, "local.jiamiseo.com", 1_299).unwrap();
    assert_eq!(status, "active");
    assert_eq!(rec.owner, "alice");
    let (status, _) = resolve_at(&s, "local.jiamiseo.com", 1_300).unwrap();
    assert_eq!(status, "expired");
    assert_eq!(
        resolve_at(&s, "missing.io", 1).unwrap_err(),
        "domain not found: missing.io"
    );
}

#[test]
fn renew_extends_from_expiry_or_now() {
    let mut s = registered(1_000);
    let msg = renew_at(&mut s, "alice", "local.jiamiseo.com", 600, 1_100).unwrap();
    assert_eq!(msg, "renewed domain=local.jiamiseo.com owner=alice new_expiry=1900");
    let rec = s.domains.get("local.jiamiseo.com").unwrap();
    assert_eq!(rec.expires_at, 1_900);
    assert_eq!(rec.last_renewed_at, 1_100);
    assert_eq!(s.updated_at, 1_100);
    // once expired, renewal counts from now
    let msg = renew_at(&mut s, "alice", "local.jiamiseo.com", 60, 5_000).unwrap();
    assert_eq!(msg, "renewed domain=local.jiamiseo.com owner=alice new_expiry=5060");
}

#[test]
fn renew_errors() {
    let mut s = registered(1_000);
    assert_eq!(
        renew_at(&mut s, "alice", "local.jiamiseo.com", 10, 1_100).unwrap_err(),
        "ttl must be in [60, 31536000] seconds"
    );
    assert_eq!(
        renew_at(&mut s, "alice", "nope.io", 600, 1_100).unwrap_err(),
        "domain not found: nope.io"
    );
    assert_eq!(
        renew_at(&mut s, "mallory", "local.jiamiseo.com", 600, 1_100).unwrap_err(),
        "owner mismatch for domain local.jiamiseo.com"
    );
    assert_eq!(s.domains.get("local.jiamiseo.com").unwrap().expires_at, 1_300);
    assert_eq!(s.updated_at, 1_000);
}

#[test]
fn delete_undoes_register() {
    let mut s = registered(1_000);
    assert_eq!(
        delete_at(&mut s, "bob", "local.jiamiseo.com", 1_200).unwrap_err(),
        "owner mismatch for domain local.jiamiseo.com"
    );
    assert_eq!(
        delete_at(&mut s, "alice", "gone.io", 1_200).unwrap_err(),
        "domain not found: gone.io"
    );
    let msg = delete_at(&mut s, "alice", "local.jiamiseo.com", 1_200).unwrap();
    assert_eq!(msg, "deleted domain=local.jiamiseo.com owner=alice");
    assert_eq!(s.domains.len(), 0);
    assert_eq!(s.updated_at, 1_200);
    assert!(resolve_at(&s, "local.jiamiseo.com", 1_200).is_err());
}

#[test]
fn other_domains_untouched() {
    let mut s = registered(1_000);
    register_at(&mut s, "bob", "b.example.com", "dep-b", 120, 1_010, "id-b".to_string()).unwrap();
    renew_at(&mut s, "alice", "local.jiamiseo.com", 600, 1_020).unwrap();
    let b = s.domains.get("b.example.com").unwrap();
    assert_eq!(b.expires_at, 1_130);
    assert_eq!(b.last_renewed_at, 1_010);
    delete_at(&mut s, "alice", "local.jiamiseo.com", 1_030).unwrap();
    assert_eq!(s.domains.len(), 1);
    assert_eq!(s.domains.get("b.example.com").unwrap().owner, "bob");
}

#[test]
fn clock_based_operations_work() {
    let mut s = fresh();
    let msg = register(&mut s, "alice", "live.example.com", "dep", 3_600, "id-live".to_string())
        .unwrap();
    assert_eq!(msg, "registered domain=live.example.com owner=alice deployment=dep ttl=3600s");
    let (status, _) = resolve(&s, "live.example.com").unwrap();
    assert_eq!(status, "active");
    assert!(renew(&mut s, "alice", "live.example.com", 60).is_ok());
    assert!(delete(&mut s, "alice", "live.example.com").is_ok());
    assert_eq!(s.domains.len(), 0);
}

#[test]
fn listing_order_is_by_key() {
    let mut s = fresh();
    for (i, d) in ["zeta.io", "alpha.io", "mid.io"].iter().enumerate() {
        register_at(&mut s, "o", d, "dep", 60, i as u64, format!("id-{}", i)).unwrap();
    }
    let keys: Vec<String> = (0..s.domains.len()).map(|i| s.domains.entry_at(i).key.clone()).collect();
    assert_eq!(keys, vec!["alpha.io", "mid.io", "zeta.io"]);
}

#[test]
fn delete_lowers_the_count_by_one() {
    let mut s = registered(1_000);
    register_at(&mut s, "bob", "b.example.com", "d", 60, 1_000, "id-b".to_string()).unwrap();
    assert_eq!(s.domains.len(), 2);
    delete_at(&mut s, "bob", "b.example.com", 1_100).unwrap();
    assert_eq!(s.domains.len(), 1);
    assert!(s.domains.get("local.jiamiseo.com").is_some());
}
