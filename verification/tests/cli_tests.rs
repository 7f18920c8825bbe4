use decentralized_storage::cli::{blueprint, required, run_domain, sanitize_peers, DomainAction, DomainOutcome};
use decentralized_storage::model::StateSnapshot;

#[test]
fn required_arguments() {
    assert_eq!(required(Some(5u64), "ttl"), Ok(5));
    assert_eq!(required::<String>(None, "owner"), Err("missing required --owner".to_string()));
}

#[test]
fn blueprint_text() {
    let b = blueprint();
    assert!(b.starts_with("NebulaStore 协议治理蓝图（2026）\n- 热路径加速"));
    assert!(b.ends_with("- 部署策略：NebulaStore 主网络覆盖冷热分层数据。"));
    assert_eq!(b.lines().count(), 8);
}

#[test]
fn peers_are_trimmed_and_filtered() {
    let raw = vec![
        " http://a:8091/ ".to_string(),
        "".to_string(),
        "   ".to_string(),
        "http://b:8091//".to_string(),
        "/".to_string(),
        "http://c".to_string(),
    ];
    assert_eq!(sanitize_peers(raw), vec!["http://a:8091", "http://b:8091", "http://c"]);
}

fn s(x: &str) -> Option<String> {
    Some(x.to_string())
}

#[test]
fn domain_command_flow() {
    let mut snap = StateSnapshot::initial();
    let r = run_domain(
        &mut snap,
        DomainAction::Register,
        s("alice"),
        s("local.jiamiseo.com"),
        s("deploy-000003"),
        Some(300),
        s("nebula-x"),
    );
    match r {
        Ok(DomainOutcome::Saved(m)) => assert_eq!(
            m,
            "registered domain=local.jiamiseo.com owner=alice deployment=deploy-000003 ttl=300s"
        ),
        _ => panic!("register failed"),
    }
    match run_domain(&mut snap, DomainAction::Resolve, None, s("local.jiamiseo.com"), None, None, None) {
        Ok(DomainOutcome::Resolve(d)) => assert_eq!(d, "local.jiamiseo.com"),
        _ => panic!("resolve failed"),
    }
    assert!(matches!(
        run_domain(&mut snap, DomainAction::List, None, None, None, None, None),
        Ok(DomainOutcome::List)
    ));
    match run_domain(&mut snap, DomainAction::Renew, s("alice"), s("local.jiamiseo.com"), None, Some(600), None) {
        Ok(DomainOutcome::Saved(m)) => assert!(m.starts_with("renewed domain=local.jiamiseo.com owner=alice new_expiry=")),
        _ => panic!("renew failed"),
    }
    match run_domain(&mut snap, DomainAction::Delete, s("alice"), s("local.jiamiseo.com"), None, None, None) {
        Ok(DomainOutcome::Saved(m)) => assert_eq!(m, "deleted domain=local.jiamiseo.com owner=alice"),
        _ => panic!("delete failed"),
    }
    assert_eq!(snap.domains.len(), 0);
}

#[test]
fn domain_command_missing_arguments() {
    let mut snap = StateSnapshot::initial();
    let err = |r: Result<DomainOutcome, String>| match r {
        Err(e) => e,
        Ok(_) => panic!("expected an error"),
    };
    assert_eq!(
        err(run_domain(&mut snap, DomainAction::Register, None, s("a.io"), s("d"), Some(60), s("id"))),
        "missing required --owner"
    );
    assert_eq!(
        err(run_domain(&mut snap, DomainAction::Register, s("o"), s("a.io"), None, Some(60), s("id"))),
        "missing required --deployment"
    );
    assert_eq!(
        err(run_domain(&mut snap, DomainAction::Register, s("o"), s("a.io"), s("d"), None, s("id"))),
        "missing required --ttl"
    );
    assert_eq!(
        err(run_domain(&mut snap, DomainAction::Resolve, None, None, None, None, None)),
        "missing required --domain"
    );
    assert_eq!(
        err(run_domain(&mut snap, DomainAction::Renew, s("o"), s("a.io"), None, None, None)),
        "missing required --ttl"
    );
    assert_eq!(
        err(run_domain(&mut snap, DomainAction::Delete, s("o"), None, None, None, None)),
        "missing required --domain"
    );
    assert_eq!(
        err(run_domain(&mut snap, DomainAction::Delete, s("o"), s("a.io"), None, None, None)),
        "domain not found: a.io"
    );
    assert_eq!(snap.domains.len(), 0);
}
