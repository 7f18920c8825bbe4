use decentralized_storage::domain_service::record_with_default_policies;
use decentralized_storage::migration::{count_missing_data_ids, migrate_legacy_records};
use decentralized_storage::model::{generate_content_hash, StateSnapshot};

fn legacy(domain: &str, data_id: &str, hash: &str, ctype: &str, link: &str) -> decentralized_storage::model::DomainRecord {
    record_with_default_policies(
        data_id.to_string(),
        hash.to_string(),
        String::new(),
        ctype.to_string(),
        link.to_string(),
        domain.to_string(),
        "alice".to_string(),
        "dep".to_string(),
        77,
        777,
    )
}

#[test]
fn older_records_are_completed_in_key_order() {
    let mut s = StateSnapshot::initial();
    s.domains.insert("b.io".to_string(), legacy("b.io", "", "", "", ""));
    s.domains.insert("a.io".to_string(), legacy("a.io", "", "h-a", "text/plain", "x"));
    s.domains.insert("c.io".to_string(), legacy("c.io", "id-c", "h-c", "image/png", "u"));
    assert_eq!(count_missing_data_ids(&s), 2);
    let ids = vec!["fresh-1".to_string(), "fresh-2".to_string()];
    assert!(migrate_legacy_records(&mut s, &ids));
    let a = s.domains.get("a.io").unwrap();
    assert_eq!(a.data_id, "fresh-1");
    assert_eq!(a.content_hash, "h-a");
    assert_eq!(a.content_type, "text/plain");
    let b = s.domains.get("b.io").unwrap();
    assert_eq!(b.data_id, "fresh-2");
    assert_eq!(b.content_hash, generate_content_hash("alice|b.io|dep|77"));
    assert_eq!(b.content_type, "application/json");
    assert_eq!(b.preview_url, "");
    let c = s.domains.get("c.io").unwrap();
    assert_eq!(c.data_id, "id-c");
    assert_eq!(count_missing_data_ids(&s), 0);
}

#[test]
fn complete_records_need_no_rewrite() {
    let mut s = StateSnapshot::initial();
    s.domains.insert("c.io".to_string(), legacy("c.io", "id-c", "h-c", "image/png", "u"));
    assert!(!migrate_legacy_records(&mut s, &Vec::new()));
    // an empty preview link alone still asks for a rewrite
    s.domains.insert("d.io".to_string(), legacy("d.io", "id-d", "h-d", "text/plain", ""));
    assert!(migrate_legacy_records(&mut s, &Vec::new()));
    assert_eq!(s.domains.get("d.io").unwrap().data_id, "id-d");
}
