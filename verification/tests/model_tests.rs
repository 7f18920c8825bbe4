use decentralized_storage::model::{
    format_data_id, generate_content_hash, generate_content_hash_bytes, hex_encode, StateSnapshot,
};

#[test]
fn content_hashes_are_sha256_hex() {
    assert_eq!(
        generate_content_hash("abc"),
        "ba7816bf8f01cfea414140de5dae2223b00361a396177a9cb410ff61f20015ad"
    );
    assert_eq!(
        generate_content_hash(""),
        "e3b0c44298fc1c149afbf4c8996fb92427ae41e4649b934ca495991b7852b855"
    );
    assert_eq!(generate_content_hash_bytes(b"abc"), generate_content_hash("abc"));
}

#[test]
fn hex_of_bytes() {
    assert_eq!(hex_encode(&[0, 1, 0xab, 0xff]), "0001abff");
    assert_eq!(hex_encode(&[]), "");
}

#[test]
fn data_ids_follow_the_layout() {
    let ts: u64 = 1_700_000_000_123;
    let seq: u64 = 42;
    let pid: u64 = 4242;
    let entropy = ts.rotate_left(13) ^ seq.rotate_left(7) ^ pid;
    let expected = format!("nebula-{:013x}{:06x}{:06x}", ts, seq & 0xFF_FFFF, entropy & 0xFF_FFFF);
    assert_eq!(format_data_id(ts, seq, pid), expected);
    assert_eq!(format_data_id(0, 0, 0), "nebula-0000000000000000000000000");
    let big = format_data_id(u64::MAX, u64::MAX, u64::MAX);
    assert_eq!(big, format!("nebula-{:013x}{:06x}{:06x}", u64::MAX, 0xFF_FFFF, (u64::MAX ^ u64::MAX ^ u64::MAX) & 0xFF_FFFF));
}

#[test]
fn initial_snapshot() {
    let s = StateSnapshot::initial();
    assert_eq!(s.version, 1);
    assert_eq!(s.updated_at, 0);
    assert_eq!(s.domains.len(), 0);
    let d = StateSnapshot::default();
    assert_eq!(d.version, 1);
}

#[test]
fn data_ids_differ_by_time_or_sequence() {
    let a = format_data_id(1_700_000_000_000, 7, 99);
    let b = format_data_id(1_700_000_000_001, 7, 99);
    let c = format_data_id(1_700_000_000_000, 8, 99);
    assert_ne!(a, b);
    assert_ne!(a, c);
    assert_ne!(b, c);
    // sequence numbers that agree in the low 24 bits may collide within one millisecond
    let d = format_data_id(1_700_000_000_000, 7 + (1 << 24), 99);
    assert_eq!(a.len(), d.len());
}

#[test]
fn data_ids_sort_by_time() {
    let a = format_data_id(1_700_000_000_000, 900, 1);
    let b = format_data_id(1_700_000_000_001, 1, 2);
    let c = format_data_id(1_800_000_000_000, 0, 0);
    assert!(a < b);
    assert!(b < c);
    assert!(format_data_id(15, u64::MAX, 7) < format_data_id(16, 0, 0));
}

#[test]
fn content_hashes_are_64_lower_hex_digits() {
    for text in ["", "abc", "hello world", "数据"] {
        let h = generate_content_hash(text);
        assert_eq!(h.len(), 64);
        assert!(h.chars().all(|c| c.is_ascii_digit() || ('a'..='f').contains(&c)));
        assert_eq!(h, generate_content_hash_bytes(text.as_bytes()));
    }
}

#[test]
fn data_ids_have_a_fixed_shape() {
    let a = format_data_id(1_700_000_000_000, 5, 1234);
    let b = format_data_id(1_700_000_000_123, 6, 1234);
    for id in [&a, &b] {
        assert_eq!(id.len(), 32);
        assert!(id.starts_with("nebula-"));
        assert!(id[7..].chars().all(|c| c.is_ascii_digit() || ('a'..='f').contains(&c)));
    }
    assert_eq!(u64::from_str_radix(&a[7..20], 16).unwrap(), 1_700_000_000_000);
    assert_eq!(u64::from_str_radix(&a[20..26], 16).unwrap(), 5);
    assert!(a[7..20] < b[7..20]);
    assert_ne!(a, b);
}
