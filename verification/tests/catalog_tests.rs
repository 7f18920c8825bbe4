use decentralized_storage::catalog::{
    build_data_objects, chain_blocks, find_object, format_bytes_human, lookup_object,
    normalize_size_label,
    parse_file_summary, parse_unsigned_exec, summarize_file_data, ObjectKey,
};
use decentralized_storage::domain_service::register_at;
use decentralized_storage::model::StateSnapshot;
use decentralized_storage::uploads::store_uploaded_object;

/// The size formatting of the service, written with floating point.
fn float_reference(size_bytes: u64) -> String {
    const UNITS: [&str; 5] = ["B", "KB", "MB", "GB", "TB"];
    let mut size = size_bytes as f64;
    let mut idx = 0usize;
    while size >= 1024.0 && idx < UNITS.len() - 1 {
        size /= 1024.0;
        idx += 1;
    }
    if idx == 0 {
        format!("{} {}", size_bytes, UNITS[idx])
    } else {
        format!("{:.2} {}", size, UNITS[idx])
    }
}

#[test]
fn human_sizes_exact_values() {
    assert_eq!(format_bytes_human(0), "0 B");
    assert_eq!(format_bytes_human(1023), "1023 B");
    assert_eq!(format_bytes_human(1024), "1.00 KB");
    assert_eq!(format_bytes_human(1536), "1.50 KB");
    assert_eq!(format_bytes_human(1_048_575), "1024.00 KB");
    assert_eq!(format_bytes_human(1_048_576), "1.00 MB");
    assert_eq!(format_bytes_human(5 * 1024 * 1024 * 1024), "5.00 GB");
    assert_eq!(format_bytes_human(1u64 << 40), "1.00 TB");
    assert_eq!(format_bytes_human(u64::MAX), "16777216.00 TB");
    // a tie at the second decimal rounds to even: 1152 / 1024 = 1.125
    assert_eq!(format_bytes_human(1152), "1.12 KB");
}

#[test]
fn human_sizes_match_float_formatting() {
    for n in 0..70_000u64 {
        assert_eq!(format_bytes_human(n), float_reference(n), "n = {}", n);
    }
    let mut x: u64 = 0x9E37_79B9_7F4A_7C15;
    for _ in 0..200_000 {
        x = x.wrapping_mul(6364136223846793005).wrapping_add(1442695040888963407);
        let shift = (x >> 58) as u32;
        let n = x >> shift;
        assert_eq!(format_bytes_human(n), float_reference(n), "n = {}", n);
    }
    for e in 0..64u32 {
        for d in [0u64, 1, 2, 3, 511, 512, 513, 1023, 1024, 1025] {
            let base = 1u64 << e;
            for n in [base.wrapping_sub(d), base.wrapping_add(d)] {
                assert_eq!(format_bytes_human(n), float_reference(n), "n = {}", n);
            }
        }
    }
    for n in [u64::MAX, u64::MAX - 1, u64::MAX - 1024, (1u64 << 53) + 1, (1u64 << 54) + 2, (1u64 << 54) + 6] {
        assert_eq!(format_bytes_human(n), float_reference(n), "n = {}", n);
    }
}

#[test]
fn unsigned_parsing_follows_std() {
    for s in ["0", "42", "+7", "18446744073709551615", "0007"] {
        let cs: Vec<char> = s.chars().collect();
        assert_eq!(parse_unsigned_exec(&cs), s.parse::<u64>().ok(), "{}", s);
    }
    for s in ["", "+", "-1", "1 ", " 1", "18446744073709551616", "1.5", "abc", "++1"] {
        let cs: Vec<char> = s.chars().collect();
        assert_eq!(parse_unsigned_exec(&cs), None, "{:?}", s);
        assert!(s.parse::<u64>().is_err());
    }
}

#[test]
fn size_labels_in_bytes_become_human() {
    assert_eq!(normalize_size_label("2048 bytes"), "2.00 KB");
    assert_eq!(normalize_size_label("2048 BYTES"), "2.00 KB");
    assert_eq!(normalize_size_label("  12 bytes"), "12 B");
    assert_eq!(normalize_size_label("+5 Bytes"), "5 B");
    assert_eq!(normalize_size_label("abc bytes"), "abc bytes");
    assert_eq!(normalize_size_label("-5 bytes"), "-5 bytes");
    assert_eq!(normalize_size_label("99999999999999999999 bytes"), "99999999999999999999 bytes");
    assert_eq!(normalize_size_label("1.50 KB"), "1.50 KB");
    assert_eq!(normalize_size_label("bytes"), "bytes");
}

#[test]
fn text_file_summary() {
    let s = summarize_file_data("notes.txt", 11, Some("text/plain"), b"hello\nworld");
    assert_eq!(s, "文件: notes.txt | 大小: 11 B | 类型: text/plain | 文本预览: hello world");
    let s = summarize_file_data("a.txt", 5, Some("text/plain"), b"hi\nyo");
    assert_eq!(s, "文件: a.txt | 大小: 5 B | 类型: text/plain | 文本预览: hi yo");
    let long = "x".repeat(100);
    let s = summarize_file_data("long.json", 100, Some("application/json"), long.as_bytes());
    assert_eq!(
        s,
        format!("文件: long.json | 大小: 100 B | 类型: application/json | 文本预览: {}...", "x".repeat(72))
    );
    let s = summarize_file_data("bad.txt", 2, Some("text/plain"), &[0xff, b'a']);
    assert_eq!(s, "文件: bad.txt | 大小: 2 B | 类型: text/plain | 文本预览: \u{FFFD}a");
}

#[test]
fn binary_and_media_summaries_get_the_binary_note() {
    let s = summarize_file_data("a.bin", 2048, None, &[0, 1]);
    assert_eq!(s, "文件: a.bin | 大小: 2.00 KB | 类型: application/octet-stream | 二进制内容不展示文本预览");
    let s = summarize_file_data("a.bin", 3, Some("   "), &[0, 1, 2]);
    assert_eq!(s, "文件: a.bin | 大小: 3 B | 类型: application/octet-stream | 二进制内容不展示文本预览");
    let s = summarize_file_data("p.jpg", 10, Some(" image/jpeg "), &[1, 2]);
    assert_eq!(s, "文件: p.jpg | 大小: 10 B | 类型: image/jpeg | 二进制内容不展示文本预览");
    let s = summarize_file_data("v.mp4", 4, Some("video/mp4"), &[0, 0, 0, 1]);
    assert_eq!(s, "文件: v.mp4 | 大小: 4 B | 类型: video/mp4 | 二进制内容不展示文本预览");
    let s = summarize_file_data("x.bin", 2048, None, &[0u8; 2048]);
    assert_eq!(s, "文件: x.bin | 大小: 2.00 KB | 类型: application/octet-stream | 二进制内容不展示文本预览");
}

#[test]
fn summaries_read_back() {
    let s = summarize_file_data("notes.txt", 11, Some("text/plain"), b"hello\nworld");
    let m = parse_file_summary(&s).unwrap();
    assert_eq!(m.file_name, "notes.txt");
    assert_eq!(m.file_size, "11 B");
    assert_eq!(m.file_type, "text/plain");
    assert_eq!(m.file_preview, "hello world");

    let s = summarize_file_data("a.bin", 2048, None, &[0, 1]);
    let m = parse_file_summary(&s).unwrap();
    assert_eq!(m.file_size, "2.00 KB");
    assert_eq!(m.file_type, "application/octet-stream");
    assert_eq!(m.file_preview, "二进制内容不展示文本预览");

    let s = summarize_file_data("p.jpg", 10, Some("image/png"), &[1]);
    let m = parse_file_summary(&s).unwrap();
    assert_eq!(m.file_name, "p.jpg");
    assert_eq!(m.file_preview, "二进制内容不展示文本预览");
}

#[test]
fn legacy_and_foreign_summaries() {
    let m = parse_file_summary("文件: old.csv | 大小: 2048 bytes | 类型: text/csv").unwrap();
    assert_eq!(m.file_name, "old.csv");
    assert_eq!(m.file_size, "2.00 KB");
    assert_eq!(m.file_type, "text/csv");
    assert_eq!(m.file_preview, "");
    assert!(parse_file_summary("application/json | 内容摘要: {}").is_none());
    assert!(parse_file_summary("文件:  | 大小:  | 类型: ").is_none());
    let m = parse_file_summary("文件: x | 类型: a | 类型: b").unwrap();
    assert_eq!(m.file_type, "b");
}

fn catalogue_snapshot() -> StateSnapshot {
    let mut s = StateSnapshot::initial();
    register_at(&mut s, "alice", "api.example.com", "prod", 600, 100, "id-domain".to_string()).unwrap();
    let desc = summarize_file_data("p.jpg", 10, Some("image/jpeg"), &[1, 2]);
    store_uploaded_object(
        &mut s,
        "bob",
        "photos",
        "nebula-0000000000001000001abcdef",
        "hash-photo".to_string(),
        "image/jpeg",
        Some("data:image/jpeg;base64,AQI="),
        desc,
        200,
    );
    store_uploaded_object(
        &mut s,
        "carol",
        "notes",
        "nebula-0000000000002000002fedcba",
        "hash-note".to_string(),
        "application/json",
        None,
        "application/json | 内容摘要: {\"k\":1}".to_string(),
        300,
    );
    s
}

#[test]
fn object_catalogue_views() {
    let s = catalogue_snapshot();
    let objs = build_data_objects(&s);
    assert_eq!(objs.len(), 3);
    // key order: "001abcdef.data...", "002fedcba.data...", "api.example.com"
    let photo = &objs[0];
    assert_eq!(photo.data_id, "nebula-0000000000001000001abcdef");
    assert_eq!(photo.content_type, "image/jpeg");
    assert_eq!(photo.preview_url.as_deref(), Some("data:image/jpeg;base64,AQI="));
    assert_eq!(photo.file_name.as_deref(), Some("p.jpg"));
    assert_eq!(photo.file_size.as_deref(), Some("10 B"));
    assert_eq!(photo.file_type.as_deref(), Some("image/jpeg"));
    assert_eq!(photo.file_preview.as_deref(), Some("二进制内容不展示文本预览"));
    assert_eq!(photo.owner, "bob");
    assert_eq!(photo.deployment, "photos");
    assert_eq!(photo.created_at, 200);
    assert_eq!(photo.expires_at, 200 + 31_536_000);
    assert_eq!(photo.target_p95_ms, 120);
    assert_eq!(photo.min_replicas, 5);
    assert_eq!(photo.node_clusters.len(), 3);

    let note = &objs[1];
    assert_eq!(note.stored_data, "{\"k\":1}");
    assert_eq!(note.preview_url, None);
    assert_eq!(note.file_name, None);
    assert_eq!(note.file_preview, None);

    let dom = &objs[2];
    assert_eq!(dom.data_id, "id-domain");
    assert_eq!(dom.content_type, "application/json");
    assert_eq!(dom.stored_data, "API 索引、请求日志与检索元数据");
}

#[test]
fn media_with_a_link_shows_the_hint_unless_binary() {
    let mut s = StateSnapshot::initial();
    // a payload upload labelled as an image, with a preview link: the hint
    store_uploaded_object(
        &mut s,
        "erin",
        "pics",
        "nebula-0000000000004000004bbbbbb",
        "hash-pic".to_string(),
        "image/png",
        Some("https://example.com/p.png"),
        "{\"caption\":\"sunset\"}".to_string(),
        500,
    );
    // a binary file upload of an image: the binary note from its summary
    let desc = summarize_file_data("q.png", 3, Some("image/png"), &[1, 2, 3]);
    store_uploaded_object(
        &mut s,
        "erin",
        "pics",
        "nebula-0000000000005000005cccccc",
        "hash-file".to_string(),
        "image/png",
        Some("data:image/png;base64,AQID"),
        desc,
        600,
    );
    // an image without a link: no hint
    store_uploaded_object(
        &mut s,
        "erin",
        "pics",
        "nebula-0000000000006000006dddddd",
        "hash-nolink".to_string(),
        "image/png",
        None,
        "raw".to_string(),
        700,
    );
    let a = lookup_object(&s, ObjectKey::ContentHash, "hash-pic").unwrap();
    assert_eq!(a.file_preview.as_deref(), Some("可预览媒体（详情中查看）"));
    let b = lookup_object(&s, ObjectKey::ContentHash, "hash-file").unwrap();
    assert_eq!(b.file_preview.as_deref(), Some("二进制内容不展示文本预览"));
    let c = lookup_object(&s, ObjectKey::ContentHash, "hash-nolink").unwrap();
    assert_eq!(c.file_preview, None);
}

#[test]
fn lookups_agree_with_the_list() {
    let s = catalogue_snapshot();
    let v = find_object(build_data_objects(&s), ObjectKey::DataId, "id-domain").unwrap();
    assert_eq!(v.owner, "alice");
    let v = find_object(build_data_objects(&s), ObjectKey::ContentHash, "hash-note").unwrap();
    assert_eq!(v.data_id, "nebula-0000000000002000002fedcba");
    assert!(find_object(build_data_objects(&s), ObjectKey::DataId, "nope").is_none());
    assert!(find_object(build_data_objects(&s), ObjectKey::ContentHash, "id-domain").is_none());
}

#[test]
fn uploads_are_found_again() {
    let mut s = catalogue_snapshot();
    store_uploaded_object(
        &mut s,
        "dave",
        "logs",
        "nebula-0000000000003000003aaaaaa",
        "hash-logs".to_string(),
        "text/plain",
        None,
        "text/plain | 内容摘要: hello".to_string(),
        400,
    );
    let v = lookup_object(&s, ObjectKey::DataId, "nebula-0000000000003000003aaaaaa").unwrap();
    assert_eq!(v.owner, "dave");
    assert_eq!(v.deployment, "logs");
    assert_eq!(v.content_hash, "hash-logs");
    assert_eq!(v.created_at, 400);
    assert_eq!(v.target_p95_ms, 120);
    let v = lookup_object(&s, ObjectKey::ContentHash, "hash-logs").unwrap();
    assert_eq!(v.data_id, "nebula-0000000000003000003aaaaaa");
    assert!(lookup_object(&s, ObjectKey::DataId, "hash-logs").is_none());
    assert!(lookup_object(&s, ObjectKey::ContentHash, "missing").is_none());
}

#[test]
fn recent_blocks() {
    let s = catalogue_snapshot();
    let blocks = chain_blocks(&s);
    assert_eq!(blocks.len(), 4);
    assert_eq!(blocks[0].height, 0);
    assert_eq!(blocks[0].block_id, "nebula-genesis-00000000");
    assert_eq!(blocks[0].timestamp, 300);
    assert_eq!(blocks[0].tx_count, 1);
    assert_eq!(blocks[0].source, None);
    assert_eq!(blocks[0].status, "finalized");
    assert_eq!(blocks[1].height, 3);
    assert_eq!(blocks[1].block_id, "nebula-00000003");
    assert_eq!(blocks[1].source, Some(2));
    assert_eq!(blocks[1].timestamp, 100);
    assert_eq!(blocks[1].tx_count, 15);
    assert_eq!(blocks[3].height, 1);
    assert_eq!(blocks[3].source, Some(0));

    let mut big = StateSnapshot::initial();
    for i in 0..25u64 {
        register_at(&mut big, "o", &format!("d{:02}.io", i), "x", 60, i, format!("id{}", i)).unwrap();
    }
    let blocks = chain_blocks(&big);
    assert_eq!(blocks.len(), 20);
    assert_eq!(blocks[1].height, 25);
    assert_eq!(blocks[1].block_id, "nebula-00000019");
    assert_eq!(blocks[19].height, 7);
}
