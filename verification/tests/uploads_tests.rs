use base64::Engine;
use decentralized_storage::model::StateSnapshot;
use decentralized_storage::uploads::{
    build_preview_url_for_media, file_content_type, infer_stored_data, payload_content_type, is_blank, is_media_content_type,
    is_textual_content_type, normalize_stored_data_content, object_domain, store_uploaded_object,
    summarize_uploaded_data, tuned_p95_ms, validate_chunk_init, validate_file_upload,
    validate_upload_request, ChunkStep, ChunkUploadSession,
};

#[test]
fn content_type_classes() {
    assert!(is_textual_content_type("text/plain"));
    assert!(is_textual_content_type("Application/JSON"));
    assert!(is_textual_content_type("application/xml"));
    assert!(is_textual_content_type("application/x-yaml"));
    assert!(is_textual_content_type("application/javascript"));
    assert!(is_textual_content_type("application/typescript"));
    assert!(!is_textual_content_type("image/png"));
    assert!(!is_textual_content_type("application/octet-stream"));
    assert!(is_media_content_type("IMAGE/jpeg"));
    assert!(is_media_content_type("video/mp4"));
    assert!(!is_media_content_type("audio/mpeg"));
    assert!(!is_media_content_type(" image/png"));
}

#[test]
fn latency_target_follows_catalogue_size() {
    assert_eq!(tuned_p95_ms(900, 3), 120);
    assert_eq!(tuned_p95_ms(50, 3), 80);
    assert_eq!(tuned_p95_ms(900, 11), 180);
    assert_eq!(tuned_p95_ms(900, 100), 180);
    assert_eq!(tuned_p95_ms(900, 101), 260);
    assert_eq!(tuned_p95_ms(900, 1000), 260);
    assert_eq!(tuned_p95_ms(900, 1001), 900);
    assert_eq!(tuned_p95_ms(5000, 5000), 1500);
    assert_eq!(tuned_p95_ms(10, 5000), 80);
}

#[test]
fn stored_content_guesses() {
    assert_eq!(infer_stored_data("API.example.com", "prod"), "API 索引、请求日志与检索元数据");
    assert_eq!(infer_stored_data("x.io", "cold-ARCHIVE"), "冷归档分片、审计轨迹与长期备份数据");
    assert_eq!(infer_stored_data("mail.io", "d"), "模型权重、推理输入输出缓存与结果快照");
    assert_eq!(infer_stored_data("x.io", "model-v2"), "模型权重、推理输入输出缓存与结果快照");
    assert_eq!(infer_stored_data("img.io", "image-cdn"), "多媒体对象、缩略图索引与访问统计数据");
    assert_eq!(infer_stored_data("x.io", "d"), "业务对象数据、路由索引与治理元信息");
}

#[test]
fn legacy_descriptions_are_unwrapped() {
    assert_eq!(normalize_stored_data_content("application/json | 内容摘要: {\"a\":1}"), "{\"a\":1}");
    assert_eq!(normalize_stored_data_content("plain"), "plain");
    assert_eq!(summarize_uploaded_data("payload", Some("text/plain")), "payload");
    assert_eq!(summarize_uploaded_data("payload", None), "payload");
}

#[test]
fn upload_request_checks() {
    assert!(is_blank(" \t\n"));
    assert!(!is_blank(" a "));
    assert!(validate_upload_request("alice", "ds", "x").is_ok());
    assert_eq!(
        validate_upload_request("alice", " ", "x").unwrap_err(),
        "owner/data_name/content must not be empty"
    );
    assert!(validate_file_upload("alice", "ds", 1).is_ok());
    assert_eq!(
        validate_file_upload("alice", "ds", 0).unwrap_err(),
        "owner/data_name/file must not be empty"
    );
    assert!(validate_chunk_init("a", "b", "c", 1).is_ok());
    assert!(validate_chunk_init("a", "b", "c", 100_000).is_ok());
    assert_eq!(
        validate_chunk_init("a", "", "c", 1).unwrap_err(),
        "owner/data_name/file_name must not be empty"
    );
    assert_eq!(validate_chunk_init("a", "b", "c", 0).unwrap_err(), "total_chunks must be in 1..=100000");
    assert_eq!(
        validate_chunk_init("a", "b", "c", 100_001).unwrap_err(),
        "total_chunks must be in 1..=100000"
    );
}

#[test]
fn chunks_arrive_in_order() {
    let mut s = ChunkUploadSession::new(" alice ", "data", " f.bin", None, 3, "/tmp/u.part".to_string());
    assert_eq!(s.owner(), "alice");
    assert_eq!(s.file_name(), "f.bin");
    assert_eq!(s.temp_path(), "/tmp/u.part");
    assert_eq!(s.total_chunks(), 3);
    assert!(matches!(s.prepare_chunk(3, "AQI="), ChunkStep::OutOfRange));
    assert!(matches!(s.prepare_chunk(1, "AQI="), ChunkStep::OrderMismatch(0)));
    assert!(matches!(s.prepare_chunk(0, "not base64!"), ChunkStep::DecodeFailed));
    match s.prepare_chunk(0, "AQI=") {
        ChunkStep::Append(bytes) => assert_eq!(bytes, vec![1, 2]),
        _ => panic!("chunk 0 should be accepted"),
    }
    s.record_chunk();
    assert_eq!(s.received_count(), 1);
    assert!(matches!(s.prepare_chunk(0, "AQI="), ChunkStep::AlreadyUploaded));
    assert!(matches!(s.prepare_chunk(2, "AQI="), ChunkStep::OrderMismatch(1)));
    assert!(!s.is_complete());
    s.record_chunk();
    s.record_chunk();
    assert!(s.is_complete());
    assert_eq!(s.received_count(), 3);
}

#[test]
fn media_previews_are_inline_data() {
    assert_eq!(
        build_preview_url_for_media(Some(" Image/PNG "), &[1, 2]).as_deref(),
        Some("data:image/png;base64,AQI=")
    );
    assert_eq!(
        build_preview_url_for_media(Some("video/mp4"), b"hello").as_deref(),
        Some("data:video/mp4;base64,aGVsbG8=")
    );
    assert_eq!(build_preview_url_for_media(Some("text/plain"), &[1]), None);
    assert_eq!(build_preview_url_for_media(None, &[1]), None);
    let big = vec![0u8; 8 * 1024 * 1024 + 1];
    assert_eq!(build_preview_url_for_media(Some("image/png"), &big), None);
    let limit = vec![0u8; 8 * 1024 * 1024];
    assert!(build_preview_url_for_media(Some("image/png"), &limit).is_some());
}

#[test]
fn object_domains_use_the_id_tail() {
    assert_eq!(object_domain("nebula-0123456789abcdef"), "456789abcdef.data.nebula.local");
    assert_eq!(object_domain("short"), "short.data.nebula.local");
}

#[test]
fn storing_an_upload() {
    let mut s = StateSnapshot::initial();
    let d = store_uploaded_object(
        &mut s,
        "alice",
        "dataset",
        "nebula-0123456789abcdef",
        "h".to_string(),
        "text/plain",
        None,
        "payload".to_string(),
        1_000,
    );
    assert_eq!(d, "456789abcdef.data.nebula.local");
    assert_eq!(s.updated_at, 1_000);
    let r = s.domains.get(&d).unwrap();
    assert_eq!(r.data_id, "nebula-0123456789abcdef");
    assert_eq!(r.owner, "alice");
    assert_eq!(r.deployment, "dataset");
    assert_eq!(r.content_type, "text/plain");
    assert_eq!(r.preview_url, "");
    assert_eq!(r.stored_data_desc, "payload");
    assert_eq!(r.expires_at, 1_000 + 31_536_000);
    assert_eq!(r.durability_profile.min_replicas, 5);
}

#[test]
fn media_previews_match_the_standard_base64_engine() {
    let mut data: Vec<u8> = Vec::new();
    for n in 0..300usize {
        let url = build_preview_url_for_media(Some("image/png"), &data).unwrap();
        let expected = format!(
            "data:image/png;base64,{}",
            base64::engine::general_purpose::STANDARD.encode(&data)
        );
        assert_eq!(url, expected);
        data.push((n * 37 % 256) as u8);
    }
}

#[test]
fn default_content_types() {
    assert_eq!(file_content_type(None), "application/octet-stream");
    assert_eq!(file_content_type(Some(" image/png")), " image/png");
    assert_eq!(payload_content_type(None), "application/json");
    assert_eq!(payload_content_type(Some("text/plain")), "text/plain");
}

#[test]
fn chunk_text_must_be_canonical_base64() {
    let s = ChunkUploadSession::new("a", "d", "f", None, 2, "/tmp/x".to_string());
    for good in ["", "AQI=", "aGVsbG8=", "AAAA"] {
        assert!(matches!(s.prepare_chunk(0, good), ChunkStep::Append(_)), "{}", good);
    }
    // missing padding, stray trailing bits, whitespace, padding in the middle
    for bad in ["AQI", "AQJ=", "AQ I=", "A=QI", "AQ==AQ=="] {
        assert!(matches!(s.prepare_chunk(0, bad), ChunkStep::DecodeFailed), "{}", bad);
    }
    match s.prepare_chunk(0, "aGVsbG8=") {
        ChunkStep::Append(bytes) => assert_eq!(bytes, b"hello".to_vec()),
        _ => panic!("expected bytes"),
    }
}
