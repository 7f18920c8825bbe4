use base64::engine::general_purpose::STANDARD;
use base64::Engine;
use std::collections::HashSet;
use vstd::prelude::*;
use vstd::string::StringSliceAdditionalSpecFns;
use vstd::utf8::encode_utf8;

use crate::domain_service::{has_default_policies, record_with_default_policies, sat_add};
use crate::model::{DomainRecord, StateSnapshot};
use crate::text::{
    ascii_lower, ascii_lower_exec, chars_of, concat2, contains_exec, contains_text, extend_chars,
    extend_str, split_once, split_once_exec, starts_with, starts_with_exec, str_trim,
    string_from_chars, trim,
};

verus! {

broadcast use vstd::std_specs::hash::group_hash_axioms;

// ---------------------------------------------------------------------------
// Content types
// ---------------------------------------------------------------------------

/// Content types shown as text: `text/*` and anything naming JSON, XML,
/// YAML, JavaScript or TypeScript (case-insensitive).
pub open spec fn is_textual(ct: Seq<char>) -> bool {
    let l = ascii_lower(ct);
    starts_with(l, "text/"@) || contains_text(l, "json"@) || contains_text(l, "xml"@)
        || contains_text(l, "yaml"@) || contains_text(l, "javascript"@) || contains_text(
        l,
        "typescript"@,
    )
}

/// Content types that can be previewed as media: `image/*` and `video/*`
/// (case-insensitive).
pub open spec fn is_media(ct: Seq<char>) -> bool {
    let l = ascii_lower(ct);
    starts_with(l, "image/"@) || starts_with(l, "video/"@)
}

fn has(s: &[char], t: &str) -> (r: bool)
    ensures
        r == contains_text(s@, t@),
{
    let p = chars_of(t);
    contains_exec(s, p.as_slice())
}

fn begins(s: &[char], t: &str) -> (r: bool)
    ensures
        r == starts_with(s@, t@),
{
    let p = chars_of(t);
    starts_with_exec(s, p.as_slice())
}

/// Whether content of this type is shown as text.
pub fn is_textual_content_type(content_type: &str) -> (r: bool)
    ensures
        r == is_textual(content_type@),
{
    let c = chars_of(content_type);
    let l = ascii_lower_exec(c.as_slice());
    let l = l.as_slice();
    begins(l, "text/") || has(l, "json") || has(l, "xml") || has(l, "yaml") || has(l, "javascript")
        || has(l, "typescript")
}

/// Whether content of this type is an image or a video.
pub fn is_media_content_type(content_type: &str) -> (r: bool)
    ensures
        r == is_media(content_type@),
{
    let c = chars_of(content_type);
    let l = ascii_lower_exec(c.as_slice());
    begins(l.as_slice(), "image/") || begins(l.as_slice(), "video/")
}

// ---------------------------------------------------------------------------
// Object presentation rules
// ---------------------------------------------------------------------------

/// The latency target shown for an object: the configured target kept within
/// [80, 1500] ms, then capped by catalogue size: 120 ms up to 10 objects,
/// 180 ms up to 100, 260 ms up to 1000.
pub open spec fn tuned_p95(configured_ms: u64, object_count: nat) -> u64 {
    let base: u64 = if configured_ms < 80 {
        80
    } else if configured_ms > 1500 {
        1500
    } else {
        configured_ms
    };
    let cap: u64 = if object_count <= 10 {
        120
    } else if object_count <= 100 {
        180
    } else if object_count <= 1000 {
        260
    } else {
        base
    };
    if base < cap { base } else { cap }
}

/// Tunes the latency target: the smaller the catalogue, the lower the target.
pub fn tuned_p95_ms(configured_ms: u64, object_count: usize) -> (r: u64)
    ensures
        r == tuned_p95(configured_ms, object_count as nat),
{
    let base: u64 = if configured_ms < 80 {
        80
    } else if configured_ms > 1500 {
        1500
    } else {
        configured_ms
    };
    let cap: u64 = if object_count <= 10 {
        120
    } else if object_count <= 100 {
        180
    } else if object_count <= 1000 {
        260
    } else {
        base
    };
    if base < cap {
        base
    } else {
        cap
    }
}

/// The latency target shown is always within [80, 1500] ms, and small
/// catalogues get low targets: at most 120 ms up to 10 objects, 180 ms up to
/// 100 and 260 ms up to 1000.
pub proof fn law_tuned_target_bounds(configured_ms: u64, object_count: nat)
    ensures
        80 <= tuned_p95(configured_ms, object_count) <= 1500,
        object_count <= 10 ==> tuned_p95(configured_ms, object_count) <= 120,
        object_count <= 100 ==> tuned_p95(configured_ms, object_count) <= 180,
        object_count <= 1000 ==> tuned_p95(configured_ms, object_count) <= 260,
        tuned_p95(configured_ms, object_count) <= configured_ms || configured_ms < 80,
{
}

/// What a record without a stored description most likely holds, guessed
/// from keywords in its domain and deployment (case-insensitive).
pub open spec fn inferred_content(domain: Seq<char>, deployment: Seq<char>) -> Seq<char> {
    let key = ascii_lower(domain) + " "@ + ascii_lower(deployment);
    if contains_text(key, "api"@) {
        "API 索引、请求日志与检索元数据"@
    } else if contains_text(key, "archive"@) {
        "冷归档分片、审计轨迹与长期备份数据"@
    } else if contains_text(key, "ai"@) || contains_text(key, "model"@) {
        "模型权重、推理输入输出缓存与结果快照"@
    } else if contains_text(key, "media"@) || contains_text(key, "image"@) || contains_text(
        key,
        "video"@,
    ) {
        "多媒体对象、缩略图索引与访问统计数据"@
    } else {
        "业务对象数据、路由索引与治理元信息"@
    }
}

/// Describes what a record stores when it carries no description.
pub fn infer_stored_data(domain: &str, deployment: &str) -> (r: String)
    ensures
        r@ == inferred_content(domain@, deployment@),
{
    let d = chars_of(domain);
    let p = chars_of(deployment);
    let mut key = ascii_lower_exec(d.as_slice());
    extend_str(&mut key, " ");
    let lp = ascii_lower_exec(p.as_slice());
    extend_chars(&mut key, lp.as_slice());
    let k = key.as_slice();
    if has(k, "api") {
        String::from_str("API 索引、请求日志与检索元数据")
    } else if has(k, "archive") {
        String::from_str("冷归档分片、审计轨迹与长期备份数据")
    } else if has(k, "ai") || has(k, "model") {
        String::from_str("模型权重、推理输入输出缓存与结果快照")
    } else if has(k, "media") || has(k, "image") || has(k, "video") {
        String::from_str("多媒体对象、缩略图索引与访问统计数据")
    } else {
        String::from_str("业务对象数据、路由索引与治理元信息")
    }
}

/// The stored content of an old-style description
/// `"<type> | 内容摘要: <content>"` is what follows the marker; other
/// descriptions are their own content.
pub open spec fn normalized_content(raw: Seq<char>) -> Seq<char> {
    match split_once(raw, " | 内容摘要: "@) {
        Some((_, summary)) => summary,
        None => raw,
    }
}

/// Strips the legacy summary wrapper from a stored description.
pub fn normalize_stored_data_content(raw: &str) -> (r: String)
    ensures
        r@ == normalized_content(raw@),
{
    let c = chars_of(raw);
    let m = chars_of(" | 内容摘要: ");
    match split_once_exec(c.as_slice(), m.as_slice()) {
        Some((_, b)) => string_from_chars(b.as_slice()),
        None => String::from_str(raw),
    }
}

/// A text upload stores its content as given, whatever its type.
pub fn summarize_uploaded_data(content: &str, content_type: Option<&str>) -> (r: String)
    ensures
        r@ == content@,
{
    String::from_str(content)
}

// ---------------------------------------------------------------------------
// Upload requests
// ---------------------------------------------------------------------------

/// Whether a text is empty once trimmed of white space.
pub fn is_blank(s: &str) -> (r: bool)
    ensures
        r == (trim(s@).len() == 0),
{
    let t = str_trim(s);
    t.len() == 0
}

/// Checks a text upload: owner, name and content must not be blank.
pub fn validate_upload_request(owner: &str, data_name: &str, content: &str) -> (r: Result<
    (),
    String,
>)
    ensures
        r is Ok <==> (trim(owner@).len() > 0 && trim(data_name@).len() > 0 && trim(content@).len()
            > 0),
        r matches Err(e) ==> e@ == "owner/data_name/content must not be empty"@,
{
    if is_blank(owner) || is_blank(data_name) || is_blank(content) {
        return Err(String::from_str("owner/data_name/content must not be empty"));
    }
    Ok(())
}

/// Checks a file upload: owner and name must not be blank, the file not empty.
pub fn validate_file_upload(owner: &str, data_name: &str, file_len: usize) -> (r: Result<(), String>)
    ensures
        r is Ok <==> (trim(owner@).len() > 0 && trim(data_name@).len() > 0 && file_len > 0),
        r matches Err(e) ==> e@ == "owner/data_name/file must not be empty"@,
{
    if is_blank(owner) || is_blank(data_name) || file_len == 0 {
        return Err(String::from_str("owner/data_name/file must not be empty"));
    }
    Ok(())
}

/// Checks the opening of a chunked upload: owner, name and file name must
/// not be blank, and there must be between 1 and 100000 chunks.
pub open spec fn chunk_init_error(
    owner: Seq<char>,
    data_name: Seq<char>,
    file_name: Seq<char>,
    total_chunks: u32,
) -> Option<Seq<char>> {
    if trim(owner).len() == 0 || trim(data_name).len() == 0 || trim(file_name).len() == 0 {
        Some("owner/data_name/file_name must not be empty"@)
    } else if total_chunks == 0 || total_chunks > 100_000 {
        Some("total_chunks must be in 1..=100000"@)
    } else {
        None
    }
}

/// Checks the request that opens a chunked upload.
pub fn validate_chunk_init(owner: &str, data_name: &str, file_name: &str, total_chunks: u32) -> (r:
    Result<(), String>)
    ensures
        match r {
            Ok(()) => chunk_init_error(owner@, data_name@, file_name@, total_chunks) is None,
            Err(e) => chunk_init_error(owner@, data_name@, file_name@, total_chunks) == Some(e@),
        },
{
    if is_blank(owner) || is_blank(data_name) || is_blank(file_name) {
        return Err(String::from_str("owner/data_name/file_name must not be empty"));
    }
    if total_chunks == 0 || total_chunks > 100_000 {
        return Err(String::from_str("total_chunks must be in 1..=100000"));
    }
    Ok(())
}

// ---------------------------------------------------------------------------
// Chunked upload sessions
// ---------------------------------------------------------------------------

/// `base64::DecodeError`, the reason a base64 text does not decode.
#[verifier::external_type_specification]
#[verifier::external_body]
pub struct ExDecodeError(base64::DecodeError);

/// `Engine::decode` of the standard engine. That engine requires canonical
/// padding and rejects stray trailing bits, so it accepts exactly the
/// padded base64 texts: the contract says that the bytes it gives encode to
/// `text`, and that it fails only where no bytes encode to `text`.
#[verifier::external_body]
fn decode_base64(text: &[u8]) -> (r: Result<Vec<u8>, base64::DecodeError>)
    ensures
        match r {
            Ok(v) => base64_bytes(v@) == text@,
            Err(_) => forall|d: Seq<u8>| #[trigger] base64_bytes(d) != text@,
        },
{
    STANDARD.decode(text)
}

/// A chunked upload in progress. Chunks arrive in order, so the received
/// chunks are always exactly `0, 1, ..., k - 1` for some `k`.
pub struct ChunkUploadSession {
    owner: String,
    data_name: String,
    file_name: String,
    content_type: Option<String>,
    total_chunks: u32,
    received_chunks: HashSet<u32>,
    temp_path: String,
}

/// What to do with an uploaded chunk.
pub enum ChunkStep {
    /// The index is beyond the announced number of chunks.
    OutOfRange,
    /// The chunk was received before; nothing to write.
    AlreadyUploaded,
    /// Chunks must arrive in order; this is the index expected next.
    OrderMismatch(u32),
    /// The chunk text is not valid base64.
    DecodeFailed,
    /// Append these bytes to the temporary file, then record the chunk.
    Append(Vec<u8>),
}

impl ChunkUploadSession {
    #[verifier::type_invariant]
    spec fn in_order(&self) -> bool {
        &&& self.received_chunks@.finite()
        &&& self.received_chunks@.len() <= self.total_chunks
        &&& forall|x: u32|
            #[trigger] self.received_chunks@.contains(x) <==> (x as nat)
                < self.received_chunks@.len()
    }

    /// Number of chunks received so far.
    pub closed spec fn received(&self) -> nat {
        self.received_chunks@.len()
    }

    /// Number of chunks announced.
    pub closed spec fn total(&self) -> u32 {
        self.total_chunks
    }

    /// The set of received chunk indices.
    pub closed spec fn received_set(&self) -> Set<u32> {
        self.received_chunks@
    }

    pub closed spec fn owner_view(&self) -> Seq<char> {
        self.owner@
    }

    pub closed spec fn data_name_view(&self) -> Seq<char> {
        self.data_name@
    }

    pub closed spec fn file_name_view(&self) -> Seq<char> {
        self.file_name@
    }

    pub closed spec fn temp_path_view(&self) -> Seq<char> {
        self.temp_path@
    }

    /// The content type given when the session was opened.
    pub closed spec fn content_type_value(&self) -> Option<String> {
        self.content_type
    }

    /// Opens a session; owner, name and file name are stored trimmed.
    pub fn new(
        owner: &str,
        data_name: &str,
        file_name: &str,
        content_type: Option<String>,
        total_chunks: u32,
        temp_path: String,
    ) -> (s: Self)
        ensures
            s.received() == 0,
            s.total() == total_chunks,
            s.owner_view() == trim(owner@),
            s.data_name_view() == trim(data_name@),
            s.file_name_view() == trim(file_name@),
            s.temp_path_view() == temp_path@,
            s.content_type_value() == content_type,
    {
        let o = str_trim(owner);
        let d = str_trim(data_name);
        let f = str_trim(file_name);
        ChunkUploadSession {
            owner: string_from_chars(o.as_slice()),
            data_name: string_from_chars(d.as_slice()),
            file_name: string_from_chars(f.as_slice()),
            content_type,
            total_chunks,
            received_chunks: HashSet::new(),
            temp_path,
        }
    }

    /// Received chunk indices are exactly those below the received count.
    pub fn received_count(&self) -> (n: usize)
        ensures
            n == self.received(),
            self.received() <= self.total(),
            forall|x: u32| #[trigger] self.received_set().contains(x) <==> (x as nat) < self.received(),
    {
        proof {
            use_type_invariant(self);
        }
        self.received_chunks.len()
    }

    /// Number of chunks announced.
    pub fn total_chunks(&self) -> (n: u32)
        ensures
            n == self.total(),
    {
        self.total_chunks
    }

    pub fn owner(&self) -> (s: &str)
        ensures
            s@ == self.owner_view(),
    {
        self.owner.as_str()
    }

    pub fn data_name(&self) -> (s: &str)
        ensures
            s@ == self.data_name_view(),
    {
        self.data_name.as_str()
    }

    pub fn file_name(&self) -> (s: &str)
        ensures
            s@ == self.file_name_view(),
    {
        self.file_name.as_str()
    }

    pub fn content_type(&self) -> (c: &Option<String>)
        ensures
            *c == self.content_type_value(),
    {
        &self.content_type
    }

    pub fn temp_path(&self) -> (s: &str)
        ensures
            s@ == self.temp_path_view(),
    {
        self.temp_path.as_str()
    }

    /// Decides what to do with chunk `chunk_index` carrying `chunk_base64`.
    pub fn prepare_chunk(&self, chunk_index: u32, chunk_base64: &str) -> (step: ChunkStep)
        ensures
            match step {
                ChunkStep::OutOfRange => chunk_index >= self.total(),
                ChunkStep::AlreadyUploaded => chunk_index < self.total() && (chunk_index as nat)
                    < self.received(),
                ChunkStep::OrderMismatch(expected) => chunk_index < self.total() && (
                chunk_index as nat) > self.received() && expected == self.received(),
                ChunkStep::DecodeFailed => chunk_index < self.total() && chunk_index
                    == self.received() && forall|d: Seq<u8>| #[trigger] base64_bytes(d)
                    != chunk_base64.spec_bytes(),
                ChunkStep::Append(bytes) => chunk_index < self.total() && chunk_index
                    == self.received() && base64_bytes(bytes@)
                    == chunk_base64.spec_bytes(),
            },
    {
        proof {
            use_type_invariant(self);
        }
        if chunk_index >= self.total_chunks {
            return ChunkStep::OutOfRange;
        }
        if self.received_chunks.contains(&chunk_index) {
            return ChunkStep::AlreadyUploaded;
        }
        let expected = self.received_chunks.len() as u32;
        if chunk_index != expected {
            return ChunkStep::OrderMismatch(expected);
        }
        match decode_base64(chunk_base64.as_bytes()) {
            Ok(bytes) => ChunkStep::Append(bytes),
            Err(_) => ChunkStep::DecodeFailed,
        }
    }

    /// Records that the next chunk has been written.
    pub fn record_chunk(&mut self)
        requires
            old(self).received() < old(self).total(),
        ensures
            final(self).received() == old(self).received() + 1,
            final(self).total() == old(self).total(),
            final(self).received_set() == old(self).received_set().insert(
                old(self).received() as u32,
            ),
            final(self).owner_view() == old(self).owner_view(),
            final(self).data_name_view() == old(self).data_name_view(),
            final(self).file_name_view() == old(self).file_name_view(),
            final(self).temp_path_view() == old(self).temp_path_view(),
            final(self).content_type_value() == old(self).content_type_value(),
    {
        proof {
            use_type_invariant(&*self);
        }
        let k = self.received_chunks.len() as u32;
        let mut set = HashSet::new();
        std::mem::swap(&mut set, &mut self.received_chunks);
        let ghost before = set@;
        set.insert(k);
        proof {
            assert(!before.contains(k));
            assert forall|x: u32| #[trigger] set@.contains(x) <==> (x as nat) < set@.len() by {
                if x == k {
                } else if before.contains(x) {
                }
            }
        }
        self.received_chunks = set;
    }

    /// Whether every announced chunk has arrived.
    pub fn is_complete(&self) -> (r: bool)
        ensures
            r == (self.received() == self.total()),
    {
        self.received_chunks.len() == self.total_chunks as usize
    }
}

// ---------------------------------------------------------------------------
// Uploaded objects
// ---------------------------------------------------------------------------

/// The base64 alphabet of RFC 4648.
pub open spec fn base64_alphabet() -> Seq<char> {
    "ABCDEFGHIJKLMNOPQRSTUVWXYZabcdefghijklmnopqrstuvwxyz0123456789+/"@
}

/// The base64 digit of a six-bit value.
pub open spec fn b64(i: int) -> char {
    base64_alphabet()[i]
}

/// Standard padded base64 (RFC 4648): each group of three bytes becomes
/// four digits; a final group of one or two bytes is padded with `=`.
pub open spec fn base64_text(d: Seq<u8>) -> Seq<char>
    decreases d.len(),
{
    let (a, b, c) = (d[0] as int, d[1] as int, d[2] as int);
    if d.len() == 0 {
        Seq::empty()
    } else if d.len() == 1 {
        seq![b64(a / 4), b64((a % 4) * 16), '=', '=']
    } else if d.len() == 2 {
        seq![b64(a / 4), b64((a % 4) * 16 + b / 16), b64((b % 16) * 4), '=']
    } else {
        seq![b64(a / 4), b64((a % 4) * 16 + b / 16), b64((b % 16) * 4 + c / 64), b64(c % 64)]
            + base64_text(d.skip(3))
    }
}

/// The bytes of the standard padded base64 text of `d` (all ASCII).
pub open spec fn base64_bytes(d: Seq<u8>) -> Seq<u8> {
    base64_text(d).map_values(|c: char| c as u8)
}

/// The standard padded base64 text of `data`.
fn encode_base64(data: &[u8]) -> (r: String)
    ensures
        r@ == base64_text(data@),
{
    let alpha = chars_of("ABCDEFGHIJKLMNOPQRSTUVWXYZabcdefghijklmnopqrstuvwxyz0123456789+/");
    proof {
        reveal_strlit("ABCDEFGHIJKLMNOPQRSTUVWXYZabcdefghijklmnopqrstuvwxyz0123456789+/");
    }
    assert(alpha@.len() == 64);
    let n = data.len();
    let mut v: Vec<char> = Vec::new();
    let mut i: usize = 0;
    assert(data@.skip(0) =~= data@);
    assert(v@ + base64_text(data@) =~= base64_text(data@));
    while n - i >= 3
        invariant
            alpha@ == base64_alphabet(),
            alpha@.len() == 64,
            n == data@.len(),
            i <= n,
            v@ + base64_text(data@.skip(i as int)) == base64_text(data@),
        decreases n - i,
    {
        let b0 = data[i];
        let b1 = data[i + 1];
        let b2 = data[i + 2];
        let ghost rest = data@.skip(i as int);
        assert(rest.skip(3) =~= data@.skip(i + 3));
        assert(rest[0] == b0 && rest[1] == b1 && rest[2] == b2);
        v.push(alpha[(b0 / 4) as usize]);
        v.push(alpha[((b0 % 4) * 16 + b1 / 16) as usize]);
        v.push(alpha[((b1 % 16) * 4 + b2 / 64) as usize]);
        v.push(alpha[(b2 % 64) as usize]);
        i = i + 3;
    }
    let ghost rest = data@.skip(i as int);
    if n - i == 1 {
        let b0 = data[i];
        assert(rest[0] == b0);
        v.push(alpha[(b0 / 4) as usize]);
        v.push(alpha[((b0 % 4) * 16) as usize]);
        v.push('=');
        v.push('=');
    } else if n - i == 2 {
        let b0 = data[i];
        let b1 = data[i + 1];
        assert(rest[0] == b0 && rest[1] == b1);
        v.push(alpha[(b0 / 4) as usize]);
        v.push(alpha[((b0 % 4) * 16 + b1 / 16) as usize]);
        v.push(alpha[((b1 % 16) * 4) as usize]);
        v.push('=');
    }
    assert(v@ == base64_text(data@));
    string_from_chars(v.as_slice())
}

/// Largest media payload that is previewed inline: 8 MiB.
pub open spec fn max_inline_preview() -> nat {
    8 * 1024 * 1024
}

/// The inline preview of an uploaded image or video:
/// `data:<type>;base64,<payload>` with the type trimmed and lower-cased, for
/// payloads of at most 8 MiB.
pub open spec fn media_preview(content_type: Option<Seq<char>>, data: Seq<u8>) -> Option<Seq<char>> {
    match content_type {
        None => None,
        Some(raw) => {
            let ct = ascii_lower(trim(raw));
            if !(starts_with(ct, "image/"@) || starts_with(ct, "video/"@)) {
                None
            } else if data.len() > max_inline_preview() {
                None
            } else {
                Some("data:"@ + ct + ";base64,"@ + base64_text(data))
            }
        },
    }
}

/// The content type stored with an uploaded file: the one given, or
/// `application/octet-stream` when none is given.
pub fn file_content_type<'a>(content_type: Option<&'a str>) -> (r: &'a str)
    ensures
        r@ == match content_type {
            Some(c) => c@,
            None => "application/octet-stream"@,
        },
{
    match content_type {
        Some(c) => c,
        None => "application/octet-stream",
    }
}

/// The content type stored with an uploaded payload: the one given, or
/// `application/json` when none is given.
pub fn payload_content_type<'a>(content_type: Option<&'a str>) -> (r: &'a str)
    ensures
        r@ == match content_type {
            Some(c) => c@,
            None => "application/json"@,
        },
{
    match content_type {
        Some(c) => c,
        None => "application/json",
    }
}

/// The text of an optional string slice.
pub open spec fn opt_text(o: Option<&str>) -> Option<Seq<char>> {
    match o {
        Some(c) => Some(c@),
        None => None,
    }
}

/// Builds the inline preview of an image or video upload.
pub fn build_preview_url_for_media(content_type: Option<&str>, bytes: &[u8]) -> (r: Option<String>)
    ensures
        r matches Some(u) ==> media_preview(opt_text(content_type), bytes@) == Some(u@),
        r is None ==> media_preview(opt_text(content_type), bytes@) is None,
{
    let raw = match content_type {
        Some(c) => c,
        None => return None,
    };
    let t = str_trim(raw);
    let ct = ascii_lower_exec(t.as_slice());
    if !(begins(ct.as_slice(), "image/") || begins(ct.as_slice(), "video/")) {
        return None;
    }
    if bytes.len() > 8 * 1024 * 1024 {
        return None;
    }
    let payload = encode_base64(bytes);
    let mut v: Vec<char> = Vec::new();
    extend_str(&mut v, "data:");
    extend_chars(&mut v, ct.as_slice());
    extend_str(&mut v, ";base64,");
    extend_str(&mut v, payload.as_str());
    Some(string_from_chars(v.as_slice()))
}

/// Objects stay registered for a year.
pub open spec fn object_lifetime() -> u64 {
    31_536_000
}

/// The domain of an uploaded object: the last (up to) twelve bytes of its
/// identifier followed by `.data.nebula.local`.
pub open spec fn is_object_domain(domain: Seq<char>, data_id: Seq<char>) -> bool {
    let b = encode_utf8(data_id);
    let cut = tail_cut(b.len() as usize);
    exists|tail: Seq<char>|
        encode_utf8(tail) == b.subrange(cut as int, b.len() as int) && domain == tail
            + ".data.nebula.local"@
}

/// Where the last twelve bytes of a text of `n` bytes begin.
pub open spec fn tail_cut(n: usize) -> usize {
    if n >= 12 { (n - 12) as usize } else { 0 }
}

/// The domain under which an uploaded object is stored.
pub fn object_domain(data_id: &str) -> (d: String)
    requires
        vstd::utf8::is_char_boundary(
            data_id.spec_bytes(),
            tail_cut(data_id.spec_bytes().len() as usize) as int,
        ),
    ensures
        is_object_domain(d@, data_id@),
{
    let n = data_id.len();
    let cut = if n >= 12 { n - 12 } else { 0 };
    let (_, tail) = data_id.split_at(cut);
    let d = concat2(tail, ".data.nebula.local");
    proof {
        let b = encode_utf8(data_id@);
        assert(encode_utf8(tail@) == b.subrange(cut as int, b.len() as int));
        assert(encode_utf8(tail@) == b.subrange(cut as int, b.len() as int) && d@ == tail@
            + ".data.nebula.local"@);
    }
    d
}

/// `r` is the record of an object uploaded at `now`: the default policies,
/// a one-year registration, and the given identity and content fields.
pub open spec fn is_uploaded_record(
    r: DomainRecord,
    data_id: Seq<char>,
    content_hash: Seq<char>,
    stored_data_desc: Seq<char>,
    content_type: Seq<char>,
    preview_url: Seq<char>,
    owner: Seq<char>,
    data_name: Seq<char>,
    now: u64,
) -> bool {
    &&& has_default_policies(r)
    &&& r.data_id@ == data_id
    &&& r.content_hash@ == content_hash
    &&& r.stored_data_desc@ == stored_data_desc
    &&& r.content_type@ == content_type
    &&& r.preview_url@ == preview_url
    &&& is_object_domain(r.domain@, data_id)
    &&& r.owner@ == owner
    &&& r.deployment@ == data_name
    &&& r.created_at == now
    &&& r.expires_at == sat_add(now, object_lifetime())
    &&& r.last_renewed_at == now
}

/// Stores an uploaded object at time `now` under its object domain and
/// returns that domain. An existing record under the domain is replaced.
pub fn store_uploaded_object(
    snapshot: &mut StateSnapshot,
    owner: &str,
    data_name: &str,
    data_id: &str,
    content_hash: String,
    content_type: &str,
    preview_url: Option<&str>,
    stored_data_desc: String,
    now: u64,
) -> (domain: String)
    requires
        vstd::utf8::is_char_boundary(
            data_id.spec_bytes(),
            tail_cut(data_id.spec_bytes().len() as usize) as int,
        ),
    ensures
        is_object_domain(domain@, data_id@),
        final(snapshot).domains@ == old(snapshot).domains@.insert(
            domain@,
            final(snapshot).domains@[domain@],
        ),
        is_uploaded_record(
            final(snapshot).domains@[domain@],
            data_id@,
            content_hash@,
            stored_data_desc@,
            content_type@,
            match preview_url {
                Some(u) => u@,
                None => Seq::empty(),
            },
            owner@,
            data_name@,
            now,
        ),
        final(snapshot).updated_at == now,
        final(snapshot).version == old(snapshot).version,
{
    let domain = object_domain(data_id);
    let preview = match preview_url {
        Some(u) => String::from_str(u),
        None => String::new(),
    };
    let record = record_with_default_policies(
        String::from_str(data_id),
        content_hash,
        stored_data_desc,
        String::from_str(content_type),
        preview,
        domain.clone(),
        String::from_str(owner),
        String::from_str(data_name),
        now,
        now.saturating_add(31_536_000),
    );
    snapshot.domains.insert(domain.clone(), record);
    snapshot.updated_at = now;
    domain
}

} // verus!
