use vstd::arithmetic::div_mod::{lemma_div_denominator, lemma_fundamental_div_mod};
use vstd::prelude::*;
use vstd::utf8::{decode_utf8, valid_utf8};

use crate::text::{
    ascii_lower, ascii_lower_exec, char_views, chars_of, contains_exec, contains_text, decimal,
    decimal_chars, ends_with, ends_with_exec, extend_chars, extend_str, pad_zeros, slice_chars,
    split_all, split_all_exec, starts_with, starts_with_exec, str_trim, string_from_chars,
    strip_prefix, strip_prefix_exec, trim, trim_exec, zero_padded,
};
use crate::model::{copy_strings, lemma_record_listed, DomainEntry, DomainRecord, StateSnapshot};
use crate::text::{
    chars_equal, digit_char, digits, find_from, hex, hex_chars, is_space, lemma_find_from,
    occurs_at, str_equal, trim_end, trim_start,
};
use crate::uploads::{
    inferred_content, infer_stored_data, is_media, is_media_content_type, is_textual,
    is_textual_content_type, is_uploaded_record, normalize_stored_data_content,
    normalized_content, opt_text, tuned_p95, tuned_p95_ms,
};

verus! {

// ---------------------------------------------------------------------------
// Human-readable sizes
// ---------------------------------------------------------------------------

/// `2^s`.
pub open spec fn pow_two(s: nat) -> nat
    decreases s,
{
    if s == 0 {
        1
    } else {
        2 * pow_two((s - 1) as nat)
    }
}

/// `a / d` rounded to the nearest integer, ties to the even one.
pub open spec fn round_half_even(a: nat, d: nat) -> nat {
    let q = a / d;
    let r = a % d;
    if 2 * r > d || (2 * r == d && q % 2 == 1) {
        q + 1
    } else {
        q
    }
}

/// How many low bits of `n` a double cannot hold: the number of halvings
/// that bring `n` below `2^53`.
pub open spec fn dropped_bits(n: nat) -> nat
    decreases n,
{
    if n < 0x20_0000_0000_0000 {
        0
    } else {
        1 + dropped_bits(n / 2)
    }
}

/// The value of `n` converted to a double: `n` rounded to 53 significant
/// bits, ties to even.
pub open spec fn nearest_double(n: nat) -> nat {
    let p = pow_two(dropped_bits(n));
    round_half_even(n, p) * p
}

/// `1024^k`.
pub open spec fn unit_divisor(k: nat) -> nat
    decreases k,
{
    if k == 0 {
        1
    } else {
        1024 * unit_divisor((k - 1) as nat)
    }
}

/// Starting from unit `k`, the unit a value of `v` bytes is shown in: the
/// value is divided by 1024 while it is at least 1024, up to terabytes.
pub open spec fn scale_steps(v: nat, k: nat) -> nat
    decreases 4 - k,
{
    if k < 4 && v >= unit_divisor(k + 1) {
        scale_steps(v, k + 1)
    } else {
        k
    }
}

/// The name of unit `k`.
pub open spec fn unit_label(k: nat) -> Seq<char> {
    if k == 0 {
        "B"@
    } else if k == 1 {
        "KB"@
    } else if k == 2 {
        "MB"@
    } else if k == 3 {
        "GB"@
    } else {
        "TB"@
    }
}

/// `v / d` written with two decimals, rounded half to even.
pub open spec fn two_decimals(v: nat, d: nat) -> Seq<char> {
    let x = round_half_even(v * 100, d);
    decimal(x / 100) + "."@ + pad_zeros(decimal(x % 100), 2)
}

/// A byte count as people read it: plain bytes below 1 KB, otherwise the
/// size (taken as a double) in the largest unit up to TB that keeps it at
/// least 1, with two decimals.
pub open spec fn human_size_text(n: nat) -> Seq<char> {
    let v = nearest_double(n);
    let k = scale_steps(v, 0);
    if k == 0 {
        decimal(n) + " "@ + unit_label(0)
    } else {
        two_decimals(v, unit_divisor(k)) + " "@ + unit_label(k)
    }
}

/// `n` as a double, held exactly in an integer.
fn nearest_double_exec(n: u64) -> (v: u128)
    ensures
        v == nearest_double(n as nat),
        v <= 0x2_0000_0000_0000_0000,
{
    let mut m: u64 = n;
    let mut p: u64 = 1;
    let ghost mut s: nat = 0;
    while m >= 0x20_0000_0000_0000
        invariant
            p == pow_two(s),
            p >= 1,
            m == n as nat / p as nat,
            dropped_bits(n as nat) == s + dropped_bits(m as nat),
        decreases m,
    {
        proof {
            lemma_fundamental_div_mod(n as int, p as int);
            assert(p * m <= n);
            assert(p < 0x800) by (nonlinear_arith)
                requires
                    p * m <= n,
                    m >= 0x20_0000_0000_0000,
                    n <= u64::MAX,
                    p >= 1,
            ;
            lemma_div_denominator(n as int, p as int, 2);
        }
        m = m / 2;
        p = p * 2;
        proof {
            s = s + 1;
        }
    }
    proof {
        lemma_fundamental_div_mod(n as int, p as int);
    }
    let r: u64 = n % p;
    let up = 2 * (r as u128) > p as u128 || (2 * (r as u128) == p as u128 && m % 2 == 1);
    let q: u128 = if up {
        m as u128 + 1
    } else {
        m as u128
    };
    assert(q * p <= n + p) by (nonlinear_arith)
        requires
            q <= m + 1,
            p * m <= n,
    ;
    q * (p as u128)
}

/// Writes `v / d` with two decimals, rounding half to even.
fn two_decimals_exec(v: u128, d: u128) -> (t: Vec<char>)
    requires
        1024 <= d <= 0x100_0000_0000,
        v <= 0x2_0000_0000_0000_0000,
    ensures
        t@ == two_decimals(v as nat, d as nat),
{
    let a: u128 = v * 100;
    let q: u128 = a / d;
    let r: u128 = a % d;
    let x: u128 = if 2 * r > d || (2 * r == d && q % 2 == 1) {
        q + 1
    } else {
        q
    };
    assert(q <= a / 1024) by (nonlinear_arith)
        requires
            q == a / d,
            d >= 1024,
    ;
    let whole = (x / 100) as u64;
    let frac = (x % 100) as u64;
    let mut t = decimal_chars(whole);
    extend_str(&mut t, ".");
    let f = decimal_chars(frac);
    let f = zero_padded(f.as_slice(), 2);
    extend_chars(&mut t, f.as_slice());
    t
}

/// Formats a byte count for display ("512 B", "1.50 KB", "3.00 GB").
pub fn format_bytes_human(size_bytes: u64) -> (r: String)
    ensures
        r@ == human_size_text(size_bytes as nat),
{
    let v = nearest_double_exec(size_bytes);
    proof {
        reveal_with_fuel(unit_divisor, 5);
    }
    let mut k: usize = 0;
    let mut d: u128 = 1;
    while k < 4 && v >= d * 1024
        invariant
            k <= 4,
            d == unit_divisor(k as nat),
            d <= 0x100_0000_0000,
            k < 4 ==> d <= 0x4000_0000,
            scale_steps(v as nat, 0) == scale_steps(v as nat, k as nat),
            unit_divisor(1) == 1024,
            unit_divisor(2) == 0x10_0000,
            unit_divisor(3) == 0x4000_0000,
            unit_divisor(4) == 0x100_0000_0000,
        decreases 4 - k,
    {
        d = d * 1024;
        k = k + 1;
    }
    let mut t: Vec<char>;
    if k == 0 {
        t = decimal_chars(size_bytes);
        extend_str(&mut t, " ");
        extend_str(&mut t, "B");
    } else {
        t = two_decimals_exec(v, d);
        extend_str(&mut t, " ");
        let label = if k == 1 {
            "KB"
        } else if k == 2 {
            "MB"
        } else if k == 3 {
            "GB"
        } else {
            "TB"
        };
        extend_str(&mut t, label);
    }
    string_from_chars(t.as_slice())
}

// ---------------------------------------------------------------------------
// Size labels
// ---------------------------------------------------------------------------

/// An ASCII decimal digit.
pub open spec fn is_digit(c: char) -> bool {
    '0' <= c && c <= '9'
}

/// The value of a string of decimal digits.
pub open spec fn digits_value(s: Seq<char>) -> nat
    decreases s.len(),
{
    if s.len() == 0 {
        0
    } else {
        digits_value(s.drop_last()) * 10 + ((s.last() as u32) - 48) as nat
    }
}

/// The digits part of a number: the text after an optional leading `+`.
pub open spec fn unsigned_digits(s: Seq<char>) -> Seq<char> {
    if s.len() > 0 && s[0] == '+' {
        s.drop_first()
    } else {
        s
    }
}

/// Every character is a decimal digit.
pub open spec fn all_digits(d: Seq<char>) -> bool {
    forall|i: int| 0 <= i < d.len() ==> is_digit(#[trigger] d[i])
}

/// What `str::parse::<u64>` gives: an optional `+`, then one or more
/// decimal digits whose value fits in 64 bits.
pub open spec fn parse_unsigned(s: Seq<char>) -> Option<u64> {
    let d = unsigned_digits(s);
    if d.len() > 0 && all_digits(d) && digits_value(d) <= u64::MAX {
        Some(digits_value(d) as u64)
    } else {
        None
    }
}

proof fn lemma_digits_value_grows(s: Seq<char>, j: int)
    requires
        0 <= j <= s.len(),
    ensures
        digits_value(s.take(j)) <= digits_value(s),
    decreases s.len(),
{
    if j < s.len() {
        assert(s.drop_last().take(j) == s.take(j));
        lemma_digits_value_grows(s.drop_last(), j);
    } else {
        assert(s.take(j) == s);
    }
}

/// Parses an unsigned decimal number as `str::parse::<u64>` does.
pub fn parse_unsigned_exec(s: &[char]) -> (r: Option<u64>)
    ensures
        r == parse_unsigned(s@),
{
    let start: usize = if s.len() > 0 && s[0] == '+' {
        1
    } else {
        0
    };
    let ghost d = unsigned_digits(s@);
    assert(d == s@.skip(start as int));
    if start == s.len() {
        return None;
    }
    let mut acc: u64 = 0;
    let mut i: usize = start;
    while i < s.len()
        invariant
            start <= i <= s@.len(),
            d == s@.skip(start as int),
            d == unsigned_digits(s@),
            d.len() > 0,
            acc == digits_value(d.take(i - start)),
            forall|j: int| 0 <= j < i - start ==> is_digit(#[trigger] d[j]),
        decreases s.len() - i,
    {
        let c = s[i];
        assert(d[i - start] == c);
        if !('0' <= c && c <= '9') {
            assert(!is_digit(d[i - start]));
            assert(!all_digits(d));
            return None;
        }
        let dv = (c as u32 - 48) as u64;
        let next: u128 = (acc as u128) * 10 + dv as u128;
        assert(d.take(i - start + 1).drop_last() == d.take(i - start));
        assert(d.take(i - start + 1).last() == c);
        if next > u64::MAX as u128 {
            proof {
                assert(digits_value(d.take(i - start + 1)) == next);
                lemma_digits_value_grows(d, i - start + 1);
                assert(digits_value(d) > u64::MAX);
            }
            return None;
        }
        acc = next as u64;
        i = i + 1;
    }
    assert(d.take(i - start) == d);
    assert(all_digits(d));
    Some(acc)
}

/// How a stored size label is shown: a label "N bytes" (any case) with `N`
/// a number becomes the human-readable size; any other label is kept.
pub open spec fn normalized_size_label(raw: Seq<char>) -> Seq<char> {
    let lower = ascii_lower(raw);
    if ends_with(lower, " bytes"@) {
        match parse_unsigned(trim(lower.take(lower.len() - 6))) {
            Some(n) => human_size_text(n as nat),
            None => raw,
        }
    } else {
        raw
    }
}

/// Rewrites a size label in bytes as a human-readable size.
pub fn normalize_size_label(raw: &str) -> (r: String)
    ensures
        r@ == normalized_size_label(raw@),
{
    let c = chars_of(raw);
    let lower = ascii_lower_exec(c.as_slice());
    let suffix = chars_of(" bytes");
    proof {
        reveal_strlit(" bytes");
    }
    if ends_with_exec(lower.as_slice(), suffix.as_slice()) {
        let num = slice_chars(lower.as_slice(), 0, lower.len() - 6);
        let num = trim_exec(num.as_slice());
        match parse_unsigned_exec(num.as_slice()) {
            Some(n) => {
                return format_bytes_human(n);
            },
            None => {},
        }
    }
    string_from_chars(c.as_slice())
}

// ---------------------------------------------------------------------------
// File summaries
// ---------------------------------------------------------------------------

/// What `String::from_utf8_lossy` makes of `bytes`.
pub uninterp spec fn utf8_lossy_text(bytes: Seq<u8>) -> Seq<char>;

/// `String::from_utf8_lossy`, taken as an owned string: the bytes decoded
/// as UTF-8, each invalid sequence replaced by U+FFFD. The contract names
/// the result `utf8_lossy_text(bytes)` and states it for valid UTF-8 only,
/// where it is the decoded text; the replacement rule is not stated.
#[verifier::external_body]
fn utf8_lossy(bytes: &[u8]) -> (s: String)
    ensures
        s@ == utf8_lossy_text(bytes@),
        valid_utf8(bytes@) ==> s@ == decode_utf8(bytes@),
{
    String::from_utf8_lossy(bytes).into_owned()
}

/// The text of a file's bytes: the decoded text when they are valid UTF-8,
/// else what lossy decoding makes of them.
pub open spec fn file_text(bytes: Seq<u8>) -> Seq<char> {
    if valid_utf8(bytes) {
        decode_utf8(bytes)
    } else {
        utf8_lossy_text(bytes)
    }
}

/// Longest text preview kept in a summary, in characters.
pub open spec fn max_preview_chars() -> nat {
    72
}

/// The type shown for a file: the given content type trimmed, or
/// `application/octet-stream` when none or a blank one was given.
pub open spec fn file_type_label(content_type: Option<Seq<char>>) -> Seq<char> {
    match content_type {
        Some(c) => if trim(c).len() > 0 {
            trim(c)
        } else {
            "application/octet-stream"@
        },
        None => "application/octet-stream"@,
    }
}

/// Text on one line: each line feed becomes a space.
pub open spec fn one_line(text: Seq<char>) -> Seq<char> {
    text.map_values(|c: char| if c == '\n' { ' ' } else { c })
}

/// The preview of a text file: its text on one line, cut to 72 characters
/// with `...` when longer.
pub open spec fn text_preview(text: Seq<char>) -> Seq<char> {
    let compact = one_line(text);
    if compact.len() > max_preview_chars() {
        compact.take(max_preview_chars() as int) + "..."@
    } else {
        compact
    }
}

/// The stored description of an uploaded file: name, human-readable size
/// and type, then a text preview for textual types, or the binary note for
/// every other type (images and videos included).
pub open spec fn file_summary_text(
    file_name: Seq<char>,
    size_bytes: nat,
    content_type: Option<Seq<char>>,
    bytes: Seq<u8>,
) -> Seq<char> {
    let label = file_type_label(content_type);
    let head = "文件: "@ + file_name + " | "@ + "大小: "@ + human_size_text(size_bytes) + " | "@
        + "类型: "@ + label;
    if is_textual(label) {
        head + " | "@ + "文本预览: "@ + text_preview(file_text(bytes))
    } else {
        head + " | "@ + binary_note()
    }
}

/// Describes an uploaded file for the catalogue.
pub fn summarize_file_data(
    file_name: &str,
    size_bytes: usize,
    content_type: Option<&str>,
    bytes: &[u8],
) -> (r: String)
    ensures
        r@ == file_summary_text(file_name@, size_bytes as nat, opt_text(content_type), bytes@),
{
    let label: Vec<char> = match content_type {
        Some(c) => {
            let t = str_trim(c);
            if t.len() > 0 {
                t
            } else {
                chars_of("application/octet-stream")
            }
        },
        None => chars_of("application/octet-stream"),
    };
    let label_text = string_from_chars(label.as_slice());
    let human = format_bytes_human(size_bytes as u64);
    let mut v: Vec<char> = Vec::new();
    extend_str(&mut v, "文件: ");
    extend_str(&mut v, file_name);
    extend_str(&mut v, " | ");
    extend_str(&mut v, "大小: ");
    extend_str(&mut v, human.as_str());
    extend_str(&mut v, " | ");
    extend_str(&mut v, "类型: ");
    extend_chars(&mut v, label.as_slice());
    if is_textual_content_type(label_text.as_str()) {
        let text = utf8_lossy(bytes);
        let tc = chars_of(text.as_str());
        let mut compact: Vec<char> = Vec::new();
        let mut i: usize = 0;
        while i < tc.len()
            invariant
                i <= tc@.len(),
                compact@ == one_line(tc@.take(i as int)),
            decreases tc.len() - i,
        {
            let c = tc[i];
            compact.push(if c == '\n' { ' ' } else { c });
            assert(tc@.take(i + 1) == tc@.take(i as int).push(c));
            i = i + 1;
        }
        assert(tc@.take(tc@.len() as int) == tc@);
        extend_str(&mut v, " | ");
        extend_str(&mut v, "文本预览: ");
        if compact.len() > 72 {
            let cut = slice_chars(compact.as_slice(), 0, 72);
            extend_chars(&mut v, cut.as_slice());
            extend_str(&mut v, "...");
        } else {
            extend_chars(&mut v, compact.as_slice());
        }
    } else {
        extend_str(&mut v, " | ");
        extend_str(&mut v, "二进制内容不展示文本预览");
    }
    string_from_chars(v.as_slice())
}

// ---------------------------------------------------------------------------
// Reading file summaries back
// ---------------------------------------------------------------------------

/// Name, size label, type and preview read back from a file summary.
pub struct FileDataMeta {
    pub file_name: String,
    pub file_size: String,
    pub file_type: String,
    pub file_preview: String,
}

/// The four fields of a summary, as text: name, size, type, preview.
pub type SummaryFields = (Seq<char>, Seq<char>, Seq<char>, Seq<char>);

/// The note stored for binary content.
pub open spec fn binary_note() -> Seq<char> {
    "二进制内容不展示文本预览"@
}

/// The fields after reading one ` | `-separated part: a labelled part sets
/// its field (trimmed; the size label normalised), a part holding the
/// binary note sets the preview to it, and any other part changes nothing.
pub open spec fn read_part(m: SummaryFields, part: Seq<char>) -> SummaryFields {
    match strip_prefix(part, "文件: "@) {
        Some(v) => (trim(v), m.1, m.2, m.3),
        None => match strip_prefix(part, "大小: "@) {
            Some(v) => (m.0, normalized_size_label(trim(v)), m.2, m.3),
            None => match strip_prefix(part, "类型: "@) {
                Some(v) => (m.0, m.1, trim(v), m.3),
                None => match strip_prefix(part, "文本预览: "@) {
                    Some(v) => (m.0, m.1, m.2, trim(v)),
                    None => if contains_text(part, binary_note()) {
                        (m.0, m.1, m.2, binary_note())
                    } else {
                        m
                    },
                },
            },
        },
    }
}

/// The fields after reading the parts in order, starting from empty ones.
pub open spec fn read_parts(parts: Seq<Seq<char>>) -> SummaryFields
    decreases parts.len(),
{
    if parts.len() == 0 {
        (Seq::empty(), Seq::empty(), Seq::empty(), Seq::empty())
    } else {
        read_part(read_parts(parts.drop_last()), parts.last())
    }
}

/// The fields of a file summary: present when the summary starts with the
/// file label and names at least a file, a size or a type.
pub open spec fn summary_fields(summary: Seq<char>) -> Option<SummaryFields> {
    if !starts_with(summary, "文件: "@) {
        None
    } else {
        let m = read_parts(split_all(summary, " | "@));
        if m.0.len() == 0 && m.1.len() == 0 && m.2.len() == 0 {
            None
        } else {
            Some(m)
        }
    }
}

/// The value of a labelled part, trimmed, if `part` carries `label`.
fn labelled(part: &[char], label: &str) -> (r: Option<Vec<char>>)
    ensures
        match r {
            Some(v) => strip_prefix(part@, label@) matches Some(w) && v@ == trim(w),
            None => strip_prefix(part@, label@) is None,
        },
{
    let l = chars_of(label);
    match strip_prefix_exec(part, l.as_slice()) {
        Some(w) => Some(trim_exec(w.as_slice())),
        None => None,
    }
}

/// Reads name, size, type and preview back from a stored file summary.
pub fn parse_file_summary(summary: &str) -> (r: Option<FileDataMeta>)
    ensures
        match r {
            Some(m) => summary_fields(summary@) == Some(
                (m.file_name@, m.file_size@, m.file_type@, m.file_preview@),
            ),
            None => summary_fields(summary@) is None,
        },
{
    let s = chars_of(summary);
    let head = chars_of("文件: ");
    if !starts_with_exec(s.as_slice(), head.as_slice()) {
        return None;
    }
    let sep = chars_of(" | ");
    proof {
        reveal_strlit(" | ");
    }
    let parts = split_all_exec(s.as_slice(), sep.as_slice());
    let note = chars_of("二进制内容不展示文本预览");
    let mut name: Vec<char> = Vec::new();
    let mut size: Vec<char> = Vec::new();
    let mut kind: Vec<char> = Vec::new();
    let mut preview: Vec<char> = Vec::new();
    let ghost ps = char_views(parts@);
    let mut i: usize = 0;
    while i < parts.len()
        invariant
            i <= parts@.len(),
            ps == char_views(parts@),
            ps.len() == parts@.len(),
            note@ == binary_note(),
            (name@, size@, kind@, preview@) == read_parts(ps.take(i as int)),
        decreases parts.len() - i,
    {
        let part = parts[i].as_slice();
        assert(ps[i as int] == part@);
        assert(ps.take(i + 1).drop_last() == ps.take(i as int));
        assert(ps.take(i + 1).last() == part@);
        match labelled(part, "文件: ") {
            Some(v) => {
                name = v;
            },
            None => match labelled(part, "大小: ") {
                Some(v) => {
                    let t = string_from_chars(v.as_slice());
                    let n = normalize_size_label(t.as_str());
                    size = chars_of(n.as_str());
                },
                None => match labelled(part, "类型: ") {
                    Some(v) => {
                        kind = v;
                    },
                    None => match labelled(part, "文本预览: ") {
                        Some(v) => {
                            preview = v;
                        },
                        None => {
                            if contains_exec(part, note.as_slice()) {
                                preview = chars_of("二进制内容不展示文本预览");
                            }
                        },
                    },
                },
            },
        }
        i = i + 1;
    }
    assert(ps.take(ps.len() as int) == ps);
    if name.len() == 0 && size.len() == 0 && kind.len() == 0 {
        return None;
    }
    Some(
        FileDataMeta {
            file_name: string_from_chars(name.as_slice()),
            file_size: string_from_chars(size.as_slice()),
            file_type: string_from_chars(kind.as_slice()),
            file_preview: string_from_chars(preview.as_slice()),
        },
    )
}

// ---------------------------------------------------------------------------
// The object catalogue
// ---------------------------------------------------------------------------

/// A record as the object catalogue presents it.
pub struct DataObjectView {
    pub data_id: String,
    pub content_hash: String,
    pub content_type: String,
    pub preview_url: Option<String>,
    pub file_name: Option<String>,
    pub file_size: Option<String>,
    pub file_type: Option<String>,
    pub file_preview: Option<String>,
    pub owner: String,
    pub deployment: String,
    pub stored_data: String,
    pub created_at: u64,
    pub expires_at: u64,
    pub target_p95_ms: u64,
    pub min_replicas: u8,
    pub node_clusters: Vec<String>,
}

/// The text of an optional string.
pub open spec fn opt_view(o: Option<String>) -> Option<Seq<char>> {
    match o {
        Some(s) => Some(s@),
        None => None,
    }
}

/// The hint shown in the object list for media that can be previewed.
pub open spec fn media_note() -> Seq<char> {
    "可预览媒体（详情中查看）"@
}

/// Text that is empty becomes no value.
pub open spec fn non_empty(t: Seq<char>) -> Option<Seq<char>> {
    if t.len() == 0 {
        None
    } else {
        Some(t)
    }
}

/// One field of the summary fields, if there are any.
pub open spec fn field_of(m: Option<SummaryFields>, i: int) -> Option<Seq<char>> {
    match m {
        Some(f) => Some(
            if i == 0 {
                f.0
            } else if i == 1 {
                f.1
            } else if i == 2 {
                f.2
            } else {
                f.3
            },
        ),
        None => None,
    }
}

/// `v` presents `rec` in a catalogue of `count` objects: identifiers,
/// owner, deployment and times as stored; JSON as the type when none is
/// stored; the preview link when one is stored; the file fields read back
/// from the description, except that media with a preview link show the
/// media hint unless their description carries the binary note; the stored
/// content (or a guess from the names when there is
/// none); the tuned latency target; replicas and clusters as stored.
pub open spec fn presents(v: DataObjectView, rec: DomainRecord, count: nat) -> bool {
    let meta = summary_fields(rec.stored_data_desc@);
    &&& v.data_id@ == rec.data_id@
    &&& v.content_hash@ == rec.content_hash@
    &&& v.content_type@ == (if rec.content_type@.len() == 0 {
        "application/json"@
    } else {
        rec.content_type@
    })
    &&& opt_view(v.preview_url) == non_empty(rec.preview_url@)
    &&& opt_view(v.file_name) == field_of(meta, 0)
    &&& opt_view(v.file_size) == field_of(meta, 1)
    &&& opt_view(v.file_type) == field_of(meta, 2)
    &&& opt_view(v.file_preview) == (if is_media(rec.content_type@) && rec.preview_url@.len() > 0
        && field_of(meta, 3) != Some(binary_note()) {
        Some(media_note())
    } else {
        field_of(meta, 3)
    })
    &&& v.owner@ == rec.owner@
    &&& v.deployment@ == rec.deployment@
    &&& v.stored_data@ == (if rec.stored_data_desc@.len() == 0 {
        inferred_content(rec.domain@, rec.deployment@)
    } else {
        normalized_content(rec.stored_data_desc@)
    })
    &&& v.created_at == rec.created_at
    &&& v.expires_at == rec.expires_at
    &&& v.target_p95_ms == tuned_p95(rec.retrieval_profile.target_p95_ms, count)
    &&& v.min_replicas == rec.durability_profile.min_replicas
    &&& v.node_clusters@ == rec.durability_profile.node_clusters@
}

fn text_copy(s: &String) -> (r: String)
    ensures
        r@ == s@,
{
    String::from_str(s.as_str())
}

/// The catalogue view of one record.
fn object_view(rec: &DomainRecord, count: usize) -> (v: DataObjectView)
    ensures
        presents(v, *rec, count as nat),
{
    let meta = parse_file_summary(rec.stored_data_desc.as_str());
    let has_link = !rec.preview_url.as_str().is_empty();
    let (file_name, file_size, file_type, parsed_preview) = match meta {
        Some(m) => (Some(m.file_name), Some(m.file_size), Some(m.file_type), Some(m.file_preview)),
        None => (None, None, None, None),
    };
    let binary = match &parsed_preview {
        Some(p) => str_equal(p.as_str(), "二进制内容不展示文本预览"),
        None => false,
    };
    proof {
        reveal_strlit("二进制内容不展示文本预览");
    }
    let file_preview = if is_media_content_type(rec.content_type.as_str()) && has_link && !binary {
        Some(String::from_str("可预览媒体（详情中查看）"))
    } else {
        parsed_preview
    };
    let content_type = if rec.content_type.as_str().is_empty() {
        String::from_str("application/json")
    } else {
        text_copy(&rec.content_type)
    };
    let preview_url = if has_link {
        Some(text_copy(&rec.preview_url))
    } else {
        None
    };
    let stored_data = if rec.stored_data_desc.as_str().is_empty() {
        infer_stored_data(rec.domain.as_str(), rec.deployment.as_str())
    } else {
        normalize_stored_data_content(rec.stored_data_desc.as_str())
    };
    DataObjectView {
        data_id: text_copy(&rec.data_id),
        content_hash: text_copy(&rec.content_hash),
        content_type,
        preview_url,
        file_name,
        file_size,
        file_type,
        file_preview,
        owner: text_copy(&rec.owner),
        deployment: text_copy(&rec.deployment),
        stored_data,
        created_at: rec.created_at,
        expires_at: rec.expires_at,
        target_p95_ms: tuned_p95_ms(rec.retrieval_profile.target_p95_ms, count),
        min_replicas: rec.durability_profile.min_replicas,
        node_clusters: copy_strings(&rec.durability_profile.node_clusters),
    }
}

/// The object catalogue: one view per record, in key order, each with the
/// latency target tuned to the catalogue size.
pub fn build_data_objects(snapshot: &StateSnapshot) -> (objs: Vec<DataObjectView>)
    ensures
        objs@.len() == snapshot.domains.entry_seq().len(),
        forall|i: int|
            0 <= i < objs@.len() ==> presents(
                #[trigger] objs@[i],
                snapshot.domains.entry_seq()[i].record,
                snapshot.domains.entry_seq().len(),
            ),
        forall|k: Seq<char>|
            #[trigger] snapshot.domains@.contains_key(k) ==> exists|i: int|
                0 <= i < objs@.len() && presents(
                    #[trigger] objs@[i],
                    snapshot.domains@[k],
                    snapshot.domains.entry_seq().len(),
                ),
{
    let n = snapshot.domains.len();
    let mut objs: Vec<DataObjectView> = Vec::new();
    let mut i: usize = 0;
    while i < n
        invariant
            n == snapshot.domains.entry_seq().len(),
            i <= n,
            objs@.len() == i,
            forall|j: int|
                0 <= j < i ==> presents(
                    #[trigger] objs@[j],
                    snapshot.domains.entry_seq()[j].record,
                    n as nat,
                ),
        decreases n - i,
    {
        let e = snapshot.domains.entry_at(i);
        objs.push(object_view(&e.record, n));
        i = i + 1;
    }
    proof {
        assert forall|k: Seq<char>| #[trigger] snapshot.domains@.contains_key(k) implies exists|
            i: int,
        |
            0 <= i < objs@.len() && presents(
                #[trigger] objs@[i],
                snapshot.domains@[k],
                snapshot.domains.entry_seq().len(),
            ) by {
            lemma_record_listed(snapshot.domains, k);
            let i = choose|i: int|
                0 <= i < snapshot.domains.entry_seq().len()
                    && #[trigger] snapshot.domains.entry_seq()[i].key@ == k
                    && snapshot.domains.entry_seq()[i].record == snapshot.domains@[k];
            assert(presents(objs@[i], snapshot.domains@[k], n as nat));
        }
    }
    objs
}

/// Which identifier a catalogue lookup goes by.
pub enum ObjectKey {
    DataId,
    ContentHash,
}

/// The identifier of `v` that lookups by `key` compare.
pub open spec fn key_text(v: DataObjectView, key: ObjectKey) -> Seq<char> {
    match key {
        ObjectKey::DataId => v.data_id@,
        ObjectKey::ContentHash => v.content_hash@,
    }
}

/// The identifier of record `rec` that lookups by `key` compare.
pub open spec fn record_key_text(rec: DomainRecord, key: ObjectKey) -> Seq<char> {
    match key {
        ObjectKey::DataId => rec.data_id@,
        ObjectKey::ContentHash => rec.content_hash@,
    }
}

/// The catalogue object of `snapshot` whose identifier (data id or content
/// hash) is `wanted`: the view of the first such record in key order, or
/// `None` when no record carries that identifier.
pub fn lookup_object(snapshot: &StateSnapshot, key: ObjectKey, wanted: &str) -> (r: Option<
    DataObjectView,
>)
    ensures
        r is Some <==> exists|k: Seq<char>|
            #[trigger] snapshot.domains@.contains_key(k) && record_key_text(
                snapshot.domains@[k],
                key,
            ) == wanted@,
        r matches Some(v) ==> exists|i: int|
                0 <= i < snapshot.domains.entry_seq().len() && presents(
                    v,
                    #[trigger] snapshot.domains.entry_seq()[i].record,
                    snapshot.domains@.len(),
                ) && record_key_text(snapshot.domains.entry_seq()[i].record, key) == wanted@
                    && snapshot.domains@[snapshot.domains.entry_seq()[i].key@]
                    == snapshot.domains.entry_seq()[i].record && forall|j: int|
                    0 <= j < i ==> record_key_text(
                        #[trigger] snapshot.domains.entry_seq()[j].record,
                        key,
                    ) != wanted@,
{
    let n = snapshot.domains.len();
    let objs = build_data_objects(snapshot);
    let ghost all = objs@;
    let r = find_object(objs, key, wanted);
    proof {
        let es = snapshot.domains.entry_seq();
        assert forall|j: int| 0 <= j < all.len() implies key_text(#[trigger] all[j], key)
            == record_key_text(es[j].record, key) by {
            assert(presents(all[j], es[j].record, n as nat));
        }
        match r {
            Some(ref v) => {
                let i = choose|i: int|
                    0 <= i < all.len() && all[i] == *v && key_text(*v, key) == wanted@ && forall|
                        j: int,
                    | 0 <= j < i ==> key_text(#[trigger] all[j], key) != wanted@;
                assert(presents(all[i], es[i].record, n as nat));
                assert(snapshot.domains@.contains_key(es[i].key@));
                assert forall|j: int| 0 <= j < i implies record_key_text(
                    #[trigger] es[j].record,
                    key,
                ) != wanted@ by {
                    assert(key_text(all[j], key) != wanted@);
                }
            },
            None => {
                assert forall|k: Seq<char>| #[trigger]
                    snapshot.domains@.contains_key(k) implies record_key_text(
                    snapshot.domains@[k],
                    key,
                ) != wanted@ by {
                    lemma_record_listed(snapshot.domains, k);
                    let i = choose|i: int|
                        0 <= i < es.len() && #[trigger] es[i].key@ == k && es[i].record
                            == snapshot.domains@[k];
                    assert(key_text(all[i], key) != wanted@);
                }
            },
        }
    }
    r
}

/// An upload can be read back: once a record stored by
/// `store_uploaded_object` is in the table, a lookup by its data id and a
/// lookup by its content hash both find an object.
pub proof fn law_upload_found(
    domains: Map<Seq<char>, DomainRecord>,
    domain: Seq<char>,
    data_id: Seq<char>,
    content_hash: Seq<char>,
    stored_data_desc: Seq<char>,
    content_type: Seq<char>,
    preview_url: Seq<char>,
    owner: Seq<char>,
    data_name: Seq<char>,
    now: u64,
)
    requires
        domains.contains_key(domain),
        is_uploaded_record(
            domains[domain],
            data_id,
            content_hash,
            stored_data_desc,
            content_type,
            preview_url,
            owner,
            data_name,
            now,
        ),
    ensures
        exists|k: Seq<char>|
            #[trigger] domains.contains_key(k) && record_key_text(domains[k], ObjectKey::DataId)
                == data_id,
        exists|k: Seq<char>|
            #[trigger] domains.contains_key(k) && record_key_text(
                domains[k],
                ObjectKey::ContentHash,
            ) == content_hash,
{
    assert(record_key_text(domains[domain], ObjectKey::DataId) == data_id);
    assert(record_key_text(domains[domain], ObjectKey::ContentHash) == content_hash);
}

/// The first object whose identifier (data id or content hash) is `wanted`.
pub fn find_object(objects: Vec<DataObjectView>, key: ObjectKey, wanted: &str) -> (r: Option<
    DataObjectView,
>)
    ensures
        match r {
            Some(v) => exists|i: int|
                0 <= i < objects@.len() && objects@[i] == v && key_text(v, key) == wanted@ && forall|
                    j: int,
                | 0 <= j < i ==> key_text(#[trigger] objects@[j], key) != wanted@,
            None => forall|j: int|
                0 <= j < objects@.len() ==> key_text(#[trigger] objects@[j], key) != wanted@,
        },
{
    let ghost all = objects@;
    let mut objs = objects;
    let mut i: usize = 0;
    while i < objs.len()
        invariant
            objs@ == all,
            all == objects@,
            i <= objs@.len(),
            forall|j: int| 0 <= j < i ==> key_text(#[trigger] all[j], key) != wanted@,
        decreases objs.len() - i,
    {
        let hit = match key {
            ObjectKey::DataId => str_equal(objs[i].data_id.as_str(), wanted),
            ObjectKey::ContentHash => str_equal(objs[i].content_hash.as_str(), wanted),
        };
        if hit {
            assert(key_text(all[i as int], key) == wanted@);
            let v = objs.remove(i);
            assert(all[i as int] == v);
            assert(exists|k: int|
                0 <= k < all.len() && all[k] == v && key_text(v, key) == wanted@ && forall|
                    j: int,
                | 0 <= j < k ==> key_text(#[trigger] all[j], key) != wanted@) by {
                assert(0 <= i < all.len() && all[i as int] == v);
            }
            return Some(v);
        }
        i = i + 1;
    }
    None
}

// ---------------------------------------------------------------------------
// Recent blocks
// ---------------------------------------------------------------------------

/// A block of the chain view. `source` is the position (in key order) of
/// the record the block stands for; the genesis block has none.
pub struct ChainBlock {
    pub height: u64,
    pub block_id: String,
    pub timestamp: u64,
    pub tx_count: u32,
    pub source: Option<usize>,
    pub status: String,
}

/// At most this many record blocks follow the genesis block.
pub open spec fn max_record_blocks() -> nat {
    19
}

/// The identifier of the block at height `h`: `nebula-` and `h` in eight
/// or more hexadecimal digits.
pub open spec fn block_id_text(h: nat) -> Seq<char> {
    "nebula-"@ + pad_zeros(hex(h), 8)
}

/// The genesis block, stamped with the snapshot's update time.
pub open spec fn is_genesis_block(b: ChainBlock, updated_at: u64) -> bool {
    &&& b.height == 0
    &&& b.block_id@ == "nebula-genesis-00000000"@
    &&& b.timestamp == updated_at
    &&& b.tx_count == 1
    &&& b.source is None
    &&& b.status@ == "finalized"@
}

/// Block `idx` after genesis stands for the `idx`-th record from the end:
/// its height counts down from the number of records, it is stamped with
/// the record's later time and carries three transactions per replica.
pub open spec fn is_record_block(b: ChainBlock, es: Seq<DomainEntry>, idx: int) -> bool {
    let n = es.len() as int;
    let pos = n - 1 - idx;
    let rec = es[pos].record;
    &&& b.height == n - idx
    &&& b.block_id@ == block_id_text((n - idx) as nat)
    &&& b.timestamp == (if rec.last_renewed_at >= rec.created_at {
        rec.last_renewed_at
    } else {
        rec.created_at
    })
    &&& b.tx_count == rec.durability_profile.min_replicas * 3
    &&& b.source == Some(pos as usize)
    &&& b.status@ == "finalized"@
}

/// The recent blocks: genesis, then one block per record from the last in
/// key order backwards, at most nineteen.
pub fn chain_blocks(snapshot: &StateSnapshot) -> (blocks: Vec<ChainBlock>)
    ensures
        blocks@.len() == 1 + (if snapshot.domains.entry_seq().len() < max_record_blocks() {
            snapshot.domains.entry_seq().len()
        } else {
            max_record_blocks()
        }),
        is_genesis_block(blocks@[0], snapshot.updated_at),
        forall|i: int|
            1 <= i < blocks@.len() ==> is_record_block(
                #[trigger] blocks@[i],
                snapshot.domains.entry_seq(),
                i - 1,
            ),
{
    let mut blocks: Vec<ChainBlock> = Vec::new();
    blocks.push(
        ChainBlock {
            height: 0,
            block_id: String::from_str("nebula-genesis-00000000"),
            timestamp: snapshot.updated_at,
            tx_count: 1,
            source: None,
            status: String::from_str("finalized"),
        },
    );
    let n = snapshot.domains.len();
    let count: usize = if n < 19 {
        n
    } else {
        19
    };
    let ghost es = snapshot.domains.entry_seq();
    let mut idx: usize = 0;
    while idx < count
        invariant
            n == es.len(),
            es == snapshot.domains.entry_seq(),
            count <= n,
            count <= 19,
            idx <= count,
            blocks@.len() == 1 + idx,
            is_genesis_block(blocks@[0], snapshot.updated_at),
            forall|i: int| 1 <= i < blocks@.len() ==> is_record_block(#[trigger] blocks@[i], es, i - 1),
        decreases count - idx,
    {
        let pos = n - 1 - idx;
        let rec = &snapshot.domains.entry_at(pos).record;
        let h = (n - idx) as u64;
        let mut id: Vec<char> = Vec::new();
        extend_str(&mut id, "nebula-");
        let hx = hex_chars(h);
        let hx = zero_padded(hx.as_slice(), 8);
        extend_chars(&mut id, hx.as_slice());
        let stamp = if rec.last_renewed_at >= rec.created_at {
            rec.last_renewed_at
        } else {
            rec.created_at
        };
        blocks.push(
            ChainBlock {
                height: h,
                block_id: string_from_chars(id.as_slice()),
                timestamp: stamp,
                tx_count: (rec.durability_profile.min_replicas as u32) * 3,
                source: Some(pos),
                status: String::from_str("finalized"),
            },
        );
        idx = idx + 1;
    }
    blocks
}

// ---------------------------------------------------------------------------
// Summaries read back what they were written from
// ---------------------------------------------------------------------------

/// No character of `s` is a vertical bar, the character of the field
/// separator.
pub open spec fn bar_free(s: Seq<char>) -> bool {
    forall|i: int| 0 <= i < s.len() ==> s[i] != '|'
}

proof fn lemma_sep()
    ensures
        " | "@.len() == 3,
        " | "@[0] == ' ',
        " | "@[1] == '|',
        " | "@[2] == ' ',
{
    reveal_strlit(" | ");
}

/// A bar-free text is a single part.
proof fn lemma_split_single(p: Seq<char>)
    requires
        bar_free(p),
    ensures
        split_all(p, " | "@) == seq![p],
{
    lemma_sep();
    lemma_find_from(p, " | "@, 0);
    if let Some(i) = find_from(p, " | "@, 0) {
        assert(p.subrange(i, i + 3)[1] == p[i + 1]);
        assert(false);
    }
}

/// A separator can only start one position before a bar.
proof fn lemma_sep_needs_bar(s: Seq<char>, j: int)
    requires
        occurs_at(s, " | "@, j),
    ensures
        0 <= j && j + 1 < s.len() && s[j + 1] == '|',
{
    lemma_sep();
    assert(s.subrange(j, j + 3)[1] == s[j + 1]);
}

proof fn lemma_sep_after(a: Seq<char>, rest: Seq<char>)
    ensures
        occurs_at(a + " | "@ + rest, " | "@, a.len() as int),
{
    lemma_sep();
    let s = a + " | "@ + rest;
    let n = a.len() as int;
    assert(s.subrange(n, n + 3) =~= " | "@);
}

/// The first separator is at `n` when one is there and no bar comes
/// earlier.
proof fn lemma_first_at(s: Seq<char>, n: int)
    requires
        occurs_at(s, " | "@, n),
        forall|k: int| 0 < k <= n ==> s[k] != '|',
    ensures
        find_from(s, " | "@, 0) == Some(n),
{
    lemma_find_from(s, " | "@, 0);
    match find_from(s, " | "@, 0) {
        Some(i) => {
            if i < n {
                lemma_sep_needs_bar(s, i);
                assert(s[i + 1] != '|');
            }
        },
        None => {},
    }
}

/// In a bar-free head followed by the separator, the first separator is
/// the one after the head.
proof fn lemma_first_sep(a: Seq<char>, rest: Seq<char>)
    requires
        bar_free(a),
    ensures
        find_from(a + " | "@ + rest, " | "@, 0) == Some(a.len() as int),
{
    lemma_sep();
    let s = a + " | "@ + rest;
    let n = a.len() as int;
    lemma_sep_after(a, rest);
    assert forall|k: int| 0 < k <= n implies s[k] != '|' by {
        if k < n {
            assert(s[k] == a[k]);
        } else {
            assert(s[k] == " | "@[0]);
        }
    }
    lemma_first_at(s, n);
}

/// A bar-free head followed by the separator is split off as one part.
proof fn lemma_split_head(a: Seq<char>, rest: Seq<char>)
    requires
        bar_free(a),
    ensures
        split_all(a + " | "@ + rest, " | "@) == seq![a] + split_all(rest, " | "@),
{
    lemma_sep();
    lemma_first_sep(a, rest);
    let s = a + " | "@ + rest;
    let n = a.len() as int;
    assert(s.take(n) =~= a);
    assert(s.skip(n + 3) =~= rest);
}

proof fn lemma_digits_are_digits(n: nat)
    ensures
        digits(n, 10).len() > 0,
        all_digits(digits(n, 10)),
    decreases n,
{
    if n < 10 {
        assert(n % 16 == n);
        let c = digit_char(n);
        assert(is_digit(c));
        assert(digits(n, 10) == seq![c]);
    } else {
        lemma_digits_are_digits(n / 10);
        let c = digit_char(n % 10);
        assert(is_digit(c));
        let d = digits(n, 10);
        assert(d == digits(n / 10, 10).push(c));
        assert forall|i: int| 0 <= i < d.len() implies is_digit(#[trigger] d[i]) by {
            if i < d.len() - 1 {
                assert(d[i] == digits(n / 10, 10)[i]);
            }
        }
    }
}

proof fn lemma_padded_digits(d: Seq<char>, w: nat)
    requires
        all_digits(d),
    ensures
        all_digits(pad_zeros(d, w)),
        pad_zeros(d, w).len() >= d.len(),
{
    let p = pad_zeros(d, w);
    if d.len() < w {
        let z = Seq::new((w - d.len()) as nat, |i: int| '0');
        assert(p == z + d);
        assert forall|i: int| 0 <= i < p.len() implies is_digit(#[trigger] p[i]) by {
            if i < z.len() {
                assert(p[i] == '0');
            } else {
                assert(p[i] == d[i - z.len()]);
            }
        }
    }
}

/// The shape of a human-readable size: it starts with a digit, ends with
/// `B` and holds no bar.
proof fn lemma_human_size_shape(n: nat)
    ensures
        human_size_text(n).len() > 1,
        is_digit(human_size_text(n)[0]),
        human_size_text(n).last() == 'B',
        bar_free(human_size_text(n)),
{
    reveal_strlit("B");
    reveal_strlit("KB");
    reveal_strlit("MB");
    reveal_strlit("GB");
    reveal_strlit("TB");
    reveal_strlit(" ");
    reveal_strlit(".");
    let v = nearest_double(n);
    let k = scale_steps(v, 0);
    let h = human_size_text(n);
    let label = unit_label(k);
    assert(label.len() > 0 && label.last() == 'B' && bar_free(label));
    let num = if k == 0 {
        decimal(n)
    } else {
        two_decimals(v, unit_divisor(k))
    };
    if k == 0 {
        lemma_digits_are_digits(n);
    } else {
        let x = round_half_even(v * 100, unit_divisor(k));
        lemma_digits_are_digits(x / 100);
        lemma_digits_are_digits(x % 100);
        lemma_padded_digits(decimal(x % 100), 2);
        let a = decimal(x / 100);
        let b = pad_zeros(decimal(x % 100), 2);
        assert(num == a + "."@ + b);
        assert forall|i: int| 0 <= i < num.len() implies num[i] != '|' by {
            if i < a.len() {
                assert(num[i] == a[i]);
                assert(is_digit(a[i]));
            } else if i == a.len() {
                assert(num[i] == '.');
            } else {
                assert(num[i] == b[i - a.len() - 1]);
                assert(is_digit(b[i - a.len() - 1]));
            }
        }
        assert(num[0] == a[0]);
    }
    assert(h == num + " "@ + label);
    assert(h[0] == num[0]);
    assert(h.last() == label.last());
    assert forall|i: int| 0 <= i < h.len() implies h[i] != '|' by {
        if i < num.len() {
            assert(h[i] == num[i]);
            if k == 0 {
                assert(is_digit(num[i]));
            }
        } else if i == num.len() {
            assert(h[i] == ' ');
        } else {
            assert(h[i] == label[i - num.len() - 1]);
        }
    }
}

proof fn lemma_trim_fixed(s: Seq<char>)
    requires
        s.len() > 0,
        !is_space(s[0]),
        !is_space(s.last()),
    ensures
        trim(s) == s,
{
    assert(trim_start(s) == s);
    assert(trim_end(s) == s);
}

proof fn lemma_trim_start_shape(s: Seq<char>)
    ensures
        trim_start(s).len() > 0 ==> !is_space(trim_start(s)[0]),
    decreases s.len(),
{
    if s.len() > 0 && is_space(s[0]) {
        lemma_trim_start_shape(s.drop_first());
    }
}

proof fn lemma_trim_end_shape(s: Seq<char>)
    ensures
        trim_end(s).len() <= s.len(),
        trim_end(s) == s.take(trim_end(s).len() as int),
        trim_end(s).len() > 0 ==> !is_space(trim_end(s).last()),
    decreases s.len(),
{
    if s.len() > 0 && is_space(s.last()) {
        lemma_trim_end_shape(s.drop_last());
        let t = trim_end(s.drop_last());
        assert(s.drop_last().take(t.len() as int) == s.take(t.len() as int));
    } else {
        assert(s.take(s.len() as int) == s);
    }
}

/// Trimming twice trims once.
proof fn lemma_trim_twice(s: Seq<char>)
    ensures
        trim(trim(s)) == trim(s),
{
    let a = trim_start(s);
    lemma_trim_start_shape(s);
    lemma_trim_end_shape(a);
    let t = trim(s);
    if t.len() > 0 {
        assert(t[0] == a[0]);
        lemma_trim_fixed(t);
    } else {
        assert(trim_start(t) == t);
        assert(trim_end(t) == t);
    }
}

/// A human-readable size is kept as it is when read back as a size label.
proof fn lemma_human_size_label(n: nat)
    ensures
        normalized_size_label(trim(human_size_text(n))) == human_size_text(n),
{
    let h = human_size_text(n);
    lemma_human_size_shape(n);
    lemma_trim_fixed(h);
    reveal_strlit(" bytes");
    let l = ascii_lower(h);
    if ends_with(l, " bytes"@) {
        assert(l.subrange(l.len() - 6, l.len() as int)[5] == l.last());
        assert(l.last() == 'b');
    }
}

proof fn lemma_strip_own(lit: Seq<char>, rest: Seq<char>)
    ensures
        strip_prefix(lit + rest, lit) == Some(rest),
{
    let s = lit + rest;
    assert(s.subrange(0, lit.len() as int) =~= lit);
    assert(s.skip(lit.len() as int) =~= rest);
}

proof fn lemma_not_prefix(s: Seq<char>, lit: Seq<char>, i: int)
    requires
        0 <= i < lit.len(),
        i < s.len(),
        s[i] != lit[i],
    ensures
        strip_prefix(s, lit) is None,
{
    if starts_with(s, lit) {
        assert(s.subrange(0, lit.len() as int)[i] == s[i]);
    }
}

proof fn lemma_labels()
    ensures
        "文件: "@.len() == 4,
        "文件: "@[0] == '文',
        "文件: "@[1] == '件',
        "大小: "@.len() == 4,
        "大小: "@[0] == '大',
        "类型: "@.len() == 4,
        "类型: "@[0] == '类',
        "文本预览: "@.len() == 6,
        "文本预览: "@[0] == '文',
        "文本预览: "@[1] == '本',
        binary_note().len() == 12,
        binary_note()[0] == '二',
        bar_free("文件: "@),
        bar_free("大小: "@),
        bar_free("类型: "@),
        bar_free("文本预览: "@),
        bar_free(binary_note()),
{
    reveal_strlit("文件: ");
    reveal_strlit("大小: ");
    reveal_strlit("类型: ");
    reveal_strlit("文本预览: ");
    reveal_strlit("二进制内容不展示文本预览");
}

proof fn lemma_read_name(m: SummaryFields, name: Seq<char>)
    ensures
        read_part(m, "文件: "@ + name) == (trim(name), m.1, m.2, m.3),
{
    lemma_strip_own("文件: "@, name);
}

proof fn lemma_read_size(m: SummaryFields, size: Seq<char>)
    ensures
        read_part(m, "大小: "@ + size) == (m.0, normalized_size_label(trim(size)), m.2, m.3),
{
    lemma_labels();
    let p = "大小: "@ + size;
    lemma_not_prefix(p, "文件: "@, 0);
    lemma_strip_own("大小: "@, size);
}

proof fn lemma_read_type(m: SummaryFields, label: Seq<char>)
    ensures
        read_part(m, "类型: "@ + label) == (m.0, m.1, trim(label), m.3),
{
    lemma_labels();
    let p = "类型: "@ + label;
    lemma_not_prefix(p, "文件: "@, 0);
    lemma_not_prefix(p, "大小: "@, 0);
    lemma_strip_own("类型: "@, label);
}

proof fn lemma_read_preview(m: SummaryFields, text: Seq<char>)
    ensures
        read_part(m, "文本预览: "@ + text) == (m.0, m.1, m.2, trim(text)),
{
    lemma_labels();
    let p = "文本预览: "@ + text;
    lemma_not_prefix(p, "文件: "@, 1);
    lemma_not_prefix(p, "大小: "@, 0);
    lemma_not_prefix(p, "类型: "@, 0);
    lemma_strip_own("文本预览: "@, text);
}

proof fn lemma_read_binary_note(m: SummaryFields)
    ensures
        read_part(m, binary_note()) == (m.0, m.1, m.2, binary_note()),
{
    lemma_labels();
    let p = binary_note();
    lemma_not_prefix(p, "文件: "@, 0);
    lemma_not_prefix(p, "大小: "@, 0);
    lemma_not_prefix(p, "类型: "@, 0);
    lemma_not_prefix(p, "文本预览: "@, 0);
    assert(p.subrange(0, p.len() as int) =~= p);
    assert(occurs_at(p, binary_note(), 0));
}

proof fn lemma_bar_free_concat(a: Seq<char>, b: Seq<char>)
    requires
        bar_free(a),
        bar_free(b),
    ensures
        bar_free(a + b),
{
    assert forall|i: int| 0 <= i < (a + b).len() implies (a + b)[i] != '|' by {
        if i < a.len() {
            assert((a + b)[i] == a[i]);
        } else {
            assert((a + b)[i] == b[i - a.len()]);
        }
    }
}

/// What the preview of a file summary reads back as: the trimmed text
/// preview for text, the binary note for any other content.
pub open spec fn preview_read_back(label: Seq<char>, bytes: Seq<u8>) -> Seq<char> {
    if is_textual(label) {
        trim(text_preview(file_text(bytes)))
    } else {
        binary_note()
    }
}

/// The four parts of a summary split at the separators.
proof fn lemma_summary_split(name: Seq<char>, h: Seq<char>, label: Seq<char>, last: Seq<char>)
    requires
        bar_free(name),
        bar_free(h),
        bar_free(label),
        bar_free(last),
    ensures
        split_all(
            "文件: "@ + name + " | "@ + "大小: "@ + h + " | "@ + "类型: "@ + label + " | "@ + last,
            " | "@,
        ) == seq!["文件: "@ + name, "大小: "@ + h, "类型: "@ + label, last],
{
    lemma_labels();
    let sep = " | "@;
    let p1 = "文件: "@ + name;
    let p2 = "大小: "@ + h;
    let p3 = "类型: "@ + label;
    lemma_bar_free_concat("文件: "@, name);
    lemma_bar_free_concat("大小: "@, h);
    lemma_bar_free_concat("类型: "@, label);
    let r2 = p3 + sep + last;
    let r1 = p2 + sep + r2;
    assert("文件: "@ + name + " | "@ + "大小: "@ + h + " | "@ + "类型: "@ + label + " | "@ + last
        =~= p1 + sep + r1);
    lemma_split_head(p1, r1);
    lemma_split_head(p2, r2);
    lemma_split_head(p3, last);
    lemma_split_single(last);
    assert(seq![p1] + (seq![p2] + (seq![p3] + seq![last])) =~= seq![p1, p2, p3, last]);
}

/// Reading the four parts of a summary in order.
proof fn lemma_read_summary(name: Seq<char>, h: Seq<char>, label: Seq<char>, last: Seq<char>)
    ensures
        read_parts(seq!["文件: "@ + name, "大小: "@ + h, "类型: "@ + label, last]) == read_part(
            (trim(name), normalized_size_label(trim(h)), trim(label), Seq::empty()),
            last,
        ),
{
    let p1 = "文件: "@ + name;
    let p2 = "大小: "@ + h;
    let p3 = "类型: "@ + label;
    let e: SummaryFields = (Seq::empty(), Seq::empty(), Seq::empty(), Seq::empty());
    assert(seq![p1, p2, p3, last].drop_last() =~= seq![p1, p2, p3]);
    assert(seq![p1, p2, p3].drop_last() =~= seq![p1, p2]);
    assert(seq![p1, p2].drop_last() =~= seq![p1]);
    assert(seq![p1].drop_last() =~= Seq::<Seq<char>>::empty());
    lemma_read_name(e, name);
    let m1 = read_part(e, p1);
    lemma_read_size(m1, h);
    let m2 = read_part(m1, p2);
    lemma_read_type(m2, label);
    assert(read_parts(Seq::<Seq<char>>::empty()) == e);
    assert(seq![p1].last() == p1);
    assert(read_parts(seq![p1]) == m1);
    assert(seq![p1, p2].last() == p2);
    assert(read_parts(seq![p1, p2]) == m2);
    assert(seq![p1, p2, p3].last() == p3);
    assert(read_parts(seq![p1, p2, p3]) == read_part(m2, p3));
    assert(seq![p1, p2, p3, last].last() == last);
}

/// The last part of a file summary.
pub open spec fn summary_last_part(label: Seq<char>, bytes: Seq<u8>) -> Seq<char> {
    if is_textual(label) {
        "文本预览: "@ + text_preview(file_text(bytes))
    } else {
        binary_note()
    }
}

/// The type label of a file is already trimmed.
proof fn lemma_label_trimmed(content_type: Option<Seq<char>>)
    ensures
        trim(file_type_label(content_type)) == file_type_label(content_type),
{
    reveal_strlit("application/octet-stream");
    match content_type {
        Some(c) => {
            if trim(c).len() > 0 {
                lemma_trim_twice(c);
            } else {
                lemma_trim_fixed("application/octet-stream"@);
            }
        },
        None => {
            lemma_trim_fixed("application/octet-stream"@);
        },
    }
}

/// A file summary reads back to what it was written from: the file name
/// (trimmed), the human-readable size, the type, and the preview (the text
/// preview for text, the binary note for binary content), as long as no
/// bar character can be taken for a field separator.
#[verifier::rlimit(80)]
pub proof fn law_file_summary_reads_back(
    file_name: Seq<char>,
    size_bytes: nat,
    content_type: Option<Seq<char>>,
    bytes: Seq<u8>,
)
    requires
        bar_free(file_name),
        bar_free(file_type_label(content_type)),
        is_textual(file_type_label(content_type)) ==> bar_free(
            text_preview(file_text(bytes)),
        ),
    ensures
        summary_fields(file_summary_text(file_name, size_bytes, content_type, bytes)) == Some(
            (
                trim(file_name),
                human_size_text(size_bytes),
                file_type_label(content_type),
                preview_read_back(file_type_label(content_type), bytes),
            ),
        ),
{
    lemma_labels();
    let label = file_type_label(content_type);
    let h = human_size_text(size_bytes);
    let last = summary_last_part(label, bytes);
    let summary = file_summary_text(file_name, size_bytes, content_type, bytes);
    lemma_human_size_shape(size_bytes);
    lemma_human_size_label(size_bytes);
    lemma_label_trimmed(content_type);
    if is_textual(label) {
        lemma_bar_free_concat("文本预览: "@, text_preview(file_text(bytes)));
    }
    assert(summary =~= "文件: "@ + file_name + " | "@ + "大小: "@ + h + " | "@ + "类型: "@ + label
        + " | "@ + last);
    lemma_summary_split(file_name, h, label, last);
    lemma_read_summary(file_name, h, label, last);
    let m3: SummaryFields = (trim(file_name), h, label, Seq::empty());
    if is_textual(label) {
        lemma_read_preview(m3, text_preview(file_text(bytes)));
    } else {
        lemma_read_binary_note(m3);
    }
    assert(summary.subrange(0, 4) =~= "文件: "@);
    assert(starts_with(summary, "文件: "@));
}

} // verus!
