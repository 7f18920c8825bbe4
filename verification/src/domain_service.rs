use std::time::{SystemTime, UNIX_EPOCH};
use vstd::prelude::*;
use vstd::string::StringSliceAdditionalSpecFns;
use vstd::utf8::encode_utf8;

use crate::model::{
    generate_content_hash, hex_bytes, lemma_table_finite, sha256_of, ComplianceProfile, DomainRecord,
    DurabilityProfile, EconomicsProfile, RetrievalProfile, StateSnapshot,
};
use crate::text::{concat2, chars_of, decimal, decimal_chars, extend_chars, extend_str, str_equal, string_from_chars};

verus! {

// ---------------------------------------------------------------------------
// Clock
// ---------------------------------------------------------------------------

/// `SystemTime::now()` as whole seconds since the Unix epoch, 0 when the clock
/// reads before the epoch. Nothing is stated of the value: it is the time.
#[verifier::external_body]
fn now_ts() -> (t: u64) {
    match SystemTime::now().duration_since(UNIX_EPOCH) {
        Ok(d) => d.as_secs(),
        Err(_) => 0,
    }
}

/// `u64::saturating_add`.
pub open spec fn sat_add(a: u64, b: u64) -> u64 {
    if a + b > u64::MAX {
        u64::MAX
    } else {
        (a + b) as u64
    }
}

// ---------------------------------------------------------------------------
// Input rules
// ---------------------------------------------------------------------------

/// Characters a domain name may hold: ASCII letters and digits, '.', '-'.
pub open spec fn domain_char_ok(c: char) -> bool {
    ('a' <= c && c <= 'z') || ('A' <= c && c <= 'Z') || ('0' <= c && c <= '9') || c == '.'
        || c == '-'
}

/// The length in bytes of the UTF-8 encoding of a text (`str::len`).
pub open spec fn byte_len(d: Seq<char>) -> usize {
    encode_utf8(d).len() as usize
}

/// Why a domain name is refused, if it is: its UTF-8 length must be within
/// [3, 253], it must hold a dot, and only letters, digits, '.' and '-'.
pub open spec fn domain_error(d: Seq<char>) -> Option<Seq<char>> {
    if byte_len(d) < 3 || byte_len(d) > 253 {
        Some("domain length must be between 3 and 253"@)
    } else if !d.contains('.') {
        Some("domain must contain at least one dot"@)
    } else if exists|i: int| 0 <= i < d.len() && !domain_char_ok(d[i]) {
        Some("domain can only contain letters, digits, '.', '-'"@)
    } else {
        None
    }
}

/// Why a time-to-live is refused, if it is: it must lie within
/// [60, 31536000] seconds.
pub open spec fn ttl_error(ttl: u64) -> Option<Seq<char>> {
    if ttl < 60 || ttl > 31_536_000 {
        Some("ttl must be in [60, 31536000] seconds"@)
    } else {
        None
    }
}

fn domain_char_ok_exec(c: char) -> (r: bool)
    ensures
        r == domain_char_ok(c),
{
    ('a' <= c && c <= 'z') || ('A' <= c && c <= 'Z') || ('0' <= c && c <= '9') || c == '.'
        || c == '-'
}

/// Checks a domain name against the naming rules.
pub fn validate_domain(domain: &str) -> (r: Result<(), String>)
    ensures
        match r {
            Ok(()) => domain_error(domain@) is None,
            Err(e) => domain_error(domain@) == Some(e@),
        },
{
    let n = domain.len();
    if n < 3 || n > 253 {
        return Err(String::from_str("domain length must be between 3 and 253"));
    }
    let cs = chars_of(domain);
    let mut has_dot = false;
    let mut i: usize = 0;
    while i < cs.len()
        invariant
            i <= cs.len(),
            cs@ == domain@,
            has_dot == (exists|j: int| 0 <= j < i && cs@[j] == '.'),
        decreases cs.len() - i,
    {
        if cs[i] == '.' {
            has_dot = true;
        }
        i = i + 1;
    }
    if !has_dot {
        assert(!domain@.contains('.'));
        return Err(String::from_str("domain must contain at least one dot"));
    }
    assert(domain@.contains('.'));
    let mut j: usize = 0;
    while j < cs.len()
        invariant
            j <= cs.len(),
            cs@ == domain@,
            forall|k: int| 0 <= k < j ==> domain_char_ok(cs@[k]),
            3 <= byte_len(domain@) <= 253,
            domain@.contains('.'),
        decreases cs.len() - j,
    {
        if !domain_char_ok_exec(cs[j]) {
            assert(0 <= j < domain@.len() && !domain_char_ok(domain@[j as int]));
            return Err(String::from_str("domain can only contain letters, digits, '.', '-'"));
        }
        j = j + 1;
    }
    Ok(())
}

/// Checks a time-to-live against the allowed range.
pub fn validate_ttl(ttl: u64) -> (r: Result<(), String>)
    ensures
        match r {
            Ok(()) => ttl_error(ttl) is None,
            Err(e) => ttl_error(ttl) == Some(e@),
        },
{
    if ttl < 60 || ttl > 31_536_000 {
        return Err(String::from_str("ttl must be in [60, 31536000] seconds"));
    }
    Ok(())
}

// ---------------------------------------------------------------------------
// Default governance policies
// ---------------------------------------------------------------------------

/// The views of a list of strings.
pub open spec fn texts(v: Seq<String>) -> Seq<Seq<char>> {
    v.map_values(|s: String| s@)
}

/// The default policies given to every new record: a 120 ms retrieval
/// target behind three cache layers, 5 replicas with 10+4 erasure coding and
/// repair at 3 on three self-hosted clusters, a hybrid reserved/spot budget
/// with 24-hour quotes and a 20% rebalance threshold, and client-side
/// AES-256 with pinning to ap-east and eu-central and an audit trail.
pub open spec fn has_default_policies(r: DomainRecord) -> bool {
    &&& r.retrieval_profile.target_p95_ms == 120
    &&& texts(r.retrieval_profile.acceleration_layers@) == seq![
        "edge-cache"@,
        "gateway-cache"@,
        "origin-fallback"@,
    ]
    &&& r.durability_profile.min_replicas == 5
    &&& r.durability_profile.erasure_coding@ == "10+4"@
    &&& r.durability_profile.repair_threshold == 3
    &&& texts(r.durability_profile.node_clusters@) == seq![
        "nebula-self-hosted-core"@,
        "nebula-self-hosted-edge"@,
        "nebula-self-hosted-archive"@,
    ]
    &&& r.economics_profile.budget_mode@ == "hybrid-reserved+spot"@
    &&& r.economics_profile.quote_valid_hours == 24
    &&& r.economics_profile.rebalance_threshold_percent == 20
    &&& r.compliance_profile.encryption@ == "client-side-aes256"@
    &&& texts(r.compliance_profile.regional_pinning@) == seq!["ap-east"@, "eu-central"@]
    &&& r.compliance_profile.audit_trail
}

fn strings3(a: &str, b: &str, c: &str) -> (v: Vec<String>)
    ensures
        texts(v@) == seq![a@, b@, c@],
{
    let v = vec![String::from_str(a), String::from_str(b), String::from_str(c)];
    assert(texts(v@) =~= seq![a@, b@, c@]);
    v
}

/// Builds a record with the default governance policies.
pub fn record_with_default_policies(
    data_id: String,
    content_hash: String,
    stored_data_desc: String,
    content_type: String,
    preview_url: String,
    domain: String,
    owner: String,
    deployment: String,
    created_at: u64,
    expires_at: u64,
) -> (r: DomainRecord)
    ensures
        has_default_policies(r),
        r.data_id == data_id,
        r.content_hash == content_hash,
        r.stored_data_desc == stored_data_desc,
        r.content_type == content_type,
        r.preview_url == preview_url,
        r.domain == domain,
        r.owner == owner,
        r.deployment == deployment,
        r.created_at == created_at,
        r.expires_at == expires_at,
        r.last_renewed_at == created_at,
{
    let pinning = vec![String::from_str("ap-east"), String::from_str("eu-central")];
    assert(texts(pinning@) =~= seq!["ap-east"@, "eu-central"@]);
    DomainRecord {
        data_id,
        content_hash,
        stored_data_desc,
        content_type,
        preview_url,
        domain,
        owner,
        deployment,
        created_at,
        expires_at,
        last_renewed_at: created_at,
        retrieval_profile: RetrievalProfile {
            target_p95_ms: 120,
            acceleration_layers: strings3("edge-cache", "gateway-cache", "origin-fallback"),
        },
        durability_profile: DurabilityProfile {
            min_replicas: 5,
            erasure_coding: String::from_str("10+4"),
            repair_threshold: 3,
            node_clusters: strings3(
                "nebula-self-hosted-core",
                "nebula-self-hosted-edge",
                "nebula-self-hosted-archive",
            ),
        },
        economics_profile: EconomicsProfile {
            budget_mode: String::from_str("hybrid-reserved+spot"),
            quote_valid_hours: 24,
            rebalance_threshold_percent: 20,
        },
        compliance_profile: ComplianceProfile {
            encryption: String::from_str("client-side-aes256"),
            regional_pinning: pinning,
            audit_trail: true,
        },
    }
}

// ---------------------------------------------------------------------------
// Register
// ---------------------------------------------------------------------------

/// Why a registration is refused, if it is. Domain rules come first, then
/// the time-to-live, then uniqueness of the name.
pub open spec fn register_error(
    domains: Map<Seq<char>, DomainRecord>,
    domain: Seq<char>,
    ttl: u64,
) -> Option<Seq<char>> {
    if domain_error(domain) is Some {
        domain_error(domain)
    } else if ttl_error(ttl) is Some {
        ttl_error(ttl)
    } else if domains.contains_key(domain) {
        Some("domain already exists: "@ + domain)
    } else {
        None
    }
}

/// The text whose hash becomes a registered record's content hash.
pub open spec fn registration_seed(
    owner: Seq<char>,
    domain: Seq<char>,
    deployment: Seq<char>,
    now: u64,
) -> Seq<char> {
    owner + "|"@ + domain + "|"@ + deployment + "|"@ + decimal(now as nat)
}

/// `r` is the record that a registration at time `now` creates.
pub open spec fn is_registered_record(
    r: DomainRecord,
    owner: Seq<char>,
    domain: Seq<char>,
    deployment: Seq<char>,
    ttl: u64,
    now: u64,
    data_id: Seq<char>,
) -> bool {
    &&& has_default_policies(r)
    &&& r.data_id@ == data_id
    &&& r.content_hash@ == hex_bytes(
        sha256_of(encode_utf8(registration_seed(owner, domain, deployment, now))),
    )
    &&& r.stored_data_desc@.len() == 0
    &&& r.content_type@.len() == 0
    &&& r.preview_url@.len() == 0
    &&& r.domain@ == domain
    &&& r.owner@ == owner
    &&& r.deployment@ == deployment
    &&& r.created_at == now
    &&& r.expires_at == sat_add(now, ttl)
    &&& r.last_renewed_at == now
}

/// The confirmation a registration answers with.
pub open spec fn register_message(
    owner: Seq<char>,
    domain: Seq<char>,
    deployment: Seq<char>,
    ttl: u64,
) -> Seq<char> {
    "registered domain="@ + domain + " owner="@ + owner + " deployment="@ + deployment + " ttl="@
        + decimal(ttl as nat) + "s"@
}

/// Registers `domain` for `owner` at time `now`, with the default policies.
pub fn register_at(
    snapshot: &mut StateSnapshot,
    owner: &str,
    domain: &str,
    deployment: &str,
    ttl: u64,
    now: u64,
    data_id: String,
) -> (r: Result<String, String>)
    ensures
        match r {
            Ok(msg) => {
                &&& register_error(old(snapshot).domains@, domain@, ttl) is None
                &&& final(snapshot).domains@.dom() == old(snapshot).domains@.dom().insert(domain@)
                &&& final(snapshot).domains@ == old(snapshot).domains@.insert(
                    domain@,
                    final(snapshot).domains@[domain@],
                )
                &&& is_registered_record(
                    final(snapshot).domains@[domain@],
                    owner@,
                    domain@,
                    deployment@,
                    ttl,
                    now,
                    data_id@,
                )
                &&& final(snapshot).updated_at == now
                &&& final(snapshot).version == old(snapshot).version
                &&& msg@ == register_message(owner@, domain@, deployment@, ttl)
            },
            Err(e) => {
                &&& register_error(old(snapshot).domains@, domain@, ttl) == Some(e@)
                &&& *final(snapshot) == *old(snapshot)
            },
        },
{
    validate_domain(domain)?;
    validate_ttl(ttl)?;
    if snapshot.domains.position(domain).is_some() {
        let mut v: Vec<char> = Vec::new();
        extend_str(&mut v, "domain already exists: ");
        extend_str(&mut v, domain);
        return Err(string_from_chars(v.as_slice()));
    }
    let mut seed: Vec<char> = Vec::new();
    extend_str(&mut seed, owner);
    extend_str(&mut seed, "|");
    extend_str(&mut seed, domain);
    extend_str(&mut seed, "|");
    extend_str(&mut seed, deployment);
    extend_str(&mut seed, "|");
    let now_text = decimal_chars(now);
    extend_chars(&mut seed, now_text.as_slice());
    let seed_text = string_from_chars(seed.as_slice());
    let content_hash = generate_content_hash(seed_text.as_str());
    let record = record_with_default_policies(
        data_id,
        content_hash,
        String::new(),
        String::new(),
        String::new(),
        String::from_str(domain),
        String::from_str(owner),
        String::from_str(deployment),
        now,
        now.saturating_add(ttl),
    );
    let ghost rec = record;
    snapshot.domains.insert(String::from_str(domain), record);
    snapshot.updated_at = now;
    proof {
        assert(snapshot.domains@.dom() =~= old(snapshot).domains@.dom().insert(domain@));
    }
    let mut m: Vec<char> = Vec::new();
    extend_str(&mut m, "registered domain=");
    extend_str(&mut m, domain);
    extend_str(&mut m, " owner=");
    extend_str(&mut m, owner);
    extend_str(&mut m, " deployment=");
    extend_str(&mut m, deployment);
    extend_str(&mut m, " ttl=");
    let ttl_text = decimal_chars(ttl);
    extend_chars(&mut m, ttl_text.as_slice());
    extend_str(&mut m, "s");
    Ok(string_from_chars(m.as_slice()))
}

/// Registers `domain` for `owner` with a fresh record identified by
/// `data_id`, timestamped with the current time.
pub fn register(
    snapshot: &mut StateSnapshot,
    owner: &str,
    domain: &str,
    deployment: &str,
    ttl: u64,
    data_id: String,
) -> (r: Result<String, String>)
    ensures
        match r {
            Ok(msg) => {
                &&& register_error(old(snapshot).domains@, domain@, ttl) is None
                &&& final(snapshot).domains@ == old(snapshot).domains@.insert(
                    domain@,
                    final(snapshot).domains@[domain@],
                )
                &&& is_registered_record(
                    final(snapshot).domains@[domain@],
                    owner@,
                    domain@,
                    deployment@,
                    ttl,
                    final(snapshot).updated_at,
                    data_id@,
                )
                &&& final(snapshot).version == old(snapshot).version
                &&& msg@ == register_message(owner@, domain@, deployment@, ttl)
            },
            Err(e) => {
                &&& register_error(old(snapshot).domains@, domain@, ttl) == Some(e@)
                &&& *final(snapshot) == *old(snapshot)
            },
        },
{
    let now = now_ts();
    register_at(snapshot, owner, domain, deployment, ttl, now, data_id)
}

// ---------------------------------------------------------------------------
// Renew
// ---------------------------------------------------------------------------

/// Why a renewal is refused, if it is: the time-to-live rules, then the
/// domain must exist, then the caller must own it.
pub open spec fn renew_error(
    domains: Map<Seq<char>, DomainRecord>,
    owner: Seq<char>,
    domain: Seq<char>,
    ttl: u64,
) -> Option<Seq<char>> {
    if ttl_error(ttl) is Some {
        ttl_error(ttl)
    } else if !domains.contains_key(domain) {
        Some("domain not found: "@ + domain)
    } else if domains[domain].owner@ != owner {
        Some("owner mismatch for domain "@ + domain)
    } else {
        None
    }
}

/// The expiry after a renewal at `now`: an expired domain is renewed from
/// `now`, an active one from its current expiry; the sum saturates.
pub open spec fn renewed_expiry(expires_at: u64, now: u64, ttl: u64) -> u64 {
    sat_add(if expires_at >= now { expires_at } else { now }, ttl)
}

/// The record after a renewal at `now`: new expiry and renewal time.
pub open spec fn renewed_record(r: DomainRecord, now: u64, ttl: u64) -> DomainRecord {
    DomainRecord { expires_at: renewed_expiry(r.expires_at, now, ttl), last_renewed_at: now, ..r }
}

/// The confirmation a renewal answers with.
pub open spec fn renew_message(owner: Seq<char>, domain: Seq<char>, expiry: u64) -> Seq<char> {
    "renewed domain="@ + domain + " owner="@ + owner + " new_expiry="@ + decimal(expiry as nat)
}

fn owner_mismatch(domain: &str) -> (e: String)
    ensures
        e@ == "owner mismatch for domain "@ + domain@,
{
    concat2("owner mismatch for domain ", domain)
}

fn not_found(domain: &str) -> (e: String)
    ensures
        e@ == "domain not found: "@ + domain@,
{
    concat2("domain not found: ", domain)
}

/// Extends the registration of `domain` by `ttl` seconds at time `now`.
pub fn renew_at(snapshot: &mut StateSnapshot, owner: &str, domain: &str, ttl: u64, now: u64) -> (r:
    Result<String, String>)
    ensures
        match r {
            Ok(msg) => {
                &&& renew_error(old(snapshot).domains@, owner@, domain@, ttl) is None
                &&& final(snapshot).domains@ == old(snapshot).domains@.insert(
                    domain@,
                    renewed_record(old(snapshot).domains@[domain@], now, ttl),
                )
                &&& final(snapshot).updated_at == now
                &&& final(snapshot).version == old(snapshot).version
                &&& msg@ == renew_message(
                    owner@,
                    domain@,
                    renewed_expiry(old(snapshot).domains@[domain@].expires_at, now, ttl),
                )
            },
            Err(e) => {
                &&& renew_error(old(snapshot).domains@, owner@, domain@, ttl) == Some(e@)
                &&& *final(snapshot) == *old(snapshot)
            },
        },
{
    validate_ttl(ttl)?;
    let i = match snapshot.domains.position(domain) {
        Some(i) => i,
        None => return Err(not_found(domain)),
    };
    let rec = &snapshot.domains.entry_at(i).record;
    if !str_equal(rec.owner.as_str(), owner) {
        return Err(owner_mismatch(domain));
    }
    let base = if rec.expires_at >= now { rec.expires_at } else { now };
    let expiry = base.saturating_add(ttl);
    snapshot.domains.set_times_at(i, expiry, now);
    snapshot.updated_at = now;
    let mut m: Vec<char> = Vec::new();
    extend_str(&mut m, "renewed domain=");
    extend_str(&mut m, domain);
    extend_str(&mut m, " owner=");
    extend_str(&mut m, owner);
    extend_str(&mut m, " new_expiry=");
    let e = decimal_chars(expiry);
    extend_chars(&mut m, e.as_slice());
    Ok(string_from_chars(m.as_slice()))
}

/// Extends the registration of `domain` by `ttl` seconds from the current
/// time or from its expiry, whichever is later. Only the owner may renew.
pub fn renew(snapshot: &mut StateSnapshot, owner: &str, domain: &str, ttl: u64) -> (r: Result<
    String,
    String,
>)
    ensures
        match r {
            Ok(msg) => {
                &&& renew_error(old(snapshot).domains@, owner@, domain@, ttl) is None
                &&& final(snapshot).domains@ == old(snapshot).domains@.insert(
                    domain@,
                    renewed_record(old(snapshot).domains@[domain@], final(snapshot).updated_at, ttl),
                )
                &&& final(snapshot).version == old(snapshot).version
                &&& msg@ == renew_message(
                    owner@,
                    domain@,
                    renewed_expiry(
                        old(snapshot).domains@[domain@].expires_at,
                        final(snapshot).updated_at,
                        ttl,
                    ),
                )
            },
            Err(e) => {
                &&& renew_error(old(snapshot).domains@, owner@, domain@, ttl) == Some(e@)
                &&& *final(snapshot) == *old(snapshot)
            },
        },
{
    let now = now_ts();
    renew_at(snapshot, owner, domain, ttl, now)
}

// ---------------------------------------------------------------------------
// Delete
// ---------------------------------------------------------------------------

/// Why a deletion is refused, if it is: the domain must exist and the caller
/// must own it.
pub open spec fn delete_error(
    domains: Map<Seq<char>, DomainRecord>,
    owner: Seq<char>,
    domain: Seq<char>,
) -> Option<Seq<char>> {
    if !domains.contains_key(domain) {
        Some("domain not found: "@ + domain)
    } else if domains[domain].owner@ != owner {
        Some("owner mismatch for domain "@ + domain)
    } else {
        None
    }
}

/// The confirmation a deletion answers with.
pub open spec fn delete_message(owner: Seq<char>, domain: Seq<char>) -> Seq<char> {
    "deleted domain="@ + domain + " owner="@ + owner
}

/// Removes `domain` at time `now`; only its owner may.
pub fn delete_at(snapshot: &mut StateSnapshot, owner: &str, domain: &str, now: u64) -> (r: Result<
    String,
    String,
>)
    ensures
        match r {
            Ok(msg) => {
                &&& delete_error(old(snapshot).domains@, owner@, domain@) is None
                &&& final(snapshot).domains@ == old(snapshot).domains@.remove(domain@)
                &&& final(snapshot).domains@.len() == old(snapshot).domains@.len() - 1
                &&& final(snapshot).updated_at == now
                &&& final(snapshot).version == old(snapshot).version
                &&& msg@ == delete_message(owner@, domain@)
            },
            Err(e) => {
                &&& delete_error(old(snapshot).domains@, owner@, domain@) == Some(e@)
                &&& *final(snapshot) == *old(snapshot)
            },
        },
{
    let rec = match snapshot.domains.get(domain) {
        Some(rec) => rec,
        None => return Err(not_found(domain)),
    };
    if !str_equal(rec.owner.as_str(), owner) {
        return Err(owner_mismatch(domain));
    }
    proof {
        lemma_table_finite(snapshot.domains);
    }
    snapshot.domains.remove(domain);
    snapshot.updated_at = now;
    let mut m: Vec<char> = Vec::new();
    extend_str(&mut m, "deleted domain=");
    extend_str(&mut m, domain);
    extend_str(&mut m, " owner=");
    extend_str(&mut m, owner);
    Ok(string_from_chars(m.as_slice()))
}

/// Removes `domain`; only its owner may.
pub fn delete(snapshot: &mut StateSnapshot, owner: &str, domain: &str) -> (r: Result<
    String,
    String,
>)
    ensures
        match r {
            Ok(msg) => {
                &&& delete_error(old(snapshot).domains@, owner@, domain@) is None
                &&& final(snapshot).domains@ == old(snapshot).domains@.remove(domain@)
                &&& final(snapshot).domains@.len() == old(snapshot).domains@.len() - 1
                &&& final(snapshot).version == old(snapshot).version
                &&& msg@ == delete_message(owner@, domain@)
            },
            Err(e) => {
                &&& delete_error(old(snapshot).domains@, owner@, domain@) == Some(e@)
                &&& *final(snapshot) == *old(snapshot)
            },
        },
{
    let now = now_ts();
    delete_at(snapshot, owner, domain, now)
}

// ---------------------------------------------------------------------------
// Resolve
// ---------------------------------------------------------------------------

/// The status of a record at time `now`: active strictly before its expiry.
pub open spec fn domain_status(r: DomainRecord, now: u64) -> Seq<char> {
    if r.expires_at > now {
        "active"@
    } else {
        "expired"@
    }
}

/// Looks up `domain` at time `now`: its status and its record.
pub fn resolve_at<'a>(snapshot: &'a StateSnapshot, domain: &str, now: u64) -> (r: Result<
    (String, &'a DomainRecord),
    String,
>)
    ensures
        match r {
            Ok((status, rec)) => {
                &&& snapshot.domains@.contains_key(domain@)
                &&& *rec == snapshot.domains@[domain@]
                &&& status@ == domain_status(*rec, now)
            },
            Err(e) => {
                &&& !snapshot.domains@.contains_key(domain@)
                &&& e@ == "domain not found: "@ + domain@
            },
        },
{
    match snapshot.domains.get(domain) {
        Some(rec) => {
            let status = if rec.expires_at > now {
                String::from_str("active")
            } else {
                String::from_str("expired")
            };
            Ok((status, rec))
        },
        None => Err(not_found(domain)),
    }
}

/// Looks up `domain` now: its status and its record.
pub fn resolve<'a>(snapshot: &'a StateSnapshot, domain: &str) -> (r: Result<
    (String, &'a DomainRecord),
    String,
>)
    ensures
        match r {
            Ok((status, rec)) => {
                &&& snapshot.domains@.contains_key(domain@)
                &&& *rec == snapshot.domains@[domain@]
                &&& exists|t: u64| status@ == #[trigger] domain_status(*rec, t)
            },
            Err(e) => {
                &&& !snapshot.domains@.contains_key(domain@)
                &&& e@ == "domain not found: "@ + domain@
            },
        },
{
    let now = now_ts();
    resolve_at(snapshot, domain, now)
}

// ---------------------------------------------------------------------------
// Laws of the registry
// ---------------------------------------------------------------------------

/// A freshly registered domain resolves to its owner and is active at the
/// time of registration (unless that time is the last representable second).
pub proof fn law_registered_domain_resolves(
    domains: Map<Seq<char>, DomainRecord>,
    rec: DomainRecord,
    owner: Seq<char>,
    domain: Seq<char>,
    deployment: Seq<char>,
    ttl: u64,
    now: u64,
    data_id: Seq<char>,
)
    requires
        register_error(domains, domain, ttl) is None,
        is_registered_record(rec, owner, domain, deployment, ttl, now, data_id),
        now < u64::MAX,
    ensures
        domains.insert(domain, rec).contains_key(domain),
        domains.insert(domain, rec)[domain].owner@ == owner,
        domain_status(domains.insert(domain, rec)[domain], now) == "active"@,
{
}

/// A registered domain cannot be registered again, whatever the new
/// time-to-live.
pub proof fn law_no_double_registration(
    domains: Map<Seq<char>, DomainRecord>,
    rec: DomainRecord,
    domain: Seq<char>,
    ttl: u64,
    ttl2: u64,
)
    requires
        register_error(domains, domain, ttl) is None,
    ensures
        register_error(domains.insert(domain, rec), domain, ttl2) is Some,
        ttl_error(ttl2) is None ==> register_error(domains.insert(domain, rec), domain, ttl2)
            == Some("domain already exists: "@ + domain),
{
}

/// Deleting a domain right after registering it, as its owner, succeeds and
/// gives back exactly the table there was before.
pub proof fn law_delete_undoes_register(
    domains: Map<Seq<char>, DomainRecord>,
    rec: DomainRecord,
    owner: Seq<char>,
    domain: Seq<char>,
    ttl: u64,
)
    requires
        register_error(domains, domain, ttl) is None,
        rec.owner@ == owner,
    ensures
        delete_error(domains.insert(domain, rec), owner, domain) is None,
        domains.insert(domain, rec).remove(domain) == domains,
{
    assert(domains.insert(domain, rec).remove(domain) =~= domains);
}

/// Only the owner of a domain may renew or delete it.
pub proof fn law_only_owner_changes(
    domains: Map<Seq<char>, DomainRecord>,
    caller: Seq<char>,
    domain: Seq<char>,
    ttl: u64,
)
    requires
        domains.contains_key(domain),
        domains[domain].owner@ != caller,
    ensures
        delete_error(domains, caller, domain) == Some("owner mismatch for domain "@ + domain),
        ttl_error(ttl) is None ==> renew_error(domains, caller, domain, ttl) == Some(
            "owner mismatch for domain "@ + domain,
        ),
{
}

/// A renewal never shortens a registration: the new expiry is at least the
/// old expiry and at least the renewal time, and exceeds both by `ttl` when
/// the sum does not saturate.
pub proof fn law_renew_extends(r: DomainRecord, now: u64, ttl: u64)
    ensures
        renewed_record(r, now, ttl).expires_at >= r.expires_at,
        renewed_record(r, now, ttl).expires_at >= now,
        (if r.expires_at >= now { r.expires_at } else { now }) + ttl <= u64::MAX ==> renewed_record(
            r,
            now,
            ttl,
        ).expires_at == (if r.expires_at >= now { r.expires_at } else { now }) + ttl,
        renewed_record(r, now, ttl).owner == r.owner,
        renewed_record(r, now, ttl).created_at == r.created_at,
{
}

/// Register, renew and delete change no domain but their own.
pub proof fn law_other_domains_untouched(
    domains: Map<Seq<char>, DomainRecord>,
    domain: Seq<char>,
    other: Seq<char>,
    rec: DomainRecord,
)
    requires
        other != domain,
    ensures
        domains.insert(domain, rec).contains_key(other) == domains.contains_key(other),
        domains.remove(domain).contains_key(other) == domains.contains_key(other),
        domains.contains_key(other) ==> domains.insert(domain, rec)[other] == domains[other]
            && domains.remove(domain)[other] == domains[other],
{
}

} // verus!
