use sha2::{Digest, Sha256};
use vstd::prelude::*;
use vstd::string::StringSliceAdditionalSpecFns;

use crate::text::{all_hex, hex_value, is_hex_char, lemma_padded_hex_reads_back, lemma_hex_len_bound, lemma_padded_hex_injective, lemma_padded_hex_order, lemma_text_less_extend, lemma_text_less_prefix, pow16, pad_zeros, hex, digit_char, hex_chars, zero_padded, extend_chars, extend_str, string_from_chars, chars_of, chars_equal, text_less, text_less_exec, lemma_text_less_irreflexive, lemma_text_less_total, lemma_text_less_transitive};

verus! {

// ---------------------------------------------------------------------------
// Governance profiles and domain records
// ---------------------------------------------------------------------------

/// Retrieval policy: hot-path latency target and acceleration layers.
#[derive(Debug)]
pub struct RetrievalProfile {
    pub target_p95_ms: u64,
    pub acceleration_layers: Vec<String>,
}

/// Durability policy: replicas, erasure coding and repair threshold.
#[derive(Debug)]
pub struct DurabilityProfile {
    pub min_replicas: u8,
    pub erasure_coding: String,
    pub repair_threshold: u8,
    pub node_clusters: Vec<String>,
}

/// Economics policy: budget behaviour under price volatility.
#[derive(Debug)]
pub struct EconomicsProfile {
    pub budget_mode: String,
    pub quote_valid_hours: u32,
    pub rebalance_threshold_percent: u8,
}

/// Compliance policy: encryption, data residency and audit.
#[derive(Debug)]
pub struct ComplianceProfile {
    pub encryption: String,
    pub regional_pinning: Vec<String>,
    pub audit_trail: bool,
}

/// A registered domain (or uploaded object) with its governance policies.
#[derive(Debug)]
pub struct DomainRecord {
    pub data_id: String,
    pub content_hash: String,
    pub stored_data_desc: String,
    pub content_type: String,
    pub preview_url: String,
    pub domain: String,
    pub owner: String,
    pub deployment: String,
    pub created_at: u64,
    pub expires_at: u64,
    pub last_renewed_at: u64,
    pub retrieval_profile: RetrievalProfile,
    pub durability_profile: DurabilityProfile,
    pub economics_profile: EconomicsProfile,
    pub compliance_profile: ComplianceProfile,
}

/// A copy of a list of strings.
pub fn copy_strings(v: &Vec<String>) -> (r: Vec<String>)
    ensures
        r@ == v@,
{
    let mut r: Vec<String> = Vec::new();
    let mut i: usize = 0;
    while i < v.len()
        invariant
            i <= v.len(),
            r@ == v@.take(i as int),
        decreases v.len() - i,
    {
        r.push(v[i].clone());
        assert(v@.take(i + 1) == v@.take(i as int).push(v@[i as int]));
        i = i + 1;
    }
    assert(v@.take(v.len() as int) == v@);
    r
}

// ---------------------------------------------------------------------------
// The domain table: records keyed by domain name, kept in key order
// ---------------------------------------------------------------------------

/// One keyed entry of the domain table.
#[derive(Debug)]
pub struct DomainEntry {
    pub key: String,
    pub record: DomainRecord,
}

/// Records keyed by name. Keys are unique and kept in ascending
/// lexicographic order, which is the order in which listings present them.
/// The order is kept here by hand: vstd's specification of `BTreeMap` holds
/// only for keys with a proved comparison, and `String` has none there.
#[derive(Debug)]
pub struct DomainTable {
    entries: Vec<DomainEntry>,
}

/// Keys of an entry sequence are strictly increasing.
pub open spec fn keys_ascending(es: Seq<DomainEntry>) -> bool {
    forall|i: int, j: int| 0 <= i < j < es.len() ==> text_less(es[i].key@, es[j].key@)
}

/// `k` is the key of some entry.
pub open spec fn has_key(es: Seq<DomainEntry>, k: Seq<char>) -> bool {
    exists|i: int| 0 <= i < es.len() && es[i].key@ == k
}

/// The position of an entry with key `k`.
pub open spec fn key_index(es: Seq<DomainEntry>, k: Seq<char>) -> int {
    choose|i: int| 0 <= i < es.len() && es[i].key@ == k
}

/// The map from keys to records that an entry sequence represents.
pub open spec fn entries_map(es: Seq<DomainEntry>) -> Map<Seq<char>, DomainRecord> {
    Map::new(|k: Seq<char>| has_key(es, k), |k: Seq<char>| es[key_index(es, k)].record)
}

proof fn lemma_key_index_unique(es: Seq<DomainEntry>, i: int)
    requires
        keys_ascending(es),
        0 <= i < es.len(),
    ensures
        has_key(es, es[i].key@),
        key_index(es, es[i].key@) == i,
{
    let k = es[i].key@;
    assert(has_key(es, k));
    let j = key_index(es, k);
    if j < i {
        lemma_text_less_irreflexive(k);
    } else if i < j {
        lemma_text_less_irreflexive(k);
    }
}

/// The map of entries has the record of entry `i` at its key.
proof fn lemma_entries_map_at(es: Seq<DomainEntry>, i: int)
    requires
        keys_ascending(es),
        0 <= i < es.len(),
    ensures
        entries_map(es).contains_key(es[i].key@),
        entries_map(es)[es[i].key@] == es[i].record,
{
    lemma_key_index_unique(es, i);
}

proof fn lemma_entries_map_finite(es: Seq<DomainEntry>)
    ensures
        entries_map(es).dom().finite(),
{
    let f = |i: int| es[i].key@;
    let idx = vstd::set_lib::set_int_range(0, es.len() as int);
    assert forall|k: Seq<char>| entries_map(es).dom().contains(k) <==> idx.map(f).contains(k) by {
        if entries_map(es).dom().contains(k) {
            let i = key_index(es, k);
            assert(idx.contains(i) && f(i) == k);
        }
    }
    assert(entries_map(es).dom() =~= idx.map(f));
    vstd::set_lib::lemma_int_range(0, es.len() as int);
    idx.lemma_map_finite(f);
}

proof fn lemma_map_len(es: Seq<DomainEntry>)
    requires
        keys_ascending(es),
    ensures
        entries_map(es).dom().finite(),
        entries_map(es).len() == es.len(),
{
    let f = |i: int| es[i].key@;
    let idx = vstd::set_lib::set_int_range(0, es.len() as int);
    assert forall|k: Seq<char>| entries_map(es).dom().contains(k) <==> idx.map(f).contains(k) by {
        if entries_map(es).dom().contains(k) {
            let i = key_index(es, k);
            assert(idx.contains(i) && f(i) == k);
        }
    }
    assert(entries_map(es).dom() =~= idx.map(f));
    vstd::set_lib::lemma_int_range(0, es.len() as int);
    assert forall|a: int, b: int|
        idx.contains(a) && idx.contains(b) && #[trigger] f(a) == #[trigger] f(b) implies a == b by {
        if a < b {
            lemma_text_less_irreflexive(es[a].key@);
        } else if b < a {
            lemma_text_less_irreflexive(es[a].key@);
        }
    }
    vstd::set_lib::lemma_map_size(idx, idx.map(f), f);
}

impl DomainTable {
    #[verifier::type_invariant]
    spec fn ordered(&self) -> bool {
        keys_ascending(self.entries@)
    }

    /// The entries in ascending key order.
    pub closed spec fn entry_seq(&self) -> Seq<DomainEntry> {
        self.entries@
    }

    /// An empty table.
    pub fn new() -> (t: Self)
        ensures
            t@ == Map::<Seq<char>, DomainRecord>::empty(),
            t.entry_seq().len() == 0,
    {
        let t = DomainTable { entries: Vec::new() };
        assert(t@ =~= Map::<Seq<char>, DomainRecord>::empty());
        t
    }

    /// Number of entries; the entries are in ascending key order.
    pub fn len(&self) -> (n: usize)
        ensures
            n == self.entry_seq().len(),
            n == self@.len(),
            self@.dom().finite(),
            keys_ascending(self.entry_seq()),
            forall|i: int|
                0 <= i < n ==> self@.contains_key(#[trigger] self.entry_seq()[i].key@)
                    && self@[self.entry_seq()[i].key@] == self.entry_seq()[i].record,
    {
        proof {
            use_type_invariant(self);
            lemma_map_len(self.entries@);
            assert forall|i: int| 0 <= i < self.entries@.len() implies self@.contains_key(
                #[trigger] self.entry_seq()[i].key@,
            ) && self@[self.entry_seq()[i].key@] == self.entry_seq()[i].record by {
                lemma_entries_map_at(self.entries@, i);
            }
        }
        self.entries.len()
    }

    /// The entry at position `i` in key order.
    pub fn entry_at(&self, i: usize) -> (e: &DomainEntry)
        requires
            i < self.entry_seq().len(),
        ensures
            *e == self.entry_seq()[i as int],
            self@.contains_key(e.key@),
            self@[e.key@] == e.record,
            i > 0 ==> text_less(self.entry_seq()[i - 1].key@, e.key@),
    {
        proof {
            use_type_invariant(self);
            lemma_entries_map_at(self.entries@, i as int);
        }
        &self.entries[i]
    }

    /// Position of the entry with key `key`, if any.
    pub fn position(&self, key: &str) -> (r: Option<usize>)
        ensures
            match r {
                Some(i) => i < self.entry_seq().len() && self.entry_seq()[i as int].key@ == key@
                    && self@.contains_key(key@) && self@[key@] == self.entry_seq()[i as int].record,
                None => !self@.contains_key(key@),
            },
    {
        proof {
            use_type_invariant(self);
        }
        let k = chars_of(key);
        let mut i: usize = 0;
        while i < self.entries.len()
            invariant
                i <= self.entries@.len(),
                k@ == key@,
                forall|j: int| 0 <= j < i ==> self.entries@[j].key@ != key@,
            decreases self.entries@.len() - i,
        {
            let c = chars_of(self.entries[i].key.as_str());
            if chars_equal(c.as_slice(), k.as_slice()) {
                proof {
                    use_type_invariant(self);
                    lemma_entries_map_at(self.entries@, i as int);
                }
                return Some(i);
            }
            i = i + 1;
        }
        None
    }

    /// The record stored under `key`, if any.
    pub fn get(&self, key: &str) -> (r: Option<&DomainRecord>)
        ensures
            match r {
                Some(rec) => self@.contains_key(key@) && *rec == self@[key@],
                None => !self@.contains_key(key@),
            },
    {
        match self.position(key) {
            Some(i) => Some(&self.entries[i].record),
            None => None,
        }
    }

    /// Stores `record` under `key`, replacing any record already there.
    pub fn insert(&mut self, key: String, record: DomainRecord)
        ensures
            final(self)@ == old(self)@.insert(key@, record),
    {
        proof {
            use_type_invariant(&*self);
        }
        let ghost old_es = self.entries@;
        let k = chars_of(key.as_str());
        // first position whose key is not below `key`
        let mut p: usize = 0;
        while p < self.entries.len()
            invariant
                p <= self.entries@.len(),
                self.entries@ == old_es,
                keys_ascending(old_es),
                k@ == key@,
                forall|j: int| 0 <= j < p ==> text_less(old_es[j].key@, key@),
            ensures
                p <= self.entries@.len(),
                self.entries@ == old_es,
                forall|j: int| 0 <= j < p ==> text_less(old_es[j].key@, key@),
                p < self.entries@.len() ==> !text_less(old_es[p as int].key@, key@),
            decreases self.entries@.len() - p,
        {
            let c = chars_of(self.entries[p].key.as_str());
            if !text_less_exec(c.as_slice(), k.as_slice()) {
                break;
            }
            p = p + 1;
        }
        let same = if p < self.entries.len() {
            let c = chars_of(self.entries[p].key.as_str());
            chars_equal(c.as_slice(), k.as_slice())
        } else {
            false
        };
        let mut es = Vec::new();
        std::mem::swap(&mut es, &mut self.entries);
        if same {
            es.set(p, DomainEntry { key, record });
            proof {
                let new_es = es@;
                assert forall|i: int, j: int| 0 <= i < j < new_es.len() implies text_less(
                    new_es[i].key@,
                    new_es[j].key@,
                ) by {
                    assert(new_es[i].key@ == old_es[i].key@);
                    assert(new_es[j].key@ == old_es[j].key@);
                }
                self.lemma_map_after_set(old_es, new_es, p as int, key@, record);
            }
        } else {
            es.insert(p, DomainEntry { key, record });
            proof {
                let new_es = es@;
                assert forall|j: int| p <= j < old_es.len() implies text_less(key@, #[trigger] old_es[j].key@) by {
                    if j == p {
                        lemma_text_less_total(key@, old_es[j].key@);
                    } else {
                        lemma_text_less_total(key@, old_es[p as int].key@);
                        lemma_text_less_transitive(key@, old_es[p as int].key@, old_es[j].key@);
                    }
                }
                assert forall|i: int, j: int| 0 <= i < j < new_es.len() implies text_less(
                    new_es[i].key@,
                    new_es[j].key@,
                ) by {
                    if j < p {
                    } else if j == p {
                    } else if i < p {
                        assert(text_less(old_es[i].key@, key@));
                        lemma_text_less_transitive(old_es[i].key@, key@, old_es[j - 1].key@);
                    } else if i == p {
                    } else {
                    }
                }
                self.lemma_map_after_insert(old_es, new_es, p as int, key@, record);
            }
        }
        self.entries = es;
    }

    proof fn lemma_map_after_set(
        &self,
        old_es: Seq<DomainEntry>,
        new_es: Seq<DomainEntry>,
        p: int,
        key: Seq<char>,
        record: DomainRecord,
    )
        requires
            keys_ascending(old_es),
            keys_ascending(new_es),
            0 <= p < old_es.len(),
            old_es[p].key@ == key,
            new_es.len() == old_es.len(),
            new_es[p].key@ == key,
            new_es[p].record == record,
            forall|i: int| 0 <= i < old_es.len() && i != p ==> new_es[i] == old_es[i],
        ensures
            entries_map(new_es) == entries_map(old_es).insert(key, record),
    {
        let m1 = entries_map(new_es);
        let m2 = entries_map(old_es).insert(key, record);
        assert forall|k: Seq<char>| m1.contains_key(k) <==> m2.contains_key(k) by {
            if m2.contains_key(k) && k != key {
                let i = key_index(old_es, k);
                assert(new_es[i].key@ == k);
            }
            if m1.contains_key(k) && k != key {
                let i = key_index(new_es, k);
                assert(old_es[i].key@ == k);
            }
        }
        assert forall|k: Seq<char>| #[trigger] m1.contains_key(k) implies m1[k] == m2[k] by {
            if k == key {
                lemma_key_index_unique(new_es, p);
            } else {
                let i = key_index(new_es, k);
                lemma_key_index_unique(new_es, i);
                assert(old_es[i].key@ == k);
                lemma_key_index_unique(old_es, i);
            }
        }
        assert(m1 =~= m2);
    }

    proof fn lemma_map_after_insert(
        &self,
        old_es: Seq<DomainEntry>,
        new_es: Seq<DomainEntry>,
        p: int,
        key: Seq<char>,
        record: DomainRecord,
    )
        requires
            keys_ascending(old_es),
            keys_ascending(new_es),
            0 <= p <= old_es.len(),
            new_es == old_es.insert(p, DomainEntry { key: new_es[p].key, record }),
            new_es[p].key@ == key,
        ensures
            entries_map(new_es) == entries_map(old_es).insert(key, record),
    {
        let m1 = entries_map(new_es);
        let m2 = entries_map(old_es).insert(key, record);
        assert forall|k: Seq<char>| m1.contains_key(k) <==> m2.contains_key(k) by {
            if m2.contains_key(k) && k != key {
                let i = key_index(old_es, k);
                if i < p {
                    assert(new_es[i].key@ == k);
                } else {
                    assert(new_es[i + 1].key@ == k);
                }
            }
            if m1.contains_key(k) && k != key {
                let i = key_index(new_es, k);
                if i < p {
                    assert(old_es[i].key@ == k);
                } else if i > p {
                    assert(old_es[i - 1].key@ == k);
                }
            }
            if k == key {
                assert(new_es[p].key@ == k);
            }
        }
        assert forall|k: Seq<char>| #[trigger] m1.contains_key(k) implies m1[k] == m2[k] by {
            if k == key {
                lemma_key_index_unique(new_es, p);
            } else {
                let i = key_index(new_es, k);
                lemma_key_index_unique(new_es, i);
                if i < p {
                    assert(old_es[i].key@ == k);
                    lemma_key_index_unique(old_es, i);
                } else {
                    assert(i != p);
                    assert(old_es[i - 1].key@ == k);
                    lemma_key_index_unique(old_es, i - 1);
                }
            }
        }
        assert(m1 =~= m2);
    }

    /// Sets the expiry and renewal times of the record at position `i`.
    pub fn set_times_at(&mut self, i: usize, expires_at: u64, last_renewed_at: u64)
        requires
            i < old(self).entry_seq().len(),
        ensures
            final(self)@ == old(self)@.insert(
                old(self).entry_seq()[i as int].key@,
                DomainRecord {
                    expires_at,
                    last_renewed_at,
                    ..old(self).entry_seq()[i as int].record
                },
            ),
    {
        proof {
            use_type_invariant(&*self);
        }
        let ghost old_es = self.entries@;
        let mut es = Vec::new();
        std::mem::swap(&mut es, &mut self.entries);
        let mut e = es.remove(i);
        e.record.expires_at = expires_at;
        e.record.last_renewed_at = last_renewed_at;
        let ghost rec = e.record;
        let ghost k = e.key@;
        es.insert(i, e);
        proof {
            let new_es = es@;
            assert forall|a: int| 0 <= a < old_es.len() && a != i implies new_es[a] == old_es[a] by {
            }
            assert forall|a: int, b: int| 0 <= a < b < new_es.len() implies text_less(
                new_es[a].key@,
                new_es[b].key@,
            ) by {
                assert(new_es[a].key@ == old_es[a].key@);
                assert(new_es[b].key@ == old_es[b].key@);
            }
            self.lemma_map_after_set(old_es, new_es, i as int, k, rec);
        }
        self.entries = es;
    }

    /// Replaces the identifier, content hash and content type of the record
    /// at position `i`.
    pub fn set_identity_at(
        &mut self,
        i: usize,
        data_id: String,
        content_hash: String,
        content_type: String,
    )
        requires
            i < old(self).entry_seq().len(),
        ensures
            final(self).entry_seq().len() == old(self).entry_seq().len(),
            forall|j: int|
                0 <= j < old(self).entry_seq().len() && j != i ==> #[trigger] final(self).entry_seq()[j]
                    == old(self).entry_seq()[j],
            final(self).entry_seq()[i as int].key == old(self).entry_seq()[i as int].key,
            final(self).entry_seq()[i as int].record == (DomainRecord {
                data_id,
                content_hash,
                content_type,
                ..old(self).entry_seq()[i as int].record
            }),
            final(self)@ == old(self)@.insert(
                old(self).entry_seq()[i as int].key@,
                final(self).entry_seq()[i as int].record,
            ),
    {
        proof {
            use_type_invariant(&*self);
        }
        let ghost old_es = self.entries@;
        let mut es = Vec::new();
        std::mem::swap(&mut es, &mut self.entries);
        let mut e = es.remove(i);
        e.record.data_id = data_id;
        e.record.content_hash = content_hash;
        e.record.content_type = content_type;
        let ghost rec = e.record;
        let ghost k = e.key@;
        es.insert(i, e);
        proof {
            let new_es = es@;
            assert forall|a: int| 0 <= a < old_es.len() && a != i implies new_es[a] == old_es[a] by {
            }
            assert forall|a: int, b: int| 0 <= a < b < new_es.len() implies text_less(
                new_es[a].key@,
                new_es[b].key@,
            ) by {
                assert(new_es[a].key@ == old_es[a].key@);
                assert(new_es[b].key@ == old_es[b].key@);
            }
            self.lemma_map_after_set(old_es, new_es, i as int, k, rec);
        }
        self.entries = es;
    }

    /// Removes the record stored under `key`, if any.
    pub fn remove(&mut self, key: &str)
        ensures
            final(self)@ == old(self)@.remove(key@),
    {
        proof {
            use_type_invariant(&*self);
        }
        let ghost old_es = self.entries@;
        match self.position(key) {
            None => {
                assert(self@ =~= old(self)@.remove(key@));
            },
            Some(p) => {
                let mut es = Vec::new();
                std::mem::swap(&mut es, &mut self.entries);
                es.remove(p);
                proof {
                    let new_es = es@;
                    assert forall|i: int, j: int| 0 <= i < j < new_es.len() implies text_less(
                        new_es[i].key@,
                        new_es[j].key@,
                    ) by {
                        if i < p && j >= p {
                            assert(new_es[j] == old_es[j + 1]);
                        } else if i >= p {
                            assert(new_es[i] == old_es[i + 1]);
                            assert(new_es[j] == old_es[j + 1]);
                        }
                    }
                    let m1 = entries_map(new_es);
                    let m2 = entries_map(old_es).remove(key@);
                    lemma_key_index_unique(old_es, p as int);
                    assert forall|k: Seq<char>| m1.contains_key(k) <==> m2.contains_key(k) by {
                        if m2.contains_key(k) {
                            let i = key_index(old_es, k);
                            if i < p {
                                assert(new_es[i].key@ == k);
                            } else {
                                assert(i != p);
                                assert(new_es[i - 1].key@ == k);
                            }
                        }
                        if m1.contains_key(k) {
                            let i = key_index(new_es, k);
                            if i < p {
                                assert(old_es[i].key@ == k);
                                lemma_key_index_unique(old_es, i);
                            } else {
                                assert(old_es[i + 1].key@ == k);
                                lemma_key_index_unique(old_es, i + 1);
                            }
                        }
                    }
                    assert forall|k: Seq<char>| #[trigger] m1.contains_key(k) implies m1[k] == m2[k] by {
                        let i = key_index(new_es, k);
                        lemma_key_index_unique(new_es, i);
                        if i < p {
                            assert(old_es[i].key@ == k);
                            lemma_key_index_unique(old_es, i);
                        } else {
                            assert(old_es[i + 1].key@ == k);
                            lemma_key_index_unique(old_es, i + 1);
                        }
                    }
                    assert(m1 =~= m2);
                }
                self.entries = es;
            },
        }
    }
}

impl View for DomainTable {
    type V = Map<Seq<char>, DomainRecord>;

    closed spec fn view(&self) -> Map<Seq<char>, DomainRecord> {
        entries_map(self.entries@)
    }
}

/// A table holds finitely many records.
pub proof fn lemma_table_finite(t: DomainTable)
    ensures
        t@.dom().finite(),
{
    lemma_entries_map_finite(t.entries@);
}

/// Every record of a table stands at some position of its key order.
pub proof fn lemma_record_listed(t: DomainTable, k: Seq<char>)
    requires
        t@.contains_key(k),
    ensures
        exists|i: int|
            0 <= i < t.entry_seq().len() && #[trigger] t.entry_seq()[i].key@ == k
                && t.entry_seq()[i].record == t@[k],
{
    let i = key_index(t.entries@, k);
    assert(t.entry_seq()[i].key@ == k);
}

// ---------------------------------------------------------------------------
// State snapshot
// ---------------------------------------------------------------------------

/// The persisted control-plane state. `version` allows later migrations.
#[derive(Debug)]
pub struct StateSnapshot {
    pub version: u32,
    pub updated_at: u64,
    pub domains: DomainTable,
}

impl StateSnapshot {
    /// The state of a first start: version 1, never updated, no domains.
    pub fn initial() -> (s: Self)
        ensures
            s.version == 1,
            s.updated_at == 0,
            s.domains@ == Map::<Seq<char>, DomainRecord>::empty(),
    {
        StateSnapshot { version: 1, updated_at: 0, domains: DomainTable::new() }
    }
}

impl Default for StateSnapshot {
    fn default() -> (s: Self)
        ensures
            s.version == 1,
            s.updated_at == 0,
            s.domains@ == Map::<Seq<char>, DomainRecord>::empty(),
    {
        StateSnapshot::initial()
    }
}

// ---------------------------------------------------------------------------
// Content digests
// ---------------------------------------------------------------------------

/// The SHA-256 digest of `data`.
pub uninterp spec fn sha256_of(data: Seq<u8>) -> Seq<u8>;

/// `sha2::Sha256::digest`: the 32-byte SHA-256 digest of `data`. The
/// contract names the digest `sha256_of(data)` and states its length; the
/// digest function itself is not stated.
#[verifier::external_body]
fn sha256_digest(data: &[u8]) -> (d: Vec<u8>)
    ensures
        d@ == sha256_of(data@),
        d@.len() == 32,
{
    Sha256::digest(data).to_vec()
}

/// Lower-case hexadecimal text of a byte string, two digits per byte.
pub open spec fn hex_bytes(b: Seq<u8>) -> Seq<char>
    decreases b.len(),
{
    if b.len() == 0 {
        Seq::empty()
    } else {
        hex_bytes(b.drop_last()) + pad_zeros(hex(b.last() as nat), 2)
    }
}

/// The hexadecimal text of a byte string has two lower-case hexadecimal
/// digits per byte.
pub proof fn lemma_hex_bytes_shape(b: Seq<u8>)
    ensures
        hex_bytes(b).len() == 2 * b.len(),
        all_hex(hex_bytes(b)),
    decreases b.len(),
{
    if b.len() > 0 {
        lemma_hex_bytes_shape(b.drop_last());
        let n = b.last() as nat;
        assert(pow16(2) == 256) by {
            reveal_with_fuel(pow16, 3);
        }
        lemma_hex_len_bound(n, 2);
        lemma_padded_hex_reads_back(n, 2);
        let front = hex_bytes(b.drop_last());
        let tail = pad_zeros(hex(n), 2);
        assert(tail.len() == 2);
        assert forall|i: int| 0 <= i < (front + tail).len() implies is_hex_char(
            #[trigger] (front + tail)[i],
        ) by {
            if i < front.len() {
                assert((front + tail)[i] == front[i]);
            } else {
                assert((front + tail)[i] == tail[i - front.len()]);
            }
        }
    }
}

/// Lower-case hexadecimal text of a byte string.
pub fn hex_encode(b: &[u8]) -> (r: String)
    ensures
        r@ == hex_bytes(b@),
{
    let mut v: Vec<char> = Vec::new();
    let mut i: usize = 0;
    while i < b.len()
        invariant
            i <= b.len(),
            v@ == hex_bytes(b@.take(i as int)),
        decreases b.len() - i,
    {
        let h = hex_chars(b[i] as u64);
        let p = zero_padded(h.as_slice(), 2);
        extend_chars(&mut v, p.as_slice());
        assert(b@.take(i + 1).drop_last() == b@.take(i as int));
        i = i + 1;
    }
    assert(b@.take(b.len() as int) == b@);
    string_from_chars(v.as_slice())
}

/// The content hash of a text: hex of the SHA-256 digest of its UTF-8 bytes.
pub fn generate_content_hash(payload: &str) -> (r: String)
    ensures
        r@ == hex_bytes(sha256_of(payload.spec_bytes())),
        r@.len() == 64,
        all_hex(r@),
{
    let d = sha256_digest(payload.as_bytes());
    proof {
        lemma_hex_bytes_shape(d@);
    }
    hex_encode(d.as_slice())
}

/// The content hash of a byte string: hex of its SHA-256 digest.
pub fn generate_content_hash_bytes(payload: &[u8]) -> (r: String)
    ensures
        r@ == hex_bytes(sha256_of(payload@)),
        r@.len() == 64,
        all_hex(r@),
{
    let d = sha256_digest(payload);
    proof {
        lemma_hex_bytes_shape(d@);
    }
    hex_encode(d.as_slice())
}

// ---------------------------------------------------------------------------
// Data identifiers
// ---------------------------------------------------------------------------

/// 64-bit left rotation by `k` bits (0 < k < 64).
pub open spec fn rotl64(x: u64, k: u64) -> u64 {
    (x << k) | (x >> (64 - k) as u64)
}

/// The mixing value of a data identifier: time, sequence and process id.
pub open spec fn id_entropy(ts_ms: u64, seq: u64, pid: u64) -> u64 {
    rotl64(ts_ms, 13) ^ rotl64(seq, 7) ^ pid
}

/// `nebula-` followed by the time in milliseconds (hex, at least 13 digits),
/// the low 24 bits of the sequence number and of the entropy (hex, at least 6
/// digits each).
pub open spec fn data_id_text(ts_ms: u64, seq: u64, pid: u64) -> Seq<char> {
    "nebula-"@ + pad_zeros(hex(ts_ms as nat), 13) + pad_zeros(hex((seq & 0xFF_FFFF) as nat), 6)
        + pad_zeros(hex((id_entropy(ts_ms, seq, pid) & 0xFF_FFFF) as nat), 6)
}

/// Formats a data identifier from its time, sequence number and process id.
pub fn format_data_id(ts_ms: u64, seq: u64, pid: u64) -> (r: String)
    ensures
        r@ == data_id_text(ts_ms, seq, pid),
{
    let entropy = ((ts_ms << 13u64) | (ts_ms >> 51u64)) ^ ((seq << 7u64) | (seq >> 57u64)) ^ pid;
    let mut v: Vec<char> = Vec::new();
    extend_str(&mut v, "nebula-");
    let a = hex_chars(ts_ms);
    let a = zero_padded(a.as_slice(), 13);
    extend_chars(&mut v, a.as_slice());
    let b = hex_chars(seq & 0xFF_FFFF);
    let b = zero_padded(b.as_slice(), 6);
    extend_chars(&mut v, b.as_slice());
    let c = hex_chars(entropy & 0xFF_FFFF);
    let c = zero_padded(c.as_slice(), 6);
    extend_chars(&mut v, c.as_slice());
    string_from_chars(v.as_slice())
}


proof fn lemma_six_digits(x: u64)
    requires
        x < 0x100_0000,
    ensures
        pad_zeros(hex(x as nat), 6).len() == 6,
{
    reveal_with_fuel(pow16, 7);
    lemma_hex_len_bound(x as nat, 6);
}

/// A data identifier is `nebula-` followed by 25 lower-case hexadecimal
/// digits: 13 for the millisecond time, 6 for the low 24 bits of the
/// sequence number and 6 for the mixing value. The time and sequence digits
/// read back as their values. Holds for times below `16^13` ms.
pub proof fn law_data_id_shape(ts: u64, seq: u64, pid: u64)
    requires
        (ts as nat) < pow16(13),
    ensures
        data_id_text(ts, seq, pid).len() == 32,
        data_id_text(ts, seq, pid).subrange(0, 7) == "nebula-"@,
        all_hex(data_id_text(ts, seq, pid).subrange(7, 32)),
        hex_value(data_id_text(ts, seq, pid).subrange(7, 20)) == ts,
        hex_value(data_id_text(ts, seq, pid).subrange(20, 26)) == seq & 0xFF_FFFF,
{
    reveal_strlit("nebula-");
    let m = seq & 0xFF_FFFF;
    let e = id_entropy(ts, seq, pid) & 0xFF_FFFF;
    assert(forall|x: u64| #[trigger] (x & 0xFF_FFFF) < 0x100_0000) by (bit_vector);
    lemma_six_digits(m);
    lemma_six_digits(e);
    lemma_hex_len_bound(ts as nat, 13);
    lemma_padded_hex_reads_back(ts as nat, 13);
    lemma_padded_hex_reads_back(m as nat, 6);
    lemma_padded_hex_reads_back(e as nat, 6);
    let p = "nebula-"@;
    let a = pad_zeros(hex(ts as nat), 13);
    let b = pad_zeros(hex(m as nat), 6);
    let c = pad_zeros(hex(e as nat), 6);
    let id = data_id_text(ts, seq, pid);
    assert(a.len() == 13);
    assert(id =~= p + a + b + c);
    assert(id.subrange(0, 7) =~= p);
    assert(id.subrange(7, 20) =~= a);
    assert(id.subrange(20, 26) =~= b);
    let digits = id.subrange(7, 32);
    assert(digits =~= a + b + c);
    assert forall|i: int| 0 <= i < digits.len() implies is_hex_char(#[trigger] digits[i]) by {
        if i < 13 {
            assert(digits[i] == a[i]);
        } else if i < 19 {
            assert(digits[i] == b[i - 13]);
        } else {
            assert(digits[i] == c[i - 19]);
        }
    }
}

/// Data identifiers are unique per time and sequence number: two equal
/// identifiers come from the same millisecond and from sequence numbers
/// that agree in their low 24 bits.
pub proof fn law_data_id_unique(ts1: u64, seq1: u64, pid1: u64, ts2: u64, seq2: u64, pid2: u64)
    requires
        data_id_text(ts1, seq1, pid1) == data_id_text(ts2, seq2, pid2),
    ensures
        ts1 == ts2,
        seq1 & 0xFF_FFFF == seq2 & 0xFF_FFFF,
{
    let m1 = seq1 & 0xFF_FFFF;
    let m2 = seq2 & 0xFF_FFFF;
    let e1 = id_entropy(ts1, seq1, pid1) & 0xFF_FFFF;
    let e2 = id_entropy(ts2, seq2, pid2) & 0xFF_FFFF;
    assert(forall|x: u64| #[trigger] (x & 0xFF_FFFF) < 0x100_0000) by (bit_vector);
    assert(m1 < 0x100_0000 && m2 < 0x100_0000 && e1 < 0x100_0000 && e2 < 0x100_0000);
    lemma_six_digits(m1);
    lemma_six_digits(m2);
    lemma_six_digits(e1);
    lemma_six_digits(e2);
    let p = "nebula-"@;
    let a1 = pad_zeros(hex(ts1 as nat), 13);
    let a2 = pad_zeros(hex(ts2 as nat), 13);
    let b1 = pad_zeros(hex(m1 as nat), 6);
    let b2 = pad_zeros(hex(m2 as nat), 6);
    let c1 = pad_zeros(hex(e1 as nat), 6);
    let c2 = pad_zeros(hex(e2 as nat), 6);
    let id1 = data_id_text(ts1, seq1, pid1);
    let id2 = data_id_text(ts2, seq2, pid2);
    assert(id1 == p + a1 + b1 + c1);
    assert(id2 == p + a2 + b2 + c2);
    assert(id1.len() == p.len() + a1.len() + b1.len() + c1.len());
    assert(id2.len() == p.len() + a2.len() + b2.len() + c2.len());
    assert(b1.len() == 6 && b2.len() == 6 && c1.len() == 6 && c2.len() == 6);
    assert(a1.len() == a2.len());
    let n = p.len() as int;
    let k = a1.len() as int;
    assert(a1 =~= id1.subrange(n, n + k));
    assert(a2 =~= id2.subrange(n, n + k));
    assert(b1 =~= id1.subrange(n + k, n + k + 6));
    assert(b2 =~= id2.subrange(n + k, n + k + 6));
    lemma_padded_hex_injective(ts1 as nat, ts2 as nat, 13);
    lemma_padded_hex_injective(m1 as nat, m2 as nat, 6);
}


/// Data identifiers sort by time: an identifier from an earlier millisecond
/// comes first in text order, and so does its time part alone, for times
/// below `16^13` ms (some 140,000 years after 1970), whatever the sequence
/// numbers.
pub proof fn law_data_id_time_ordered(
    ts1: u64,
    seq1: u64,
    pid1: u64,
    ts2: u64,
    seq2: u64,
    pid2: u64,
)
    requires
        ts1 < ts2,
        (ts2 as nat) < pow16(13),
    ensures
        text_less(data_id_text(ts1, seq1, pid1), data_id_text(ts2, seq2, pid2)),
        text_less(
            data_id_text(ts1, seq1, pid1).subrange(7, 20),
            data_id_text(ts2, seq2, pid2).subrange(7, 20),
        ),
{
    let a1 = pad_zeros(hex(ts1 as nat), 13);
    let a2 = pad_zeros(hex(ts2 as nat), 13);
    lemma_padded_hex_order(ts1 as nat, ts2 as nat, 13);
    let r1 = pad_zeros(hex((seq1 & 0xFF_FFFF) as nat), 6) + pad_zeros(
        hex((id_entropy(ts1, seq1, pid1) & 0xFF_FFFF) as nat),
        6,
    );
    let r2 = pad_zeros(hex((seq2 & 0xFF_FFFF) as nat), 6) + pad_zeros(
        hex((id_entropy(ts2, seq2, pid2) & 0xFF_FFFF) as nat),
        6,
    );
    lemma_text_less_extend(a1, a2, r1, r2);
    lemma_text_less_prefix("nebula-"@, a1 + r1, a2 + r2);
    assert(data_id_text(ts1, seq1, pid1) =~= "nebula-"@ + (a1 + r1));
    assert(data_id_text(ts2, seq2, pid2) =~= "nebula-"@ + (a2 + r2));
    reveal_strlit("nebula-");
    assert(data_id_text(ts1, seq1, pid1).subrange(7, 20) =~= a1);
    assert(data_id_text(ts2, seq2, pid2).subrange(7, 20) =~= a2);
}

} // verus!
