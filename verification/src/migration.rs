use vstd::prelude::*;
use vstd::utf8::encode_utf8;

use crate::domain_service::registration_seed;
use crate::model::{generate_content_hash, hex_bytes, sha256_of, DomainEntry, DomainRecord, StateSnapshot};
use crate::text::{decimal_chars, extend_chars, extend_str, string_from_chars};

verus! {

// ---------------------------------------------------------------------------
// Bringing records of older snapshots up to date
// ---------------------------------------------------------------------------

/// The record has no data identifier yet.
pub open spec fn lacks_data_id(r: DomainRecord) -> bool {
    r.data_id@.len() == 0
}

/// Number of records without a data identifier among the first `n`.
pub open spec fn lacking_before(es: Seq<DomainEntry>, n: int) -> nat
    decreases n,
{
    if n <= 0 {
        0
    } else {
        lacking_before(es, n - 1) + if lacks_data_id(es[n - 1].record) {
            1nat
        } else {
            0nat
        }
    }
}

/// A stored record that is rewritten when loaded: one without data
/// identifier, content hash, content type or preview link.
pub open spec fn needs_rewrite(r: DomainRecord) -> bool {
    r.data_id@.len() == 0 || r.content_hash@.len() == 0 || r.content_type@.len() == 0
        || r.preview_url@.len() == 0
}

/// The content hash a record without one receives: the hash of its owner,
/// domain, deployment and creation time, as at registration.
pub open spec fn seed_hash_of(r: DomainRecord) -> Seq<char> {
    hex_bytes(sha256_of(encode_utf8(registration_seed(r.owner@, r.domain@, r.deployment@, r.created_at))))
}

/// `new` is `old` brought up to date: a missing identifier becomes
/// `fresh_id`, a missing content hash the hash of its registration seed, a
/// missing content type JSON; nothing else changes.
pub open spec fn is_migrated(new: DomainRecord, old: DomainRecord, fresh_id: Seq<char>) -> bool {
    &&& new.data_id@ == (if old.data_id@.len() == 0 {
        fresh_id
    } else {
        old.data_id@
    })
    &&& new.content_hash@ == (if old.content_hash@.len() == 0 {
        seed_hash_of(old)
    } else {
        old.content_hash@
    })
    &&& new.content_type@ == (if old.content_type@.len() == 0 {
        "application/json"@
    } else {
        old.content_type@
    })
    &&& new == (DomainRecord {
        data_id: new.data_id,
        content_hash: new.content_hash,
        content_type: new.content_type,
        ..old
    })
}

/// How many fresh identifiers a migration of the snapshot takes.
pub fn count_missing_data_ids(snapshot: &StateSnapshot) -> (n: usize)
    ensures
        n == lacking_before(snapshot.domains.entry_seq(), snapshot.domains.entry_seq().len() as int),
{
    let len = snapshot.domains.len();
    let mut n: usize = 0;
    let mut i: usize = 0;
    while i < len
        invariant
            len == snapshot.domains.entry_seq().len(),
            i <= len,
            n == lacking_before(snapshot.domains.entry_seq(), i as int),
            n <= i,
        decreases len - i,
    {
        let e = snapshot.domains.entry_at(i);
        if e.record.data_id.as_str().is_empty() {
            n = n + 1;
        }
        i = i + 1;
    }
    n
}

fn seed_hash(rec: &DomainRecord) -> (h: String)
    ensures
        h@ == seed_hash_of(*rec),
{
    let mut seed: Vec<char> = Vec::new();
    extend_str(&mut seed, rec.owner.as_str());
    extend_str(&mut seed, "|");
    extend_str(&mut seed, rec.domain.as_str());
    extend_str(&mut seed, "|");
    extend_str(&mut seed, rec.deployment.as_str());
    extend_str(&mut seed, "|");
    let t = decimal_chars(rec.created_at);
    extend_chars(&mut seed, t.as_slice());
    let text = string_from_chars(seed.as_slice());
    generate_content_hash(text.as_str())
}

fn copy_text(s: &String) -> (r: String)
    ensures
        r@ == s@,
{
    String::from_str(s.as_str())
}

/// Brings the records of an older snapshot up to date, giving the records
/// without identifier the fresh identifiers in key order. Answers whether
/// the snapshot should be written back: some record lacked an identifier,
/// a content hash, a content type or a preview link.
pub fn migrate_legacy_records(snapshot: &mut StateSnapshot, fresh_ids: &Vec<String>) -> (changed:
    bool)
    requires
        fresh_ids@.len() >= lacking_before(
            old(snapshot).domains.entry_seq(),
            old(snapshot).domains.entry_seq().len() as int,
        ),
    ensures
        final(snapshot).version == old(snapshot).version,
        final(snapshot).updated_at == old(snapshot).updated_at,
        final(snapshot).domains.entry_seq().len() == old(snapshot).domains.entry_seq().len(),
        forall|i: int|
            0 <= i < old(snapshot).domains.entry_seq().len() ==> {
                &&& (#[trigger] final(snapshot).domains.entry_seq()[i]).key == old(
                    snapshot,
                ).domains.entry_seq()[i].key
                &&& is_migrated(
                    final(snapshot).domains.entry_seq()[i].record,
                    old(snapshot).domains.entry_seq()[i].record,
                    fresh_ids@[lacking_before(old(snapshot).domains.entry_seq(), i) as int]@,
                )
            },
        changed == exists|i: int|
            0 <= i < old(snapshot).domains.entry_seq().len() && needs_rewrite(
                #[trigger] old(snapshot).domains.entry_seq()[i].record,
            ),
{
    let ghost old_es = snapshot.domains.entry_seq();
    let len = snapshot.domains.len();
    let supply = fresh_ids.len();
    let mut used: usize = 0;
    let mut changed = false;
    let mut i: usize = 0;
    while i < len
        invariant
            len == old_es.len(),
            i <= len,
            snapshot.domains.entry_seq().len() == len,
            snapshot.version == old(snapshot).version,
            snapshot.updated_at == old(snapshot).updated_at,
            old_es == old(snapshot).domains.entry_seq(),
            fresh_ids@.len() >= lacking_before(old_es, len as int),
            supply == fresh_ids@.len(),
            used == lacking_before(old_es, i as int),
            forall|j: int|
                i <= j < len ==> #[trigger] snapshot.domains.entry_seq()[j] == old_es[j],
            forall|j: int|
                0 <= j < i ==> {
                    &&& (#[trigger] snapshot.domains.entry_seq()[j]).key == old_es[j].key
                    &&& is_migrated(
                        snapshot.domains.entry_seq()[j].record,
                        old_es[j].record,
                        fresh_ids@[lacking_before(old_es, j) as int]@,
                    )
                },
            changed == exists|j: int| 0 <= j < i && needs_rewrite(#[trigger] old_es[j].record),
        decreases len - i,
    {
        proof {
            lemma_lacking_grows(old_es, i as int + 1, len as int);
        }
        let e = snapshot.domains.entry_at(i);
        let rec = &e.record;
        let lacks_id = rec.data_id.as_str().is_empty();
        assert(*rec == old_es[i as int].record);
        assert(lacks_id == lacks_data_id(old_es[i as int].record));
        assert(lacks_id ==> used < fresh_ids@.len());
        let lacks_hash = rec.content_hash.as_str().is_empty();
        let lacks_type = rec.content_type.as_str().is_empty();
        let lacks_link = rec.preview_url.as_str().is_empty();
        let data_id = if lacks_id {
            copy_text(&fresh_ids[used])
        } else {
            copy_text(&rec.data_id)
        };
        let content_hash = if lacks_hash {
            seed_hash(rec)
        } else {
            copy_text(&rec.content_hash)
        };
        let content_type = if lacks_type {
            String::from_str("application/json")
        } else {
            copy_text(&rec.content_type)
        };
        let rewrite = lacks_id || lacks_hash || lacks_type || lacks_link;
        snapshot.domains.set_identity_at(i, data_id, content_hash, content_type);
        proof {
            assert(needs_rewrite(old_es[i as int].record) == rewrite);
            if rewrite {
                assert(needs_rewrite(old_es[i as int].record));
            }
            assert forall|j: int| 0 <= j < i + 1 && needs_rewrite(#[trigger] old_es[j].record)
                implies changed || rewrite by {
            }
        }
        if lacks_id {
            used = used + 1;
        }
        changed = changed || rewrite;
        i = i + 1;
    }
    changed
}

proof fn lemma_lacking_grows(es: Seq<DomainEntry>, i: int, n: int)
    requires
        0 <= i <= n,
    ensures
        lacking_before(es, i) <= lacking_before(es, n),
        i > 0 && lacks_data_id(es[i - 1].record) ==> lacking_before(es, i - 1) < lacking_before(
            es,
            n,
        ),
    decreases n - i,
{
    if i < n {
        lemma_lacking_grows(es, i, n - 1);
    }
}

} // verus!
