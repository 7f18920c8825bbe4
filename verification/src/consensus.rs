use vstd::prelude::*;

use crate::text::{
    chars_equal, chars_of, decimal, decimal_chars, extend_chars, extend_str, lemma_text_less_asymmetric,
    lemma_text_less_irreflexive, lemma_text_less_total, lemma_text_less_transitive, str_less,
    str_equal, string_from_chars, text_less, text_less_exec,
};

verus! {

// ---------------------------------------------------------------------------
// Adoption and voting
// ---------------------------------------------------------------------------

/// A node adopts an incoming snapshot when it is newer, or equally new with
/// a greater hash (so that all nodes settle on the same one).
pub open spec fn adopts(
    local_updated: u64,
    local_hash: Seq<char>,
    incoming_updated: u64,
    incoming_hash: Seq<char>,
) -> bool {
    incoming_updated > local_updated || (incoming_updated == local_updated && text_less(
        local_hash,
        incoming_hash,
    ))
}

/// Whether to replace the local snapshot with an incoming one.
pub fn should_adopt_snapshot(
    local_updated: u64,
    local_hash: &str,
    incoming_updated: u64,
    incoming_hash: &str,
) -> (r: bool)
    ensures
        r == adopts(local_updated, local_hash@, incoming_updated, incoming_hash@),
{
    if incoming_updated > local_updated {
        return true;
    }
    if incoming_updated < local_updated {
        return false;
    }
    str_less(local_hash, incoming_hash)
}

/// A node votes for a write proposal that is newer than its snapshot, or
/// equally new with a hash not below its own.
pub open spec fn votes_for(
    local_updated: u64,
    local_hash: Seq<char>,
    proposal_updated: u64,
    proposal_hash: Seq<char>,
) -> bool {
    proposal_updated > local_updated || (proposal_updated == local_updated && !text_less(
        proposal_hash,
        local_hash,
    ))
}

/// Whether to vote for a proposed snapshot.
pub fn accept_vote(local_updated: u64, local_hash: &str, proposal_updated: u64, proposal_hash: &str) -> (r:
    bool)
    ensures
        r == votes_for(local_updated, local_hash@, proposal_updated, proposal_hash@),
{
    proposal_updated > local_updated || (proposal_updated == local_updated && !str_less(
        proposal_hash,
        local_hash,
    ))
}

/// The reason given with a vote.
pub fn vote_reason(vote: bool, proposer: &str) -> (s: String)
    ensures
        s@ == if vote { "accepted from "@ + proposer@ } else { "stale proposal"@ },
{
    if vote {
        crate::text::concat2("accepted from ", proposer)
    } else {
        String::from_str("stale proposal")
    }
}

/// A node never adopts a snapshot it would reject as a proposal, and an
/// adopted snapshot is one it would vote for.
pub proof fn law_adopt_implies_vote(
    local_updated: u64,
    local_hash: Seq<char>,
    incoming_updated: u64,
    incoming_hash: Seq<char>,
)
    requires
        adopts(local_updated, local_hash, incoming_updated, incoming_hash),
    ensures
        votes_for(local_updated, local_hash, incoming_updated, incoming_hash),
{
    if incoming_updated == local_updated {
        lemma_text_less_asymmetric(local_hash, incoming_hash);
    }
}

/// Adoption is a strict order: of two different snapshot versions at most
/// one side adopts the other, and no node adopts its own snapshot.
pub proof fn law_adoption_antisymmetric(u1: u64, h1: Seq<char>, u2: u64, h2: Seq<char>)
    ensures
        !(adopts(u1, h1, u2, h2) && adopts(u2, h2, u1, h1)),
        !adopts(u1, h1, u1, h1),
{
    lemma_text_less_irreflexive(h1);
    if u1 == u2 && text_less(h1, h2) {
        lemma_text_less_asymmetric(h1, h2);
    }
}

// ---------------------------------------------------------------------------
// Write quorum
// ---------------------------------------------------------------------------

/// Votes needed among `peer_count` peers and this node: a strict majority.
pub open spec fn quorum_size(peer_count: nat) -> nat {
    (peer_count + 1) / 2 + 1
}

/// Number of yes votes.
pub open spec fn yes_count(votes: Seq<bool>) -> nat
    decreases votes.len(),
{
    if votes.len() == 0 {
        0
    } else {
        yes_count(votes.drop_last()) + if votes.last() {
            1nat
        } else {
            0nat
        }
    }
}

proof fn lemma_yes_count_bound(votes: Seq<bool>)
    ensures
        yes_count(votes) <= votes.len(),
    decreases votes.len(),
{
    if votes.len() > 0 {
        lemma_yes_count_bound(votes.drop_last());
    }
}

/// The refusal when a write misses its quorum.
pub open spec fn quorum_message(accepted: nat, required: nat, total: nat) -> Seq<char> {
    "write quorum not reached: accepted="@ + decimal(accepted) + " required="@ + decimal(required)
        + " total_nodes="@ + decimal(total)
}

/// Decides whether a write reached its quorum. `votes` holds one entry per
/// peer that answered (false for peers that did not); this node counts as
/// one yes vote. A node without peers needs no votes.
pub fn check_write_quorum(peer_count: usize, votes: &[bool]) -> (r: Result<(), String>)
    requires
        votes@.len() <= peer_count,
        peer_count < usize::MAX,
    ensures
        peer_count == 0 ==> r is Ok,
        peer_count > 0 ==> match r {
            Ok(()) => 1 + yes_count(votes@) >= quorum_size(peer_count as nat),
            Err(e) => 1 + yes_count(votes@) < quorum_size(peer_count as nat) && e@
                == quorum_message(
                1 + yes_count(votes@),
                quorum_size(peer_count as nat),
                (peer_count + 1) as nat,
            ),
        },
{
    if peer_count == 0 {
        return Ok(());
    }
    let total = peer_count + 1;
    let required = total / 2 + 1;
    let mut accepted: usize = 1;
    let mut i: usize = 0;
    while i < votes.len()
        invariant
            i <= votes.len() <= peer_count,
            accepted == 1 + yes_count(votes@.take(i as int)),
            accepted <= i + 1,
            peer_count < usize::MAX,
        decreases votes.len() - i,
    {
        proof {
            lemma_yes_count_bound(votes@.take(i as int));
            assert(votes@.take(i + 1).drop_last() == votes@.take(i as int));
        }
        if votes[i] {
            accepted = accepted + 1;
        }
        i = i + 1;
    }
    assert(votes@.take(votes.len() as int) == votes@);
    if accepted < required {
        let mut m: Vec<char> = Vec::new();
        extend_str(&mut m, "write quorum not reached: accepted=");
        let a = decimal_chars(accepted as u64);
        extend_chars(&mut m, a.as_slice());
        extend_str(&mut m, " required=");
        let b = decimal_chars(required as u64);
        extend_chars(&mut m, b.as_slice());
        extend_str(&mut m, " total_nodes=");
        let c = decimal_chars(total as u64);
        extend_chars(&mut m, c.as_slice());
        return Err(string_from_chars(m.as_slice()));
    }
    Ok(())
}

proof fn lemma_yes_count_filter(votes: Seq<bool>)
    ensures
        yes_count(votes) == votes.filter(|v: bool| v).len(),
    decreases votes.len(),
{
    reveal(Seq::filter);
    if votes.len() > 0 {
        lemma_yes_count_filter(votes.drop_last());
    }
}

proof fn lemma_yes_count_more(v1: Seq<bool>, v2: Seq<bool>)
    requires
        v1.len() == v2.len(),
        forall|i: int| 0 <= i < v1.len() && #[trigger] v1[i] ==> v2[i],
    ensures
        yes_count(v1) <= yes_count(v2),
    decreases v1.len(),
{
    if v1.len() > 0 {
        lemma_yes_count_more(v1.drop_last(), v2.drop_last());
        assert(v1.last() == v1[v1.len() - 1]);
    }
}

/// Turning a peer's vote from no to yes never turns an accepted write into a
/// refused one.
pub proof fn law_more_votes_never_refuse(peer_count: nat, v1: Seq<bool>, v2: Seq<bool>)
    requires
        v1.len() == v2.len(),
        forall|i: int| 0 <= i < v1.len() && #[trigger] v1[i] ==> v2[i],
        1 + yes_count(v1) >= quorum_size(peer_count),
    ensures
        1 + yes_count(v2) >= quorum_size(peer_count),
{
    lemma_yes_count_more(v1, v2);
}

/// A write is accepted exactly when a strict majority of all nodes agree:
/// with `peer_count` peers there are `peer_count + 1` nodes, and the peers'
/// yes votes together with this node's own vote must make up more than half
/// of them. The quorum is the least count above half of the nodes.
pub proof fn law_quorum_is_strict_majority(peer_count: nat, votes: Seq<bool>)
    ensures
        (1 + yes_count(votes) >= quorum_size(peer_count)) <==> 2 * (1 + votes.filter(
            |v: bool| v,
        ).len()) > peer_count + 1,
        2 * quorum_size(peer_count) > peer_count + 1,
        2 * (quorum_size(peer_count) - 1) <= peer_count + 1,
{
    lemma_yes_count_filter(votes);
}

// ---------------------------------------------------------------------------
// Snapshot election among peers
// ---------------------------------------------------------------------------

/// What a peer reports of its snapshot.
pub struct PeerDigest {
    pub node_id: String,
    pub updated_at: u64,
    pub snapshot_hash: String,
}

/// Number of peers reporting hash `h`.
pub open spec fn peer_votes(ds: Seq<PeerDigest>, h: Seq<char>) -> nat
    decreases ds.len(),
{
    if ds.len() == 0 {
        0
    } else {
        peer_votes(ds.drop_last(), h) + if ds.last().snapshot_hash@ == h {
            1nat
        } else {
            0nat
        }
    }
}

/// Latest update time among peers reporting hash `h` (0 if none).
pub open spec fn peer_latest(ds: Seq<PeerDigest>, h: Seq<char>) -> nat
    decreases ds.len(),
{
    if ds.len() == 0 {
        0
    } else {
        let rest = peer_latest(ds.drop_last(), h);
        if ds.last().snapshot_hash@ == h && ds.last().updated_at > rest {
            ds.last().updated_at as nat
        } else {
            rest
        }
    }
}

/// Votes for hash `h`: the peers reporting it, plus this node for its own.
pub open spec fn hash_votes(local: Seq<char>, ds: Seq<PeerDigest>, h: Seq<char>) -> nat {
    peer_votes(ds, h) + if h == local {
        1nat
    } else {
        0nat
    }
}

/// Latest update time reported for hash `h`, this node's included.
pub open spec fn hash_latest(local: Seq<char>, local_updated: u64, ds: Seq<PeerDigest>, h: Seq<
    char,
>) -> nat {
    let p = peer_latest(ds, h);
    if h == local && local_updated > p {
        local_updated as nat
    } else {
        p
    }
}

/// Hash `a` ranks below hash `b`: fewer votes, or as many votes and an older
/// latest update, or both equal and a smaller hash.
pub open spec fn ranks_below(
    local: Seq<char>,
    local_updated: u64,
    ds: Seq<PeerDigest>,
    a: Seq<char>,
    b: Seq<char>,
) -> bool {
    let va = hash_votes(local, ds, a);
    let vb = hash_votes(local, ds, b);
    let la = hash_latest(local, local_updated, ds, a);
    let lb = hash_latest(local, local_updated, ds, b);
    va < vb || (va == vb && (la < lb || (la == lb && text_less(a, b))))
}

/// A hash that some node holds: this node's, or one a peer reports.
pub open spec fn is_candidate(local: Seq<char>, ds: Seq<PeerDigest>, h: Seq<char>) -> bool {
    h == local || exists|i: int| 0 <= i < ds.len() && ds[i].snapshot_hash@ == h
}

/// `w` is the elected hash: a candidate that no candidate outranks.
pub open spec fn is_elected(local: Seq<char>, local_updated: u64, ds: Seq<PeerDigest>, w: Seq<
    char,
>) -> bool {
    &&& is_candidate(local, ds, w)
    &&& forall|c: Seq<char>|
        is_candidate(local, ds, c) ==> !#[trigger] ranks_below(local, local_updated, ds, w, c)
}

proof fn lemma_ranks_below_transitive(
    local: Seq<char>,
    lu: u64,
    ds: Seq<PeerDigest>,
    a: Seq<char>,
    b: Seq<char>,
    c: Seq<char>,
)
    requires
        ranks_below(local, lu, ds, a, b),
        ranks_below(local, lu, ds, b, c),
    ensures
        ranks_below(local, lu, ds, a, c),
{
    if text_less(a, b) && text_less(b, c) {
        lemma_text_less_transitive(a, b, c);
    }
}

proof fn lemma_ranks_below_total(lo: Seq<char>, lu: u64, ds: Seq<PeerDigest>, a: Seq<char>, b: Seq<char>)
    ensures
        a == b || ranks_below(lo, lu, ds, a, b) || ranks_below(lo, lu, ds, b, a),
{
    lemma_text_less_total(a, b);
}

proof fn lemma_ranks_below_irreflexive(lo: Seq<char>, lu: u64, ds: Seq<PeerDigest>, a: Seq<char>)
    ensures
        !ranks_below(lo, lu, ds, a, a),
{
    lemma_text_less_irreflexive(a);
}

/// Votes and latest update of hash `h` among the peers.
fn tally(ds: &[PeerDigest], h: &[char]) -> (r: (u64, u64))
    requires
        ds@.len() < u64::MAX,
    ensures
        r.0 == peer_votes(ds@, h@),
        r.1 == peer_latest(ds@, h@),
        r.0 <= ds@.len(),
{
    let mut votes: u64 = 0;
    let mut latest: u64 = 0;
    let mut i: usize = 0;
    while i < ds.len()
        invariant
            i <= ds@.len() < u64::MAX,
            votes == peer_votes(ds@.take(i as int), h@),
            latest == peer_latest(ds@.take(i as int), h@),
            votes <= i,
        decreases ds.len() - i,
    {
        assert(ds@.take(i + 1).drop_last() == ds@.take(i as int));
        let c = chars_of(ds[i].snapshot_hash.as_str());
        if chars_equal(c.as_slice(), h) {
            votes = votes + 1;
            if ds[i].updated_at > latest {
                latest = ds[i].updated_at;
            }
        }
        i = i + 1;
    }
    assert(ds@.take(ds.len() as int) == ds@);
    (votes, latest)
}

/// Votes and latest update of hash `h`, this node included.
fn rank_key(local: &[char], local_updated: u64, ds: &[PeerDigest], h: &[char]) -> (r: (u64, u64))
    requires
        ds@.len() < u64::MAX - 1,
    ensures
        r.0 == hash_votes(local@, ds@, h@),
        r.1 == hash_latest(local@, local_updated, ds@, h@),
{
    let (v, l) = tally(ds, h);
    let own = chars_equal(local, h);
    let votes = if own { v + 1 } else { v };
    let latest = if own && local_updated > l { local_updated } else { l };
    (votes, latest)
}

/// The election result: the winning hash, and the first peer reporting it
/// when it is not this node's own hash.
pub struct Election {
    pub winner: String,
    pub source: Option<usize>,
}

/// Elects the snapshot hash the cluster converges on: most votes, then the
/// latest update, then the greatest hash. Names the first peer to fetch the
/// winner from, unless this node already holds it.
pub fn elect_snapshot(local_hash: &str, local_updated: u64, peers: &[PeerDigest]) -> (e: Election)
    requires
        peers@.len() < u64::MAX - 1,
    ensures
        is_elected(local_hash@, local_updated, peers@, e.winner@),
        e.source is None <==> e.winner@ == local_hash@,
        match e.source {
            Some(i) => i < peers@.len() && peers@[i as int].snapshot_hash@ == e.winner@ && forall|
                j: int,
            | 0 <= j < i ==> peers@[j].snapshot_hash@ != e.winner@,
            None => true,
        },
{
    let local = chars_of(local_hash);
    let mut best = chars_of(local_hash);
    let (mut bv, mut bl) = rank_key(local.as_slice(), local_updated, peers, best.as_slice());
    let ghost lo = local_hash@;
    proof {
        lemma_ranks_below_irreflexive(lo, local_updated, peers@, lo);
    }
    let mut i: usize = 0;
    while i < peers.len()
        invariant
            i <= peers@.len() < u64::MAX - 1,
            local@ == lo,
            is_candidate(lo, peers@, best@),
            bv == hash_votes(lo, peers@, best@),
            bl == hash_latest(lo, local_updated, peers@, best@),
            !ranks_below(lo, local_updated, peers@, best@, lo),
            forall|j: int|
                0 <= j < i ==> !ranks_below(
                    lo,
                    local_updated,
                    peers@,
                    best@,
                    #[trigger] peers@[j].snapshot_hash@,
                ),
        decreases peers.len() - i,
    {
        let c = chars_of(peers[i].snapshot_hash.as_str());
        let (cv, cl) = rank_key(local.as_slice(), local_updated, peers, c.as_slice());
        let better = bv < cv || (bv == cv && (bl < cl || (bl == cl && text_less_exec(
            best.as_slice(),
            c.as_slice(),
        ))));
        if better {
            proof {
                let old_best = best@;
                assert(ranks_below(lo, local_updated, peers@, old_best, c@));
                assert forall|j: int| 0 <= j < i implies !ranks_below(
                    lo,
                    local_updated,
                    peers@,
                    c@,
                    #[trigger] peers@[j].snapshot_hash@,
                ) by {
                    let h = peers@[j].snapshot_hash@;
                    if ranks_below(lo, local_updated, peers@, c@, h) {
                        lemma_ranks_below_transitive(lo, local_updated, peers@, old_best, c@, h);
                    }
                }
                if ranks_below(lo, local_updated, peers@, c@, lo) {
                    lemma_ranks_below_transitive(lo, local_updated, peers@, old_best, c@, lo);
                }
                lemma_ranks_below_irreflexive(lo, local_updated, peers@, c@);
            }
            best = c;
            bv = cv;
            bl = cl;
        } else {
            proof {
                lemma_ranks_below_irreflexive(lo, local_updated, peers@, best@);
            }
        }
        i = i + 1;
    }
    proof {
        lemma_ranks_below_irreflexive(lo, local_updated, peers@, lo);
        assert forall|c: Seq<char>| is_candidate(lo, peers@, c) implies !#[trigger] ranks_below(
            lo,
            local_updated,
            peers@,
            best@,
            c,
        ) by {
            if c != lo {
                let j = choose|j: int| 0 <= j < peers@.len() && peers@[j].snapshot_hash@ == c;
                assert(!ranks_below(lo, local_updated, peers@, best@, peers@[j].snapshot_hash@));
            }
        }
    }
    let winner = string_from_chars(best.as_slice());
    if chars_equal(best.as_slice(), local.as_slice()) {
        return Election { winner, source: None };
    }
    let mut k: usize = 0;
    while k < peers.len()
        invariant
            k <= peers@.len(),
            best@ != lo,
            winner@ == best@,
            local_hash@ == lo,
            is_elected(lo, local_updated, peers@, best@),
            forall|j: int| 0 <= j < k ==> peers@[j].snapshot_hash@ != best@,
        decreases peers.len() - k,
    {
        let c = chars_of(peers[k].snapshot_hash.as_str());
        if chars_equal(c.as_slice(), best.as_slice()) {
            return Election { winner, source: Some(k) };
        }
        k = k + 1;
    }
    Election { winner, source: None }
}

/// Whether to adopt a snapshot fetched from the peer the election named:
/// only when it is the elected snapshot and the adoption rule takes it.
pub fn adopt_fetched_snapshot(
    winner: &str,
    local_updated: u64,
    local_hash: &str,
    fetched_updated: u64,
    fetched_hash: &str,
) -> (r: bool)
    ensures
        r == (fetched_hash@ == winner@ && adopts(
            local_updated,
            local_hash@,
            fetched_updated,
            fetched_hash@,
        )),
{
    str_equal(fetched_hash, winner) && should_adopt_snapshot(
        local_updated,
        local_hash,
        fetched_updated,
        fetched_hash,
    )
}

/// The elected hash is unique: two hashes that both win are the same.
pub proof fn law_election_unique(
    local: Seq<char>,
    local_updated: u64,
    ds: Seq<PeerDigest>,
    w1: Seq<char>,
    w2: Seq<char>,
)
    requires
        is_elected(local, local_updated, ds, w1),
        is_elected(local, local_updated, ds, w2),
    ensures
        w1 == w2,
{
    lemma_ranks_below_total(local, local_updated, ds, w1, w2);
    assert(!ranks_below(local, local_updated, ds, w1, w2));
    assert(!ranks_below(local, local_updated, ds, w2, w1));
}

/// A hash held by a strict majority of the nodes (peers and this node) is
/// elected.
pub proof fn law_majority_wins(local: Seq<char>, local_updated: u64, ds: Seq<PeerDigest>, h: Seq<char>)
    requires
        is_candidate(local, ds, h),
        2 * hash_votes(local, ds, h) > ds.len() + 1,
    ensures
        is_elected(local, local_updated, ds, h),
{
    assert forall|c: Seq<char>| is_candidate(local, ds, c) implies !#[trigger] ranks_below(
        local,
        local_updated,
        ds,
        h,
        c,
    ) by {
        if c != h {
            lemma_votes_disjoint(ds, h, c);
        } else {
            lemma_ranks_below_irreflexive(local, local_updated, ds, h);
        }
    }
}

proof fn lemma_votes_disjoint(ds: Seq<PeerDigest>, a: Seq<char>, b: Seq<char>)
    requires
        a != b,
    ensures
        peer_votes(ds, a) + peer_votes(ds, b) <= ds.len(),
    decreases ds.len(),
{
    if ds.len() > 0 {
        lemma_votes_disjoint(ds.drop_last(), a, b);
    }
}

} // verus!
