use decentralized_storage::consensus::{
    accept_vote, adopt_fetched_snapshot, check_write_quorum, elect_snapshot, should_adopt_snapshot, vote_reason,
    PeerDigest,
};

fn peer(id: &str, updated_at: u64, hash: &str) -> PeerDigest {
    PeerDigest { node_id: id.to_string(), updated_at, snapshot_hash: hash.to_string() }
}

#[test]
fn adoption_prefers_newer_then_greater_hash() {
    assert!(should_adopt_snapshot(10, "aaa", 11, "000"));
    assert!(!should_adopt_snapshot(10, "aaa", 9, "zzz"));
    assert!(should_adopt_snapshot(10, "aaa", 10, "aab"));
    assert!(!should_adopt_snapshot(10, "aab", 10, "aaa"));
    // the same snapshot is never adopted again
    assert!(!should_adopt_snapshot(10, "abc", 10, "abc"));
}

#[test]
fn votes_accept_equal_or_newer() {
    assert!(accept_vote(10, "abc", 10, "abc"));
    assert!(accept_vote(10, "abc", 10, "abd"));
    assert!(!accept_vote(10, "abd", 10, "abc"));
    assert!(accept_vote(10, "zzz", 11, "aaa"));
    assert!(!accept_vote(10, "aaa", 9, "zzz"));
    assert_eq!(vote_reason(true, "node-a"), "accepted from node-a");
    assert_eq!(vote_reason(false, "node-a"), "stale proposal");
}

#[test]
fn adopted_snapshots_would_be_voted_for() {
    let cases = [(5, "b", 5, "c"), (5, "b", 6, "a"), (5, "b", 4, "z"), (5, "b", 5, "a")];
    for (lu, lh, iu, ih) in cases {
        if should_adopt_snapshot(lu, lh, iu, ih) {
            assert!(accept_vote(lu, lh, iu, ih));
        }
        assert!(!(should_adopt_snapshot(lu, lh, iu, ih) && should_adopt_snapshot(iu, ih, lu, lh)));
    }
}

#[test]
fn write_quorum() {
    assert!(check_write_quorum(0, &[]).is_ok());
    // three peers: four nodes, three votes needed
    assert!(check_write_quorum(3, &[true, true, false]).is_ok());
    assert_eq!(
        check_write_quorum(3, &[true, false, false]).unwrap_err(),
        "write quorum not reached: accepted=2 required=3 total_nodes=4"
    );
    assert_eq!(
        check_write_quorum(2, &[]).unwrap_err(),
        "write quorum not reached: accepted=1 required=2 total_nodes=3"
    );
    assert!(check_write_quorum(1, &[true]).is_ok());
    assert!(check_write_quorum(1, &[false]).is_err());
}

#[test]
fn election_by_votes_then_time_then_hash() {
    // local alone
    let e = elect_snapshot("h-local", 5, &[]);
    assert_eq!(e.winner, "h-local");
    assert_eq!(e.source, None);
    // a majority elsewhere wins
    let peers = [peer("a", 1, "h-x"), peer("b", 1, "h-x")];
    let e = elect_snapshot("h-local", 5, &peers);
    assert_eq!(e.winner, "h-x");
    assert_eq!(e.source, Some(0));
    // as many votes for the local hash, and it was updated later
    let peers = [peer("a", 1, "h-x"), peer("b", 1, "h-x"), peer("c", 9, "h-local")];
    let e = elect_snapshot("h-local", 5, &peers);
    assert_eq!(e.winner, "h-local");
    assert_eq!(e.source, None);
    // equal votes: the later update wins
    let peers = [peer("a", 7, "h-y")];
    let e = elect_snapshot("h-local", 5, &peers);
    assert_eq!(e.winner, "h-y");
    assert_eq!(e.source, Some(0));
    // equal votes and times: the greater hash wins
    let peers = [peer("a", 5, "h-a"), peer("b", 5, "h-z")];
    let e = elect_snapshot("h-m", 5, &peers);
    assert_eq!(e.winner, "h-z");
    assert_eq!(e.source, Some(1));
    let e = elect_snapshot("h-zz", 5, &peers);
    assert_eq!(e.winner, "h-zz");
    assert_eq!(e.source, None);
}

#[test]
fn fetched_snapshot_adopted_only_when_it_is_the_winner() {
    // the fetched snapshot is the elected one and newer: adopt
    assert!(adopt_fetched_snapshot("hw", 10, "hl", 12, "hw"));
    // the fetched snapshot is not the elected one: keep the local state
    assert!(!adopt_fetched_snapshot("hw", 10, "hl", 12, "hx"));
    // the elected one, but older than the local state: keep the local state
    assert!(!adopt_fetched_snapshot("hw", 10, "hl", 9, "hw"));
    // same time, larger hash wins
    assert!(adopt_fetched_snapshot("hz", 10, "hl", 10, "hz"));
    assert!(!adopt_fetched_snapshot("ha", 10, "hl", 10, "ha"));
}
