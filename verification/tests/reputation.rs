use bpfimp::{
    BlockedEntry, Reputation, TokenBucket, MAX_SCORE, MAX_TOKENS, MIN_SCORE_TO_PASS,
    NEW_MAX_TOKENS, NS_PER_SEC, PENALTY, REFILL_PER_SEC,
};

fn peer(tokens: u32, score: u32) -> Reputation {
    Reputation { bucket: TokenBucket { tokens, last_refill_ns: 0 }, score }
}

#[test]
fn policy_defaults() {
    assert_eq!(MAX_TOKENS, 200);
    assert_eq!(NEW_MAX_TOKENS, 100);
    assert_eq!(REFILL_PER_SEC, 10);
    assert_eq!(MAX_SCORE, 100);
    assert_eq!(MIN_SCORE_TO_PASS, 20);
    assert_eq!(PENALTY, 10);
}

#[test]
fn new_peer_has_full_bucket_and_best_score() {
    assert_eq!(
        Reputation::new(3),
        Reputation { bucket: TokenBucket { tokens: 200, last_refill_ns: 3 }, score: 100 }
    );
}

#[test]
fn pass_raises_the_score_up_to_the_cap() {
    let mut p = peer(5, 98);
    assert!(p.meter(0));
    assert_eq!(p, peer(4, 99));
    assert!(p.meter(0));
    assert!(p.meter(0));
    assert_eq!(p, peer(2, 100));
    let mut above = peer(5, 150);
    assert!(above.meter(0));
    assert_eq!(above.score, 100);
}

#[test]
fn denial_takes_the_penalty() {
    let mut p = peer(0, 55);
    assert!(!p.meter(0));
    assert_eq!(p, peer(0, 45));
    let mut low = peer(9, 4);
    assert!(!low.meter(0));
    assert_eq!(low, peer(9, 0));
}

#[test]
fn score_at_the_floor_passes_and_below_does_not() {
    assert!(peer(1, 20).meter(0));
    assert!(!peer(1, 19).meter(0));
}

#[test]
fn below_the_floor_the_bucket_is_not_refilled() {
    let mut p = peer(0, 19);
    assert!(!p.meter(100 * NS_PER_SEC));
    assert_eq!(p, peer(0, 9));
}

#[test]
fn penalized_peer_never_recovers() {
    let mut p = peer(200, 19);
    for i in 0..50u64 {
        assert!(!p.meter(i * 3_600 * NS_PER_SEC));
    }
    assert_eq!(p, peer(200, 0));
}

#[test]
fn trusted_peer_absorbs_a_burst_and_sustained_abuse_locks_it_out() {
    let mut p = Reputation::new(0);
    for _ in 0..200 {
        assert!(p.meter(0));
    }
    assert_eq!(p.score, 100);
    for n in 1..=9u32 {
        assert!(!p.meter(0));
        assert_eq!(p.score, 100 - 10 * n);
    }
    assert!(!p.meter(60 * NS_PER_SEC));
    assert_eq!(p.score, 0);
}

#[test]
fn blocked_entry_counts_hits() {
    let mut e = BlockedEntry::default();
    assert_eq!(e, BlockedEntry { hits: 0, last_seen_ns: 0 });
    e.hit(11);
    e.hit(12);
    assert_eq!(e, BlockedEntry { hits: 2, last_seen_ns: 12 });
}
