use bpfimp::{TokenBucket, NS_PER_SEC};

const S: u64 = NS_PER_SEC;

#[test]
fn empty_bucket_denies() {
    let mut b = TokenBucket { tokens: 0, last_refill_ns: 0 };

    assert!(!b.try_consume(100, 10, 0));
}

#[test]
fn refill_caps_at_max() {
    let mut b = TokenBucket { tokens: 0, last_refill_ns: 0 };

    b.try_consume(100, 10, 1_000 * S);
    assert_eq!(b.tokens, 99);
}

#[test]
fn sustained_packets_drains() {
    let mut b = TokenBucket { tokens: 10, last_refill_ns: 0 };

    let (mut now, mut allowed) = (0, 0);

    for _ in 0..200 {
        now += S / 100;
        if b.try_consume(100, 10, now) {
            allowed += 1;
        };
    }
    assert!((20..=32).contains(&allowed), "got {allowed}");
}

#[test]
fn clock_going_backwards_safe() {
    let mut b = TokenBucket { tokens: 10, last_refill_ns: 10 * S };

    assert!(b.try_consume(100, 10, 5 * S));
}

#[test]
fn starting_balances() {
    assert_eq!(TokenBucket::new(7, true), TokenBucket { tokens: 100, last_refill_ns: 7 });
    assert_eq!(TokenBucket::new(7, false), TokenBucket { tokens: 200, last_refill_ns: 7 });
}

#[test]
fn refill_credits_whole_seconds_and_keeps_the_rest() {
    let mut b = TokenBucket { tokens: 0, last_refill_ns: 5 };

    assert!(b.try_consume(100, 10, 5 + 2 * S + 999_999_999));
    assert_eq!(b, TokenBucket { tokens: 19, last_refill_ns: 5 + 2 * S });
    assert!(b.try_consume(100, 10, 5 + 3 * S));
    assert_eq!(b, TokenBucket { tokens: 28, last_refill_ns: 5 + 3 * S });
}

#[test]
fn no_refill_before_a_second_is_over() {
    let mut b = TokenBucket { tokens: 0, last_refill_ns: 0 };

    assert!(!b.try_consume(100, 10, S - 1));
    assert_eq!(b, TokenBucket { tokens: 0, last_refill_ns: 0 });
    assert!(b.try_consume(100, 10, S));
    assert_eq!(b, TokenBucket { tokens: 9, last_refill_ns: S });
}

#[test]
fn balance_over_the_cap_is_cut_with_the_next_refill() {
    let mut b = TokenBucket { tokens: 500, last_refill_ns: 0 };

    assert!(b.try_consume(100, 10, 0));
    assert_eq!(b.tokens, 499);
    assert!(b.try_consume(100, 10, S));
    assert_eq!(b.tokens, 99);
}

#[test]
fn zero_cap_denies_after_a_refill() {
    let mut b = TokenBucket { tokens: 3, last_refill_ns: 0 };

    assert!(!b.try_consume(0, 10, S));
    assert_eq!(b, TokenBucket { tokens: 0, last_refill_ns: S });
}

#[test]
fn huge_refill_saturates() {
    let mut b = TokenBucket { tokens: 1, last_refill_ns: 0 };

    assert!(b.try_consume(u32::MAX, u32::MAX, 3 * S));
    assert_eq!(b.tokens, u32::MAX - 1);
}

#[test]
fn long_silence_refills_to_the_cap() {
    let long = 1u64 << 32;
    let mut b = TokenBucket { tokens: 0, last_refill_ns: 0 };
    assert!(b.try_consume(200, 10, long * S));
    assert_eq!(b, TokenBucket { tokens: 199, last_refill_ns: long * S });

    let mut b = TokenBucket { tokens: 0, last_refill_ns: 0 };
    assert!(b.try_consume(100, 10, (long + 1) * S));
    assert_eq!(b.tokens, 99);

    let mut b = TokenBucket { tokens: 0, last_refill_ns: 0 };
    assert!(b.try_consume(u32::MAX, u32::MAX, u64::MAX));
    assert_eq!(b.tokens, u32::MAX - 1);
}

#[test]
fn passes_are_bounded_by_balance_and_time() {
    let mut b = TokenBucket { tokens: 7, last_refill_ns: 0 };
    let end = 5 * S;
    let mut passed = 0;
    for i in 0..1_000u64 {
        if b.try_consume(100, 10, i * end / 999) {
            passed += 1;
        }
    }
    assert_eq!(passed, 7 + 10 * 5 - 9);
    assert!(passed + b.tokens <= 7 + 10 * 5);
}

#[test]
fn burst_within_the_balance_passes_whole() {
    let mut b = TokenBucket::new(0, false);
    for _ in 0..200 {
        assert!(b.try_consume(200, 10, 0));
    }
    assert!(!b.try_consume(200, 10, 0));
}
