//! Token buckets: one token per packet, refilled by whole elapsed seconds.

use crate::policy::{MAX_TOKENS, NEW_MAX_TOKENS, NS_PER_SEC};
use vstd::arithmetic::div_mod::{lemma_div_is_ordered, lemma_fundamental_div_mod};
use vstd::arithmetic::mul::lemma_mul_inequality;
use vstd::prelude::*;

verus! {

/// A balance of tokens and the instant up to which refills have been credited.
#[derive(Clone, Copy, Debug, PartialEq, Eq, Structural)]
pub struct TokenBucket {
    pub tokens: u32,
    pub last_refill_ns: u64,
}

/// Whole seconds from `from` to `now`; zero when the clock went backwards.
pub open spec fn whole_seconds(from: u64, now: u64) -> nat {
    if now >= from {
        ((now - from) / NS_PER_SEC as int) as nat
    } else {
        0
    }
}

/// Tokens earned in `seconds` at `rate` per second.
pub open spec fn earned(seconds: nat, rate: u32) -> nat {
    seconds * (rate as nat)
}

/// The smaller of two naturals.
pub open spec fn lesser(a: nat, b: nat) -> nat {
    if a <= b {
        a
    } else {
        b
    }
}

impl TokenBucket {
    /// The bucket after crediting the whole seconds that passed, capped at `max`. A bucket
    /// that earned no whole second is left as it is, whatever its balance.
    pub open spec fn refilled(self, max: u32, rate: u32, now: u64) -> TokenBucket {
        let seconds = whole_seconds(self.last_refill_ns, now);
        if seconds >= 1 {
            TokenBucket {
                tokens: lesser(self.tokens as nat + earned(seconds, rate), max as nat) as u32,
                last_refill_ns: (self.last_refill_ns + seconds * NS_PER_SEC) as u64,
            }
        } else {
            self
        }
    }

    /// Whether a packet at `now` finds a token.
    pub open spec fn grants(self, max: u32, rate: u32, now: u64) -> bool {
        self.refilled(max, rate, now).tokens > 0
    }

    /// The bucket after a packet at `now`: refilled, and one token poorer if one was there.
    pub open spec fn consumed(self, max: u32, rate: u32, now: u64) -> TokenBucket {
        let full = self.refilled(max, rate, now);
        if full.tokens > 0 {
            TokenBucket { tokens: (full.tokens - 1) as u32, ..full }
        } else {
            full
        }
    }

    /// A bucket for a source first seen at `now_ns`: `new` selects the smaller starting
    /// balance of a source that is not on the allowlist.
    pub fn new(now_ns: u64, new: bool) -> (bucket: Self)
        ensures
            bucket.tokens == (if new { NEW_MAX_TOKENS } else { MAX_TOKENS }),
            bucket.last_refill_ns == now_ns,
    {
        Self { tokens: if new { NEW_MAX_TOKENS } else { MAX_TOKENS }, last_refill_ns: now_ns }
    }

    /// Refills the bucket for the time up to `now` and takes one token if there is one.
    pub fn try_consume(&mut self, max: u32, refill_per_sec: u32, now: u64) -> (granted: bool)
        ensures
            granted == old(self).grants(max, refill_per_sec, now),
            *final(self) == old(self).consumed(max, refill_per_sec, now),
    {
        let elapsed: u64 = now.saturating_sub(self.last_refill_ns) / NS_PER_SEC;
        assert(elapsed == whole_seconds(self.last_refill_ns, now));
        if elapsed >= 1 {
            proof {
                lemma_fundamental_div_mod(now - self.last_refill_ns, NS_PER_SEC as int);
                assert(self.last_refill_ns + elapsed * NS_PER_SEC <= now);
            }
            let add: u32 = match elapsed.checked_mul(refill_per_sec as u64) {
                Some(product) => if product <= u32::MAX as u64 {
                    product as u32
                } else {
                    u32::MAX
                },
                None => u32::MAX,
            };
            self.tokens = self.tokens.saturating_add(add).min(max);
            self.last_refill_ns = self.last_refill_ns + elapsed * NS_PER_SEC;
        }
        if self.tokens == 0 {
            return false;
        }
        self.tokens = self.tokens - 1;
        true
    }
}

/// The bucket after packets at `times`, one after the other.
pub open spec fn bucket_after(
    bucket: TokenBucket,
    max: u32,
    rate: u32,
    times: Seq<u64>,
) -> TokenBucket
    decreases times.len(),
{
    if times.len() == 0 {
        bucket
    } else {
        bucket_after(bucket, max, rate, times.drop_last()).consumed(max, rate, times.last())
    }
}

/// How many of the packets at `times` find a token.
pub open spec fn bucket_passes(bucket: TokenBucket, max: u32, rate: u32, times: Seq<u64>) -> nat
    decreases times.len(),
{
    if times.len() == 0 {
        0
    } else {
        bucket_passes(bucket, max, rate, times.drop_last()) + if bucket_after(
            bucket,
            max,
            rate,
            times.drop_last(),
        ).grants(max, rate, times.last()) {
            1nat
        } else {
            0nat
        }
    }
}

/// A bucket within its cap stays within it, and one that earned a second is brought within it.
pub proof fn law_cap_is_kept(bucket: TokenBucket, max: u32, rate: u32, now: u64)
    requires
        bucket.tokens <= max || whole_seconds(bucket.last_refill_ns, now) >= 1,
    ensures
        bucket.consumed(max, rate, now).tokens <= max,
{
}

/// As long as no whole second has passed since the last refill, and also when the clock went
/// backwards, nothing is credited: a packet takes a token if there is one, an empty bucket
/// denies it and stays as it is.
pub proof fn law_no_second_no_refill(bucket: TokenBucket, max: u32, rate: u32, now: u64)
    requires
        now < bucket.last_refill_ns + NS_PER_SEC,
    ensures
        bucket.grants(max, rate, now) == (bucket.tokens > 0),
        bucket.tokens == 0 ==> bucket.consumed(max, rate, now) == bucket,
        bucket.tokens > 0 ==> bucket.consumed(max, rate, now) == (TokenBucket {
            tokens: (bucket.tokens - 1) as u32,
            last_refill_ns: bucket.last_refill_ns,
        }),
{
}

/// Refills are credited by whole seconds and the rest of the elapsed time is kept for the
/// next one: the credited instant trails a clock that did not go backwards by less than a
/// second, and has moved by whole seconds.
pub proof fn law_no_time_is_lost(bucket: TokenBucket, max: u32, rate: u32, now: u64)
    requires
        bucket.last_refill_ns <= now,
    ensures
        ({
            let credited = bucket.consumed(max, rate, now).last_refill_ns;
            &&& bucket.last_refill_ns <= credited <= now
            &&& now - credited < NS_PER_SEC
            &&& (credited - bucket.last_refill_ns) % (NS_PER_SEC as int) == 0
        }),
{
}

/// One packet never spends more than was there or was earned by the seconds credited.
proof fn lemma_consumed_ledger(bucket: TokenBucket, max: u32, rate: u32, now: u64) -> (seconds: nat)
    ensures
        bucket.consumed(max, rate, now).last_refill_ns == bucket.last_refill_ns + seconds
            * NS_PER_SEC,
        seconds == 0 || bucket.consumed(max, rate, now).last_refill_ns <= now,
        bucket.consumed(max, rate, now).tokens + (if bucket.grants(max, rate, now) {
            1int
        } else {
            0int
        }) <= bucket.tokens + seconds * rate,
{
    let seconds = whole_seconds(bucket.last_refill_ns, now);
    if seconds >= 1 {
        lemma_fundamental_div_mod(now - bucket.last_refill_ns, NS_PER_SEC as int);
    }
    seconds
}

/// The same over any number of packets.
proof fn lemma_ledger(
    bucket: TokenBucket,
    max: u32,
    rate: u32,
    times: Seq<u64>,
    end: u64,
) -> (seconds: nat)
    requires
        forall|i: int| 0 <= i < times.len() ==> times[i] <= end,
    ensures
        ({
            let after = bucket_after(bucket, max, rate, times);
            &&& after.last_refill_ns == bucket.last_refill_ns + seconds * NS_PER_SEC
            &&& seconds == 0 || after.last_refill_ns <= end
            &&& bucket_passes(bucket, max, rate, times) + after.tokens <= bucket.tokens + seconds
                * rate
        }),
    decreases times.len(),
{
    if times.len() == 0 {
        0
    } else {
        let earlier = lemma_ledger(bucket, max, rate, times.drop_last(), end);
        let before = bucket_after(bucket, max, rate, times.drop_last());
        let last = lemma_consumed_ledger(before, max, rate, times.last());
        assert((earlier + last) * rate == earlier * rate + last * rate) by (nonlinear_arith);
        earlier + last
    }
}

/// The rate limit. Of packets at any times up to `end`, in any order, those that pass and the
/// tokens left after them are together no more than the tokens that the bucket held plus what
/// it earned in the whole seconds up to `end`.
pub proof fn law_passes_are_bounded(
    bucket: TokenBucket,
    max: u32,
    rate: u32,
    times: Seq<u64>,
    end: u64,
)
    requires
        forall|i: int| 0 <= i < times.len() ==> times[i] <= end,
    ensures
        bucket_passes(bucket, max, rate, times) + bucket_after(bucket, max, rate, times).tokens
            <= bucket.tokens + whole_seconds(bucket.last_refill_ns, end) * rate,
{
    let seconds = lemma_ledger(bucket, max, rate, times, end);
    let available = whole_seconds(bucket.last_refill_ns, end);
    if seconds > 0 {
        lemma_div_is_ordered(
            seconds * NS_PER_SEC,
            end - bucket.last_refill_ns,
            NS_PER_SEC as int,
        );
        assert(seconds <= available);
    }
    lemma_mul_inequality(seconds as int, available as int, rate as int);
}

/// A source that keeps sending faster than the bucket refills is denied: once there are more
/// packets than tokens held and earned, not all of them pass.
pub proof fn law_sustained_excess_is_denied(
    bucket: TokenBucket,
    max: u32,
    rate: u32,
    times: Seq<u64>,
    end: u64,
)
    requires
        forall|i: int| 0 <= i < times.len() ==> times[i] <= end,
        times.len() > bucket.tokens + whole_seconds(bucket.last_refill_ns, end) * rate,
    ensures
        bucket_passes(bucket, max, rate, times) < times.len(),
{
    law_passes_are_bounded(bucket, max, rate, times, end);
}

/// A burst within the balance passes whole: of packets at any times, as many as there are
/// tokens all pass, and the balance falls by no more than their number.
pub proof fn law_burst_passes(bucket: TokenBucket, max: u32, rate: u32, times: Seq<u64>)
    requires
        bucket.tokens <= max,
        times.len() <= bucket.tokens,
    ensures
        bucket_passes(bucket, max, rate, times) == times.len(),
        bucket_after(bucket, max, rate, times).tokens + times.len() >= bucket.tokens,
        bucket_after(bucket, max, rate, times).tokens <= max,
    decreases times.len(),
{
    if times.len() > 0 {
        law_burst_passes(bucket, max, rate, times.drop_last());
    }
}

/// What a refill credits, to the token. A packet that comes `seconds` whole seconds after the
/// last refill finds the old balance plus `rate` for each of them, cut at `max`, or the old
/// balance itself within the first second. It is granted exactly when that is not zero, takes
/// one token of it, and moves the credited instant by exactly those seconds.
pub proof fn law_refill_is_exact(
    bucket: TokenBucket,
    max: u32,
    rate: u32,
    now: u64,
    seconds: nat,
)
    requires
        bucket.last_refill_ns + seconds * 1_000_000_000 <= now,
        now < bucket.last_refill_ns + seconds * 1_000_000_000 + 1_000_000_000,
    ensures
        ({
            let after = bucket.consumed(max, rate, now);
            let granted = bucket.grants(max, rate, now);
            let balance: int = if seconds == 0 {
                bucket.tokens as int
            } else if bucket.tokens + seconds * rate <= max {
                bucket.tokens + seconds * rate
            } else {
                max as int
            };
            &&& granted <==> balance > 0
            &&& granted ==> after.tokens + 1 == balance
            &&& !granted ==> after.tokens == 0
            &&& after.last_refill_ns == bucket.last_refill_ns + seconds * 1_000_000_000
        }),
{
    assert((now - bucket.last_refill_ns) / 1_000_000_000 == seconds);
    assert(seconds * (rate as nat) == seconds * rate);
}

/// A clock that went backwards neither credits nor takes away: the packet takes a token if
/// there is one, and the credited instant stays.
pub proof fn law_backward_clock_is_harmless(
    bucket: TokenBucket,
    max: u32,
    rate: u32,
    now: u64,
)
    requires
        now < bucket.last_refill_ns,
    ensures
        bucket.grants(max, rate, now) <==> bucket.tokens > 0,
        bucket.consumed(max, rate, now).last_refill_ns == bucket.last_refill_ns,
        bucket.tokens > 0 ==> bucket.consumed(max, rate, now).tokens + 1 == bucket.tokens,
        bucket.tokens == 0 ==> bucket.consumed(max, rate, now).tokens == 0,
{
}

} // verus!
