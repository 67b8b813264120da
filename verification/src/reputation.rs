//! What is kept per listed source: the reputation of an allowed peer, the hits of a blocked one.

use crate::bucket::{
    bucket_after, bucket_passes, law_burst_passes, law_passes_are_bounded, law_refill_is_exact,
    whole_seconds, TokenBucket,
};
use crate::policy::{MAX_SCORE, MAX_TOKENS, MIN_SCORE_TO_PASS, PENALTY, REFILL_PER_SEC};
use vstd::prelude::*;

verus! {

/// An allowed peer: its bucket and the score that gates it.
#[derive(Clone, Copy, Debug, PartialEq, Eq, Structural)]
pub struct Reputation {
    pub bucket: TokenBucket,
    pub score: u32,
}

impl Reputation {
    /// Score and balance are within their caps.
    pub open spec fn in_bounds(self) -> bool {
        self.score <= MAX_SCORE && self.bucket.tokens <= MAX_TOKENS
    }

    /// Whether a packet at `now` passes: the score is high enough and a token is there.
    pub open spec fn admits(self, now: u64) -> bool {
        self.score >= MIN_SCORE_TO_PASS && self.bucket.grants(MAX_TOKENS, REFILL_PER_SEC, now)
    }

    /// The peer after a packet at `now`. The score gates the bucket: below the floor the
    /// bucket is neither refilled nor charged.
    pub open spec fn after_packet(self, now: u64) -> Reputation {
        Reputation {
            bucket: if self.score >= MIN_SCORE_TO_PASS {
                self.bucket.consumed(MAX_TOKENS, REFILL_PER_SEC, now)
            } else {
                self.bucket
            },
            score: if self.admits(now) {
                if self.score < MAX_SCORE {
                    (self.score + 1) as u32
                } else {
                    MAX_SCORE
                }
            } else if self.score >= PENALTY {
                (self.score - PENALTY) as u32
            } else {
                0
            },
        }
    }

    /// A peer put on the allowlist at `now_ns`: a full bucket and the best score.
    pub fn new(now_ns: u64) -> (reputation: Self)
        ensures
            reputation.bucket.tokens == MAX_TOKENS,
            reputation.bucket.last_refill_ns == now_ns,
            reputation.score == MAX_SCORE,
            reputation.in_bounds(),
    {
        Self { bucket: TokenBucket::new(now_ns, false), score: MAX_SCORE }
    }

    /// Meters one packet of the peer at `now`; a pass raises the score by one up to the cap, a
    /// denial takes the penalty off it.
    pub fn meter(&mut self, now: u64) -> (passed: bool)
        ensures
            passed == old(self).admits(now),
            *final(self) == old(self).after_packet(now),
            old(self).in_bounds() ==> final(self).in_bounds(),
    {
        let is_ok = self.score >= MIN_SCORE_TO_PASS && self.bucket.try_consume(
            MAX_TOKENS,
            REFILL_PER_SEC,
            now,
        );
        if is_ok {
            self.score = self.score.saturating_add(1).min(MAX_SCORE);
        } else {
            self.score = self.score.saturating_sub(PENALTY);
        }
        is_ok
    }
}

/// A blocked source: how often it was seen, and when last.
#[derive(Clone, Copy, Debug, PartialEq, Eq, Structural)]
pub struct BlockedEntry {
    pub hits: u64,
    pub last_seen_ns: u64,
}

impl Default for BlockedEntry {
    fn default() -> (entry: Self)
        ensures
            entry.hits == 0,
            entry.last_seen_ns == 0,
    {
        Self { hits: 0, last_seen_ns: 0 }
    }
}

impl BlockedEntry {
    /// Records a packet at `now`.
    pub fn hit(&mut self, now: u64)
        requires
            old(self).hits < u64::MAX,
        ensures
            final(self).hits == old(self).hits + 1,
            final(self).last_seen_ns == now,
    {
        self.hits = self.hits + 1;
        self.last_seen_ns = now;
    }
}

/// The peer after packets at `times`, one after the other.
pub open spec fn peer_after(peer: Reputation, times: Seq<u64>) -> Reputation
    decreases times.len(),
{
    if times.len() == 0 {
        peer
    } else {
        peer_after(peer, times.drop_last()).after_packet(times.last())
    }
}

/// How many of the packets at `times` pass.
pub open spec fn peer_passes(peer: Reputation, times: Seq<u64>) -> nat
    decreases times.len(),
{
    if times.len() == 0 {
        0
    } else {
        peer_passes(peer, times.drop_last()) + if peer_after(peer, times.drop_last()).admits(
            times.last(),
        ) {
            1nat
        } else {
            0nat
        }
    }
}

/// However many packets a peer sends, its score and balance stay within their caps.
pub proof fn law_bounds_are_kept(peer: Reputation, times: Seq<u64>)
    requires
        peer.in_bounds(),
    ensures
        peer_after(peer, times).in_bounds(),
    decreases times.len(),
{
    if times.len() > 0 {
        law_bounds_are_kept(peer, times.drop_last());
    }
}

/// A peer below the floor never passes again, however long it was silent: no packet passes,
/// the score only falls, and the bucket is not touched.
pub proof fn law_penalized_stays_denied(peer: Reputation, times: Seq<u64>)
    requires
        peer.score < MIN_SCORE_TO_PASS,
    ensures
        peer_passes(peer, times) == 0,
        peer_after(peer, times).score <= peer.score,
        peer_after(peer, times).bucket == peer.bucket,
    decreases times.len(),
{
    if times.len() > 0 {
        law_penalized_stays_denied(peer, times.drop_last());
    }
}

/// Every denial costs the penalty: after a run of packets none of which passed, the score is
/// lower by the penalty for each, down to zero.
pub proof fn law_denials_accumulate(peer: Reputation, times: Seq<u64>)
    requires
        peer_passes(peer, times) == 0,
    ensures
        peer_after(peer, times).score == (if peer.score >= PENALTY * times.len() {
            peer.score - PENALTY * times.len()
        } else {
            0
        }),
    decreases times.len(),
{
    if times.len() > 0 {
        law_denials_accumulate(peer, times.drop_last());
    }
}

/// A trusted peer absorbs a burst: with a score at the floor or above, as many packets as it
/// has tokens all pass, and each raises the score by one up to the cap.
pub proof fn law_trusted_burst_passes(peer: Reputation, times: Seq<u64>)
    requires
        peer.in_bounds(),
        peer.score >= MIN_SCORE_TO_PASS,
        times.len() <= peer.bucket.tokens,
    ensures
        peer_passes(peer, times) == times.len(),
        peer_after(peer, times).score == (if peer.score + times.len() <= MAX_SCORE {
            peer.score + times.len()
        } else {
            MAX_SCORE as int
        }),
        peer_after(peer, times).bucket == bucket_after(
            peer.bucket,
            MAX_TOKENS,
            REFILL_PER_SEC,
            times,
        ),
    decreases times.len(),
{
    if times.len() > 0 {
        law_trusted_burst_passes(peer, times.drop_last());
        law_burst_passes(peer.bucket, MAX_TOKENS, REFILL_PER_SEC, times.drop_last());
    }
}

/// The packets at which the bucket was charged: those that met a score at the floor or above.
spec fn charged(peer: Reputation, times: Seq<u64>) -> Seq<u64>
    decreases times.len(),
{
    if times.len() == 0 {
        times
    } else if peer_after(peer, times.drop_last()).score >= MIN_SCORE_TO_PASS {
        charged(peer, times.drop_last()).push(times.last())
    } else {
        charged(peer, times.drop_last())
    }
}

/// A peer passes what its bucket passes on the packets at which it was charged.
proof fn lemma_charged(peer: Reputation, times: Seq<u64>, end: u64)
    requires
        forall|i: int| 0 <= i < times.len() ==> times[i] <= end,
    ensures
        forall|i: int|
            0 <= i < charged(peer, times).len() ==> #[trigger] charged(peer, times)[i] <= end,
        peer_passes(peer, times) == bucket_passes(
            peer.bucket,
            MAX_TOKENS,
            REFILL_PER_SEC,
            charged(peer, times),
        ),
        peer_after(peer, times).bucket == bucket_after(
            peer.bucket,
            MAX_TOKENS,
            REFILL_PER_SEC,
            charged(peer, times),
        ),
    decreases times.len(),
{
    if times.len() > 0 {
        lemma_charged(peer, times.drop_last(), end);
        let earlier = charged(peer, times.drop_last());
        assert(earlier.push(times.last()).drop_last() =~= earlier);
    }
}

/// The rate limit holds for an allowed peer too: of packets at any times up to `end`, those
/// that pass and the tokens left after them are together no more than the tokens that its bucket
/// held plus what it earned in the whole seconds up to `end`.
pub proof fn law_peer_passes_are_bounded(peer: Reputation, times: Seq<u64>, end: u64)
    requires
        forall|i: int| 0 <= i < times.len() ==> times[i] <= end,
    ensures
        peer_passes(peer, times) + peer_after(peer, times).bucket.tokens <= peer.bucket.tokens
            + whole_seconds(peer.bucket.last_refill_ns, end) * REFILL_PER_SEC,
{
    lemma_charged(peer, times, end);
    law_passes_are_bounded(peer.bucket, MAX_TOKENS, REFILL_PER_SEC, charged(peer, times), end);
}

/// A peer at the floor or above is metered by its bucket, refill first: a packet that comes
/// `seconds` whole seconds after the last refill passes exactly when the old balance, with the
/// refill of those seconds cut at the cap, is not zero. A drained peer that waited a second
/// passes again. A pass takes one token and raises the score by one up to the cap; a denial
/// leaves the bucket empty and takes the penalty off the score.
pub proof fn law_meter_at_the_floor_is_exact(peer: Reputation, now: u64, seconds: nat)
    requires
        peer.score >= MIN_SCORE_TO_PASS,
        peer.bucket.last_refill_ns + seconds * 1_000_000_000 <= now,
        now < peer.bucket.last_refill_ns + seconds * 1_000_000_000 + 1_000_000_000,
    ensures
        ({
            let after = peer.after_packet(now);
            let balance: int = if seconds == 0 {
                peer.bucket.tokens as int
            } else if peer.bucket.tokens + seconds * REFILL_PER_SEC <= MAX_TOKENS {
                peer.bucket.tokens + seconds * REFILL_PER_SEC
            } else {
                MAX_TOKENS as int
            };
            &&& peer.admits(now) <==> balance > 0
            &&& balance > 0 ==> after.bucket.tokens + 1 == balance
            &&& balance > 0 && peer.score < MAX_SCORE ==> after.score == peer.score + 1
            &&& balance > 0 && peer.score >= MAX_SCORE ==> after.score == MAX_SCORE
            &&& balance == 0 ==> after.bucket.tokens == 0
            &&& balance == 0 ==> after.score + PENALTY == peer.score
            &&& after.bucket.last_refill_ns == peer.bucket.last_refill_ns + seconds
                * 1_000_000_000
        }),
{
    law_refill_is_exact(peer.bucket, MAX_TOKENS, REFILL_PER_SEC, now, seconds);
}

/// The same when the clock went backwards: nothing is credited.
pub proof fn law_meter_with_backward_clock_is_exact(peer: Reputation, now: u64)
    requires
        peer.score >= MIN_SCORE_TO_PASS,
        now < peer.bucket.last_refill_ns,
    ensures
        ({
            let after = peer.after_packet(now);
            &&& peer.admits(now) <==> peer.bucket.tokens > 0
            &&& peer.bucket.tokens > 0 ==> after.bucket.tokens + 1 == peer.bucket.tokens
            &&& peer.bucket.tokens > 0 && peer.score < MAX_SCORE ==> after.score == peer.score + 1
            &&& peer.bucket.tokens > 0 && peer.score >= MAX_SCORE ==> after.score == MAX_SCORE
            &&& peer.bucket.tokens == 0 ==> after.bucket.tokens == 0
            &&& peer.bucket.tokens == 0 ==> after.score + PENALTY == peer.score
            &&& after.bucket.last_refill_ns == peer.bucket.last_refill_ns
        }),
{
}

/// A peer below the floor is denied at any time and whatever its bucket holds; the penalty
/// comes off its score, down to zero, and its bucket is left alone.
pub proof fn law_meter_below_the_floor_is_exact(peer: Reputation, now: u64)
    requires
        peer.score < MIN_SCORE_TO_PASS,
    ensures
        !peer.admits(now),
        peer.after_packet(now).bucket.tokens == peer.bucket.tokens,
        peer.after_packet(now).bucket.last_refill_ns == peer.bucket.last_refill_ns,
        peer.score >= PENALTY ==> peer.after_packet(now).score + PENALTY == peer.score,
        peer.score < PENALTY ==> peer.after_packet(now).score == 0,
{
}

} // verus!
