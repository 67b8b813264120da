//! What the dialogue of `filter` comes to when the tables store what they are told: the effect
//! of a packet on the tables, and what follows for whole streams of packets.
//!
//! Everything here is mathematics; a table is a map from sources to entries.

use crate::addr::Source;
use crate::bucket::{
    bucket_after, bucket_passes, law_passes_are_bounded, law_refill_is_exact, whole_seconds,
    TokenBucket,
};
use crate::filter::{action_of, answered, fresh_bucket, Reply, Step, Table, Update, XdpAction};
use crate::policy::{
    MAX_SCORE, MAX_TOKENS, MIN_SCORE_TO_PASS, NEW_MAX_TOKENS, REFILL_PER_SEC,
};
use crate::reputation::{
    law_meter_at_the_floor_is_exact, law_peer_passes_are_bounded, peer_after, peer_passes,
    BlockedEntry, Reputation,
};
use vstd::prelude::*;

verus! {

/// The tables, as the processor that handles the packets sees them.
#[verifier::ext_equal]
pub struct Tables {
    pub blocked: Map<Source, BlockedEntry>,
    pub counts: Map<Source, u64>,
    pub allowed: Map<Source, Reputation>,
    pub unknown: Map<Source, TokenBucket>,
}

/// The entry of a source, if it has one.
pub open spec fn entry_of<V>(table: Map<Source, V>, source: Source) -> Option<V> {
    if table.contains_key(source) {
        Some(table[source])
    } else {
        None
    }
}

impl Tables {
    /// What a lookup of `source` in `table` finds.
    pub open spec fn found(self, table: Table, source: Source) -> Reply {
        match table {
            Table::Blocked => Reply::Blocked(entry_of(self.blocked, source)),
            Table::Counts => Reply::Count(entry_of(self.counts, source)),
            Table::Allowed => Reply::Allowed(entry_of(self.allowed, source)),
            Table::Unknown => Reply::Unknown(entry_of(self.unknown, source)),
        }
    }

    /// The tables after `update` was stored for `source`.
    pub open spec fn stored(self, source: Source, update: Update) -> Tables {
        match update {
            Update::Nothing => self,
            Update::Blocked(entry) => Tables {
                blocked: self.blocked.insert(source, entry),
                ..self
            },
            Update::Count(count) => Tables { counts: self.counts.insert(source, count), ..self },
            Update::NewCount(count, _) => Tables {
                counts: self.counts.insert(source, count),
                ..self
            },
            Update::Allowed(peer) => Tables { allowed: self.allowed.insert(source, peer), ..self },
            Update::Unknown(bucket) => Tables {
                unknown: self.unknown.insert(source, bucket),
                ..self
            },
            Update::NewUnknown(bucket, _) => Tables {
                unknown: self.unknown.insert(source, bucket),
                ..self
            },
        }
    }

    /// The two tables of listed sources and that of unknown ones do not know `source`.
    pub open spec fn never_saw(self, source: Source) -> bool {
        &&& !self.blocked.contains_key(source)
        &&& !self.allowed.contains_key(source)
        &&& !self.unknown.contains_key(source)
    }

    /// The packets of `source` counted so far.
    pub open spec fn count(self, source: Source) -> int {
        match entry_of(self.counts, source) {
            Some(count) => count as int,
            None => 0,
        }
    }
}

/// How many lookups can still follow a step.
pub open spec fn lookups_left(step: Step) -> nat {
    match step {
        Step::Lookup(Table::Blocked, _) => 4,
        Step::Lookup(Table::Counts, _) => 3,
        Step::Lookup(Table::Allowed, _) => 2,
        Step::Lookup(Table::Unknown, _) => 1,
        Step::Finish(_) => 0,
    }
}

/// The dialogue carried to its end: every lookup answered from the tables, every update
/// stored in them.
pub open spec fn driven(tables: Tables, step: Step, now: u64) -> (Tables, XdpAction)
    decreases lookups_left(step),
{
    match step {
        Step::Finish(action) => (tables, action),
        Step::Lookup(table, source) => {
            let (update, next) = answered(source, tables.found(table, source), now);
            driven(tables.stored(source, update), next, now)
        },
    }
}

/// What a packet of `source` at `now` comes to.
pub open spec fn processed(tables: Tables, source: Source, now: u64) -> (Tables, XdpAction) {
    if tables.blocked.contains_key(source) {
        let entry = tables.blocked[source];
        let hit = BlockedEntry { hits: (entry.hits + 1) as u64, last_seen_ns: now };
        (Tables { blocked: tables.blocked.insert(source, hit), ..tables }, XdpAction::Drop)
    } else {
        let counted = Tables {
            counts: tables.counts.insert(source, (tables.count(source) + 1) as u64),
            ..tables
        };
        if tables.allowed.contains_key(source) {
            let peer = tables.allowed[source];
            (
                Tables {
                    allowed: tables.allowed.insert(source, peer.after_packet(now)),
                    ..counted
                },
                action_of(peer.admits(now)),
            )
        } else if tables.unknown.contains_key(source) {
            let bucket = tables.unknown[source];
            (
                Tables {
                    unknown: tables.unknown.insert(
                        source,
                        bucket.consumed(MAX_TOKENS, REFILL_PER_SEC, now),
                    ),
                    ..counted
                },
                action_of(bucket.grants(MAX_TOKENS, REFILL_PER_SEC, now)),
            )
        } else {
            (
                Tables { unknown: tables.unknown.insert(source, fresh_bucket(now)), ..counted },
                XdpAction::Pass,
            )
        }
    }
}

/// The dialogue that starts at the blocklist ends within four lookups, in the tables and with
/// the verdict that `processed` gives.
pub proof fn law_dialogue_processes_the_packet(tables: Tables, source: Source, now: u64)
    ensures
        driven(tables, Step::Lookup(Table::Blocked, source), now) == processed(
            tables,
            source,
            now,
        ),
{
    reveal_with_fuel(driven, 5);
}

/// A packet of a blocked source is dropped, bumps the hits of its entry and the time it was
/// last seen, and leaves everything else as it was: it is not even counted.
pub proof fn law_blocked_is_dropped(tables: Tables, source: Source, now: u64)
    requires
        tables.blocked.contains_key(source),
        tables.blocked[source].hits < u64::MAX,
    ensures
        ({
            let (after, action) = processed(tables, source, now);
            &&& action == XdpAction::Drop
            &&& after.blocked.contains_key(source)
            &&& after.blocked[source].hits == tables.blocked[source].hits + 1
            &&& after.blocked[source].last_seen_ns == now
            &&& after.counts == tables.counts
            &&& after.allowed == tables.allowed
            &&& after.unknown == tables.unknown
        }),
{
}

/// A packet of a source that is not blocked is counted, whether it passes or not.
pub proof fn law_unblocked_is_counted(tables: Tables, source: Source, now: u64)
    requires
        !tables.blocked.contains_key(source),
        tables.count(source) < u64::MAX,
    ensures
        processed(tables, source, now).0.count(source) == tables.count(source) + 1,
        processed(tables, source, now).0.blocked == tables.blocked,
{
}

/// A packet touches the entries of its own source alone. The families have keys of their own,
/// so that the two addresses of a peer that speaks both are tracked independently.
pub proof fn law_other_sources_are_untouched(
    tables: Tables,
    source: Source,
    other: Source,
    now: u64,
    table: Table,
)
    requires
        other != source,
    ensures
        processed(tables, source, now).0.found(table, other) == tables.found(table, other),
{
}

/// The buckets of unknown sources play no part in a packet of an allowed peer, nor the
/// reputations of peers in one of an unknown source.
pub proof fn law_listed_and_unknown_are_apart(tables: Tables, source: Source, now: u64)
    ensures
        tables.allowed.contains_key(source) ==> processed(tables, source, now).0.unknown
            == tables.unknown,
        !tables.allowed.contains_key(source) ==> processed(tables, source, now).0.allowed
            == tables.allowed,
{
}

/// The first packet of a source passes and opens a bucket with the smaller starting balance.
pub proof fn law_first_packet_passes(tables: Tables, source: Source, now: u64)
    requires
        tables.never_saw(source),
    ensures
        processed(tables, source, now).1 == XdpAction::Pass,
        entry_of(processed(tables, source, now).0.unknown, source) == Some(fresh_bucket(now)),
{
}

/// The tables after packets of `source` at `times`, one after the other.
pub open spec fn tables_after(tables: Tables, source: Source, times: Seq<u64>) -> Tables
    decreases times.len(),
{
    if times.len() == 0 {
        tables
    } else {
        processed(tables_after(tables, source, times.drop_last()), source, times.last()).0
    }
}

/// How many of the packets of `source` at `times` pass.
pub open spec fn packets_passed(tables: Tables, source: Source, times: Seq<u64>) -> nat
    decreases times.len(),
{
    if times.len() == 0 {
        0
    } else {
        packets_passed(tables, source, times.drop_last()) + if processed(
            tables_after(tables, source, times.drop_last()),
            source,
            times.last(),
        ).1 == XdpAction::Pass {
            1nat
        } else {
            0nat
        }
    }
}

/// Every packet of a source that is not blocked is counted, whether it passes or not.
pub proof fn law_every_packet_is_counted(tables: Tables, source: Source, times: Seq<u64>)
    requires
        !tables.blocked.contains_key(source),
        tables.count(source) + times.len() <= u64::MAX,
    ensures
        tables_after(tables, source, times).count(source) == tables.count(source) + times.len(),
        !tables_after(tables, source, times).blocked.contains_key(source),
    decreases times.len(),
{
    if times.len() > 0 {
        law_every_packet_is_counted(tables, source, times.drop_last());
    }
}

/// Every packet of a blocked source is a hit, and the last one dates the entry.
pub proof fn law_every_hit_is_recorded(tables: Tables, source: Source, times: Seq<u64>)
    requires
        tables.blocked.contains_key(source),
        tables.blocked[source].hits + times.len() <= u64::MAX,
    ensures
        ({
            let after = tables_after(tables, source, times).blocked;
            &&& after.contains_key(source)
            &&& after[source].hits == tables.blocked[source].hits + times.len()
            &&& times.len() > 0 ==> after[source].last_seen_ns == times.last()
        }),
    decreases times.len(),
{
    if times.len() > 0 {
        law_every_hit_is_recorded(tables, source, times.drop_last());
    }
}

/// No packet of a blocked source ever passes, and the source stays blocked.
pub proof fn law_blocked_never_passes(tables: Tables, source: Source, times: Seq<u64>)
    requires
        tables.blocked.contains_key(source),
    ensures
        packets_passed(tables, source, times) == 0,
        tables_after(tables, source, times).blocked.contains_key(source),
    decreases times.len(),
{
    if times.len() > 0 {
        law_blocked_never_passes(tables, source, times.drop_last());
    }
}

/// An allowed peer that is not blocked is metered by its reputation alone.
pub proof fn law_allowed_is_metered_by_reputation(
    tables: Tables,
    source: Source,
    times: Seq<u64>,
)
    requires
        !tables.blocked.contains_key(source),
        tables.allowed.contains_key(source),
    ensures
        packets_passed(tables, source, times) == peer_passes(tables.allowed[source], times),
        entry_of(tables_after(tables, source, times).allowed, source) == Some(
            peer_after(tables.allowed[source], times),
        ),
        !tables_after(tables, source, times).blocked.contains_key(source),
    decreases times.len(),
{
    if times.len() > 0 {
        law_allowed_is_metered_by_reputation(tables, source, times.drop_last());
    }
}

/// A source on neither list that was seen before is metered by its bucket alone.
pub proof fn law_unknown_is_metered_by_bucket(tables: Tables, source: Source, times: Seq<u64>)
    requires
        !tables.blocked.contains_key(source),
        !tables.allowed.contains_key(source),
        tables.unknown.contains_key(source),
    ensures
        packets_passed(tables, source, times) == bucket_passes(
            tables.unknown[source],
            MAX_TOKENS,
            REFILL_PER_SEC,
            times,
        ),
        entry_of(tables_after(tables, source, times).unknown, source) == Some(
            bucket_after(tables.unknown[source], MAX_TOKENS, REFILL_PER_SEC, times),
        ),
        !tables_after(tables, source, times).blocked.contains_key(source),
        !tables_after(tables, source, times).allowed.contains_key(source),
    decreases times.len(),
{
    if times.len() > 0 {
        law_unknown_is_metered_by_bucket(tables, source, times.drop_last());
    }
}

/// The first packet can be told off the rest of the stream.
proof fn lemma_first_packet(tables: Tables, source: Source, times: Seq<u64>)
    requires
        times.len() > 0,
    ensures
        ({
            let (after, action) = processed(tables, source, times[0]);
            &&& tables_after(tables, source, times) == tables_after(
                after,
                source,
                times.drop_first(),
            )
            &&& packets_passed(tables, source, times) == packets_passed(
                after,
                source,
                times.drop_first(),
            ) + (if action == XdpAction::Pass {
                1nat
            } else {
                0nat
            })
        }),
    decreases times.len(),
{
    reveal_with_fuel(tables_after, 2);
    reveal_with_fuel(packets_passed, 2);
    if times.len() == 1 {
        assert(times.drop_last() =~= Seq::<u64>::empty());
        assert(times.drop_first() =~= Seq::<u64>::empty());
    } else {
        lemma_first_packet(tables, source, times.drop_last());
        assert(times.drop_last().drop_first() =~= times.drop_first().drop_last());
    }
}

/// The rate limit on a source that was never seen: of packets at any times up to `end`, no
/// more pass than the first, the starting balance, and what the bucket earned in the whole
/// seconds since the first.
pub proof fn law_new_source_is_limited(
    tables: Tables,
    source: Source,
    times: Seq<u64>,
    end: u64,
)
    requires
        tables.never_saw(source),
        times.len() > 0,
        forall|i: int| 0 <= i < times.len() ==> times[i] <= end,
    ensures
        packets_passed(tables, source, times) <= 1 + NEW_MAX_TOKENS + whole_seconds(times[0], end)
            * REFILL_PER_SEC,
{
    lemma_first_packet(tables, source, times);
    let after = processed(tables, source, times[0]).0;
    law_unknown_is_metered_by_bucket(after, source, times.drop_first());
    law_passes_are_bounded(
        fresh_bucket(times[0]),
        MAX_TOKENS,
        REFILL_PER_SEC,
        times.drop_first(),
        end,
    );
}

/// The rate limit on a source on neither list that was seen before: of packets at any times
/// up to `end`, no more pass than its bucket held tokens plus what it earned in the whole
/// seconds up to `end`.
pub proof fn law_known_source_is_limited(
    tables: Tables,
    source: Source,
    times: Seq<u64>,
    end: u64,
)
    requires
        !tables.blocked.contains_key(source),
        !tables.allowed.contains_key(source),
        tables.unknown.contains_key(source),
        forall|i: int| 0 <= i < times.len() ==> times[i] <= end,
    ensures
        packets_passed(tables, source, times) <= tables.unknown[source].tokens + whole_seconds(
            tables.unknown[source].last_refill_ns,
            end,
        ) * REFILL_PER_SEC,
{
    law_unknown_is_metered_by_bucket(tables, source, times);
    law_passes_are_bounded(tables.unknown[source], MAX_TOKENS, REFILL_PER_SEC, times, end);
}

/// The rate limit on an allowed peer that is not blocked: of packets at any times up to
/// `end`, no more pass than its bucket held tokens plus what it earned in the whole seconds up
/// to `end`.
pub proof fn law_allowed_peer_is_limited(
    tables: Tables,
    source: Source,
    times: Seq<u64>,
    end: u64,
)
    requires
        !tables.blocked.contains_key(source),
        tables.allowed.contains_key(source),
        forall|i: int| 0 <= i < times.len() ==> times[i] <= end,
    ensures
        packets_passed(tables, source, times) <= tables.allowed[source].bucket.tokens
            + whole_seconds(tables.allowed[source].bucket.last_refill_ns, end) * REFILL_PER_SEC,
{
    law_allowed_is_metered_by_reputation(tables, source, times);
    law_peer_passes_are_bounded(tables.allowed[source], times, end);
}

/// The tables after a stream of packets of any sources, each with its time.
pub open spec fn stream_after(tables: Tables, stream: Seq<(Source, u64)>) -> Tables
    decreases stream.len(),
{
    if stream.len() == 0 {
        tables
    } else {
        processed(
            stream_after(tables, stream.drop_last()),
            stream.last().0,
            stream.last().1,
        ).0
    }
}

/// How many packets of `source` in a stream pass.
pub open spec fn stream_passed(
    tables: Tables,
    stream: Seq<(Source, u64)>,
    source: Source,
) -> nat
    decreases stream.len(),
{
    if stream.len() == 0 {
        0
    } else {
        stream_passed(tables, stream.drop_last(), source) + if stream.last().0 == source
            && processed(
            stream_after(tables, stream.drop_last()),
            source,
            stream.last().1,
        ).1 == XdpAction::Pass {
            1nat
        } else {
            0nat
        }
    }
}

/// The times of the packets of `source` in a stream.
pub open spec fn times_of(stream: Seq<(Source, u64)>, source: Source) -> Seq<u64>
    decreases stream.len(),
{
    if stream.len() == 0 {
        Seq::empty()
    } else if stream.last().0 == source {
        times_of(stream.drop_last(), source).push(stream.last().1)
    } else {
        times_of(stream.drop_last(), source)
    }
}

/// Whether all lookups of `source` find the same in both.
pub open spec fn agree_on(a: Tables, b: Tables, source: Source) -> bool {
    forall|table: Table| #[trigger] a.found(table, source) == b.found(table, source)
}

/// What becomes of a packet depends on the entries of its source alone.
pub proof fn law_only_own_entries_matter(a: Tables, b: Tables, source: Source, now: u64)
    requires
        agree_on(a, b, source),
    ensures
        processed(a, source, now).1 == processed(b, source, now).1,
        agree_on(processed(a, source, now).0, processed(b, source, now).0, source),
{
    assert(a.found(Table::Blocked, source) == b.found(Table::Blocked, source));
    assert(a.found(Table::Counts, source) == b.found(Table::Counts, source));
    assert(a.found(Table::Allowed, source) == b.found(Table::Allowed, source));
    assert(a.found(Table::Unknown, source) == b.found(Table::Unknown, source));
}

/// Sources do not get in each other's way. Whatever other packets a stream holds, the entries
/// of a source after it, and the number of its packets that pass, are those that its own packets
/// alone come to.
pub proof fn law_mixed_streams_come_apart(
    tables: Tables,
    stream: Seq<(Source, u64)>,
    source: Source,
)
    ensures
        agree_on(
            stream_after(tables, stream),
            tables_after(tables, source, times_of(stream, source)),
            source,
        ),
        stream_passed(tables, stream, source) == packets_passed(
            tables,
            source,
            times_of(stream, source),
        ),
    decreases stream.len(),
{
    if stream.len() > 0 {
        let rest = stream.drop_last();
        let (last, now) = stream.last();
        let mixed = stream_after(tables, rest);
        let own = times_of(rest, source);
        law_mixed_streams_come_apart(tables, rest, source);
        if last == source {
            assert(own.push(now).drop_last() =~= own);
            law_only_own_entries_matter(mixed, tables_after(tables, source, own), source, now);
        } else {
            assert forall|table: Table| #[trigger]
                processed(mixed, last, now).0.found(table, source) == mixed.found(
                    table,
                    source,
                ) by {
                law_other_sources_are_untouched(mixed, last, source, now, table);
            }
        }
    }
}

/// The packets of `source` in a stream come no later than `end`.
pub open spec fn comes_by(stream: Seq<(Source, u64)>, source: Source, end: u64) -> bool {
    forall|i: int|
        0 <= i < stream.len() && (#[trigger] stream[i]).0 == source ==> stream[i].1 <= end
}

proof fn lemma_times_come_by(stream: Seq<(Source, u64)>, source: Source, end: u64)
    requires
        comes_by(stream, source, end),
    ensures
        forall|i: int|
            0 <= i < times_of(stream, source).len() ==> #[trigger] times_of(stream, source)[i]
                <= end,
    decreases stream.len(),
{
    if stream.len() > 0 {
        let rest = stream.drop_last();
        assert forall|i: int|
            0 <= i < rest.len() && (#[trigger] rest[i]).0 == source implies rest[i].1 <= end by {
            assert(rest[i] == stream[i]);
        }
        lemma_times_come_by(rest, source, end);
        assert(stream[stream.len() - 1] == stream.last());
        assert forall|i: int| 0 <= i < times_of(stream, source).len() implies #[trigger] times_of(
            stream,
            source,
        )[i] <= end by {
            if i < times_of(rest, source).len() {
                assert(times_of(rest, source)[i] <= end);
            }
        }
    }
}

/// No packet of a blocked source passes, whatever traffic it is mixed with.
pub proof fn law_blocked_never_passes_in_traffic(
    tables: Tables,
    stream: Seq<(Source, u64)>,
    source: Source,
)
    requires
        tables.blocked.contains_key(source),
    ensures
        stream_passed(tables, stream, source) == 0,
{
    law_mixed_streams_come_apart(tables, stream, source);
    law_blocked_never_passes(tables, source, times_of(stream, source));
}

/// The rate limit on a source that was never seen, in any traffic.
pub proof fn law_new_source_is_limited_in_traffic(
    tables: Tables,
    stream: Seq<(Source, u64)>,
    source: Source,
    end: u64,
)
    requires
        tables.never_saw(source),
        times_of(stream, source).len() > 0,
        comes_by(stream, source, end),
    ensures
        stream_passed(tables, stream, source) <= 1 + NEW_MAX_TOKENS + whole_seconds(
            times_of(stream, source)[0],
            end,
        ) * REFILL_PER_SEC,
{
    law_mixed_streams_come_apart(tables, stream, source);
    lemma_times_come_by(stream, source, end);
    law_new_source_is_limited(tables, source, times_of(stream, source), end);
}

/// The rate limit on a source on neither list that was seen before, in any traffic.
pub proof fn law_known_source_is_limited_in_traffic(
    tables: Tables,
    stream: Seq<(Source, u64)>,
    source: Source,
    end: u64,
)
    requires
        !tables.blocked.contains_key(source),
        !tables.allowed.contains_key(source),
        tables.unknown.contains_key(source),
        comes_by(stream, source, end),
    ensures
        stream_passed(tables, stream, source) <= tables.unknown[source].tokens + whole_seconds(
            tables.unknown[source].last_refill_ns,
            end,
        ) * REFILL_PER_SEC,
{
    law_mixed_streams_come_apart(tables, stream, source);
    lemma_times_come_by(stream, source, end);
    law_known_source_is_limited(tables, source, times_of(stream, source), end);
}

/// The rate limit on an allowed peer that is not blocked, in any traffic.
pub proof fn law_allowed_peer_is_limited_in_traffic(
    tables: Tables,
    stream: Seq<(Source, u64)>,
    source: Source,
    end: u64,
)
    requires
        !tables.blocked.contains_key(source),
        tables.allowed.contains_key(source),
        comes_by(stream, source, end),
    ensures
        stream_passed(tables, stream, source) <= tables.allowed[source].bucket.tokens
            + whole_seconds(tables.allowed[source].bucket.last_refill_ns, end) * REFILL_PER_SEC,
{
    law_mixed_streams_come_apart(tables, stream, source);
    lemma_times_come_by(stream, source, end);
    law_allowed_peer_is_limited(tables, source, times_of(stream, source), end);
}

/// A drained peer that rests recovers. Whatever its balance, an allowed peer that is not blocked
/// and whose score is not below the floor passes as soon as a whole second lies between its
/// packet and its last refill, and is left with its balance, refilled up to the cap, less one.
pub proof fn law_rested_peer_passes(tables: Tables, source: Source, now: u64, seconds: nat)
    requires
        !tables.blocked.contains_key(source),
        tables.allowed.contains_key(source),
        tables.allowed[source].score >= MIN_SCORE_TO_PASS,
        seconds >= 1,
        tables.allowed[source].bucket.last_refill_ns + seconds * 1_000_000_000 <= now,
        now < tables.allowed[source].bucket.last_refill_ns + seconds * 1_000_000_000
            + 1_000_000_000,
    ensures
        ({
            let (after, action) = driven(tables, Step::Lookup(Table::Blocked, source), now);
            let peer = tables.allowed[source];
            &&& action == XdpAction::Pass
            &&& after.allowed.contains_key(source)
            &&& peer.bucket.tokens + seconds * REFILL_PER_SEC <= MAX_TOKENS
                ==> after.allowed[source].bucket.tokens + 1 == peer.bucket.tokens + seconds
                * REFILL_PER_SEC
            &&& peer.bucket.tokens + seconds * REFILL_PER_SEC >= MAX_TOKENS
                ==> after.allowed[source].bucket.tokens + 1 == MAX_TOKENS
            &&& peer.score < MAX_SCORE ==> after.allowed[source].score == peer.score + 1
        }),
{
    law_dialogue_processes_the_packet(tables, source, now);
    law_meter_at_the_floor_is_exact(tables.allowed[source], now, seconds);
}

/// A drained source that is on neither list recovers the same way: it passes as soon as a whole
/// second lies between its packet and its last refill.
pub proof fn law_rested_source_passes(tables: Tables, source: Source, now: u64, seconds: nat)
    requires
        !tables.blocked.contains_key(source),
        !tables.allowed.contains_key(source),
        tables.unknown.contains_key(source),
        seconds >= 1,
        tables.unknown[source].last_refill_ns + seconds * 1_000_000_000 <= now,
        now < tables.unknown[source].last_refill_ns + seconds * 1_000_000_000 + 1_000_000_000,
    ensures
        ({
            let (after, action) = driven(tables, Step::Lookup(Table::Blocked, source), now);
            let bucket = tables.unknown[source];
            &&& action == XdpAction::Pass
            &&& after.unknown.contains_key(source)
            &&& bucket.tokens + seconds * REFILL_PER_SEC <= MAX_TOKENS
                ==> after.unknown[source].tokens + 1 == bucket.tokens + seconds * REFILL_PER_SEC
            &&& bucket.tokens + seconds * REFILL_PER_SEC >= MAX_TOKENS
                ==> after.unknown[source].tokens + 1 == MAX_TOKENS
        }),
{
    law_dialogue_processes_the_packet(tables, source, now);
    law_refill_is_exact(tables.unknown[source], MAX_TOKENS, REFILL_PER_SEC, now, seconds);
}

} // verus!
