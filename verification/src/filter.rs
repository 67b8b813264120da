//! The decision on a packet, as a dialogue with the tables that hold the state.
//!
//! The tables live outside (in the kernel they are shared maps), so that the decision never
//! touches them: it names the table to look the source up in, is told what was found there,
//! and answers with the entry to store and with the next lookup or the verdict.

use crate::addr::Source;
use crate::bucket::{law_refill_is_exact, TokenBucket};
use crate::packet::{
    frame_protocol, ipv4_source, ipv4_source_of, ipv6_source, is_ipv6_source,
    law_ipv4_source_is_where_it_stands, law_tag_alone_tells_the_protocol, protocol_of, Protocol,
    ETH_HDR_LEN, IPV4_HDR_LEN, IPV6_HDR_LEN,
};
use crate::policy::{MAX_TOKENS, NEW_MAX_TOKENS, REFILL_PER_SEC};
use crate::reputation::{BlockedEntry, Reputation};
use vstd::prelude::*;

verus! {

/// The verdict on a packet.
#[derive(Clone, Copy, Debug, PartialEq, Eq, Structural)]
pub enum XdpAction {
    /// The frame is too short for the headers it claims to have.
    Aborted,
    Drop,
    Pass,
}

/// The tables that hold state per source. Each address family has its own of each.
#[derive(Clone, Copy, Debug, PartialEq, Eq, Structural)]
pub enum Table {
    Blocked,
    Counts,
    Allowed,
    Unknown,
}

/// What comes next for a packet.
#[derive(Clone, Copy, Debug, PartialEq, Eq)]
pub enum Step {
    /// Look the source up in the table of its family and answer with what is there.
    Lookup(Table, Source),
    Finish(XdpAction),
}

/// What a lookup found, told apart by the table it was made in.
#[derive(Clone, Copy, Debug, PartialEq, Eq)]
pub enum Reply {
    Blocked(Option<BlockedEntry>),
    Count(Option<u64>),
    Allowed(Option<Reputation>),
    Unknown(Option<TokenBucket>),
}

/// What to store for the source before the next step. The `New` forms add an entry to a
/// table that had none; the flags go with the insertion.
#[derive(Clone, Copy, Debug, PartialEq, Eq)]
pub enum Update {
    Nothing,
    Blocked(BlockedEntry),
    Count(u64),
    NewCount(u64, u64),
    Allowed(Reputation),
    Unknown(TokenBucket),
    NewUnknown(TokenBucket, u64),
}

/// Insert only where no entry exists yet.
pub const FLAG_NO_EXIST: u64 = 1;

/// Insert or overwrite.
pub const FLAG_ANY: u64 = 0;

/// The verdict that goes with a decision to let a packet through or not.
pub open spec fn action_of(allowed: bool) -> XdpAction {
    if allowed {
        XdpAction::Pass
    } else {
        XdpAction::Drop
    }
}

impl Reply {
    /// The counter in the entry, if it has one, can still count a packet.
    pub open spec fn can_count(self) -> bool {
        match self {
            Reply::Blocked(Some(entry)) => entry.hits < u64::MAX,
            Reply::Count(Some(count)) => count < u64::MAX,
            _ => true,
        }
    }

    /// Tells whether the counter in the entry can still count a packet.
    pub fn is_countable(&self) -> (countable: bool)
        ensures
            countable == self.can_count(),
    {
        match self {
            Reply::Blocked(Some(entry)) => entry.hits < u64::MAX,
            Reply::Count(Some(count)) => *count < u64::MAX,
            _ => true,
        }
    }
}

/// The bucket of a source first seen at `now`.
pub open spec fn fresh_bucket(now: u64) -> TokenBucket {
    TokenBucket { tokens: NEW_MAX_TOKENS, last_refill_ns: now }
}

/// What is stored, and what comes next, for each reply.
pub open spec fn answered(source: Source, reply: Reply, now: u64) -> (Update, Step) {
    match reply {
        Reply::Blocked(Some(entry)) => (
            Update::Blocked(BlockedEntry { hits: (entry.hits + 1) as u64, last_seen_ns: now }),
            Step::Finish(XdpAction::Drop),
        ),
        Reply::Blocked(None) => (Update::Nothing, Step::Lookup(Table::Counts, source)),
        Reply::Count(Some(count)) => (
            Update::Count((count + 1) as u64),
            Step::Lookup(Table::Allowed, source),
        ),
        Reply::Count(None) => (
            Update::NewCount(1, FLAG_NO_EXIST),
            Step::Lookup(Table::Allowed, source),
        ),
        Reply::Allowed(Some(peer)) => (
            Update::Allowed(peer.after_packet(now)),
            Step::Finish(action_of(peer.admits(now))),
        ),
        Reply::Allowed(None) => (Update::Nothing, Step::Lookup(Table::Unknown, source)),
        Reply::Unknown(Some(bucket)) => (
            Update::Unknown(bucket.consumed(MAX_TOKENS, REFILL_PER_SEC, now)),
            Step::Finish(action_of(bucket.grants(MAX_TOKENS, REFILL_PER_SEC, now))),
        ),
        Reply::Unknown(None) => (
            Update::NewUnknown(fresh_bucket(now), FLAG_ANY),
            Step::Finish(XdpAction::Pass),
        ),
    }
}

/// Turns a decision to let a packet through into its verdict.
pub fn verdict(allowed: bool) -> (action: XdpAction)
    ensures
        action == action_of(allowed),
{
    if !allowed {
        return XdpAction::Drop;
    }
    XdpAction::Pass
}

/// Answers a lookup made for `source`; `now` is the time of the packet.
///
/// A blocked source is counted and dropped, and nothing else is looked at. Any other packet
/// is counted, then metered: by reputation where the source is an allowed peer, by a plain
/// bucket where it is not. The first packet of an unknown source opens a bucket and passes
/// without paying for it.
pub fn answer(source: Source, reply: Reply, now: u64) -> (outcome: (Update, Step))
    requires
        reply.can_count(),
    ensures
        outcome == answered(source, reply, now),
{
    match reply {
        Reply::Blocked(Some(entry)) => {
            let mut entry = entry;
            entry.hit(now);
            (Update::Blocked(entry), Step::Finish(verdict(false)))
        },
        Reply::Blocked(None) => (Update::Nothing, Step::Lookup(Table::Counts, source)),
        Reply::Count(Some(count)) => {
            (Update::Count(count + 1), Step::Lookup(Table::Allowed, source))
        },
        Reply::Count(None) => {
            (Update::NewCount(1, FLAG_NO_EXIST), Step::Lookup(Table::Allowed, source))
        },
        Reply::Allowed(Some(peer)) => {
            let mut peer = peer;
            let allowed = peer.meter(now);
            (Update::Allowed(peer), Step::Finish(verdict(allowed)))
        },
        Reply::Allowed(None) => (Update::Nothing, Step::Lookup(Table::Unknown, source)),
        Reply::Unknown(Some(bucket)) => {
            let mut bucket = bucket;
            let allowed = bucket.try_consume(MAX_TOKENS, REFILL_PER_SEC, now);
            (Update::Unknown(bucket), Step::Finish(verdict(allowed)))
        },
        Reply::Unknown(None) => {
            let fresh = TokenBucket::new(now, true);
            (Update::NewUnknown(fresh, FLAG_ANY), Step::Finish(verdict(true)))
        },
    }
}

/// Starts on an IPv4 frame with the blocklist; refused when its header is cut short.
pub fn handle_ipv4(frame: &[u8]) -> (step: Result<Step, ()>)
    ensures
        step == (if frame@.len() >= ETH_HDR_LEN + IPV4_HDR_LEN {
            Ok::<Step, ()>(Step::Lookup(Table::Blocked, ipv4_source_of(frame@)))
        } else {
            Err(())
        }),
{
    let source = ipv4_source(frame)?;
    Ok(Step::Lookup(Table::Blocked, source))
}

/// Starts on an IPv6 frame with the blocklist; refused when its header is cut short.
pub fn handle_ipv6(frame: &[u8]) -> (step: Result<Step, ()>)
    ensures
        step is Ok <==> frame@.len() >= ETH_HDR_LEN + IPV6_HDR_LEN,
        step matches Ok(next) ==> (next matches Step::Lookup(Table::Blocked, source)
            && is_ipv6_source(frame@, source)),
{
    let source = ipv6_source(frame)?;
    Ok(Step::Lookup(Table::Blocked, source))
}

/// Whether `step` is where a frame with a complete Ethernet header starts.
pub open spec fn starts_with(frame: Seq<u8>, step: Step) -> bool {
    match protocol_of(frame) {
        Protocol::Ipv4 => step == Step::Lookup(Table::Blocked, ipv4_source_of(frame)),
        Protocol::Ipv6 => step matches Step::Lookup(Table::Blocked, source) && is_ipv6_source(
            frame,
            source,
        ),
        Protocol::Other => step == Step::Finish(XdpAction::Pass),
    }
}

/// Whether the frame holds every header that it claims to have.
pub open spec fn has_headers(frame: Seq<u8>) -> bool {
    frame.len() >= ETH_HDR_LEN && match protocol_of(frame) {
        Protocol::Ipv4 => frame.len() >= ETH_HDR_LEN + IPV4_HDR_LEN,
        Protocol::Ipv6 => frame.len() >= ETH_HDR_LEN + IPV6_HDR_LEN,
        Protocol::Other => true,
    }
}

/// Starts on a frame: IPv4 and IPv6 go to the blocklist of their family, anything else
/// passes. Refused when a header is cut short.
pub fn try_bpfimp(frame: &[u8]) -> (step: Result<Step, ()>)
    ensures
        step is Ok <==> has_headers(frame@),
        step matches Ok(next) ==> starts_with(frame@, next),
{
    match frame_protocol(frame)? {
        Protocol::Ipv4 => handle_ipv4(frame),
        Protocol::Ipv6 => handle_ipv6(frame),
        Protocol::Other => Ok(Step::Finish(XdpAction::Pass)),
    }
}

/// Starts on a frame as it came from the wire; one whose headers are cut short is aborted.
pub fn bpfimp(frame: &[u8]) -> (step: Step)
    ensures
        if has_headers(frame@) {
            starts_with(frame@, step)
        } else {
            step == Step::Finish(XdpAction::Aborted)
        },
{
    match try_bpfimp(frame) {
        Ok(step) => step,
        Err(_) => Step::Finish(XdpAction::Aborted),
    }
}

/// Every IPv4 frame with both headers, of whatever length, starts at the blocklist with the
/// source it names; one that is cut short is refused.
pub proof fn law_ipv4_frames_start_at_the_blocklist(frame: Seq<u8>, step: Step)
    requires
        frame.len() >= 14,
        frame[12] == 0x08,
        frame[13] == 0x00,
    ensures
        has_headers(frame) <==> frame.len() >= 34,
        frame.len() >= 34 && starts_with(frame, step) ==> (step matches Step::Lookup(
            Table::Blocked,
            Source::V4(bits),
        ) && bits / 0x100_0000 == frame[26] && bits / 0x1_0000 % 0x100 == frame[27] && bits
            / 0x100 % 0x100 == frame[28] && bits % 0x100 == frame[29]),
{
    law_tag_alone_tells_the_protocol(frame);
    if frame.len() >= 34 {
        law_ipv4_source_is_where_it_stands(frame);
    }
}

/// Every IPv6 frame with both headers, of whatever length, starts at the blocklist with the
/// source it names; one that is cut short is refused.
pub proof fn law_ipv6_frames_start_at_the_blocklist(frame: Seq<u8>, step: Step)
    requires
        frame.len() >= 14,
        frame[12] == 0x86,
        frame[13] == 0xdd,
    ensures
        has_headers(frame) <==> frame.len() >= 54,
        frame.len() >= 54 && starts_with(frame, step) ==> (step matches Step::Lookup(
            Table::Blocked,
            Source::V6(octets),
        ) && forall|i: int| 0 <= i < 16 ==> #[trigger] octets@[i] == frame[22 + i]),
{
    law_tag_alone_tells_the_protocol(frame);
}

/// A frame of any other tag passes at once, and one without a whole Ethernet header is refused.
pub proof fn law_other_frames_pass(frame: Seq<u8>, step: Step)
    ensures
        frame.len() < 14 ==> !has_headers(frame),
        frame.len() >= 14 && !(frame[12] == 0x08 && frame[13] == 0x00) && !(frame[12] == 0x86
            && frame[13] == 0xdd) ==> has_headers(frame) && (starts_with(frame, step) ==> step
            == Step::Finish(XdpAction::Pass)),
{
    if frame.len() >= 14 {
        law_tag_alone_tells_the_protocol(frame);
    }
}

/// An entry can count a packet exactly when its counter is below the largest number.
pub proof fn law_only_full_counters_are_refused(reply: Reply)
    ensures
        !reply.can_count() <==> (reply matches Reply::Blocked(Some(entry)) && entry.hits
            == u64::MAX) || (reply matches Reply::Count(Some(count)) && count == u64::MAX),
{
}

/// What the blocklist says: a source on it has one more hit, dated now, and is dropped; any
/// other leaves no trace there and goes on to be counted.
pub proof fn law_blocklist_is_decisive(source: Source, found: Option<BlockedEntry>, now: u64)
    ensures
        ({
            let (update, next) = answered(source, Reply::Blocked(found), now);
            match found {
                Some(entry) => next == Step::Finish(XdpAction::Drop) && (entry.hits < u64::MAX
                    ==> (update matches Update::Blocked(hit) && hit.hits == entry.hits + 1
                    && hit.last_seen_ns == now)),
                None => update == Update::Nothing && next == Step::Lookup(Table::Counts, source),
            }
        }),
{
}

/// Every packet that gets there is counted once, the first as one, and goes on to the
/// allowlist whatever the count.
pub proof fn law_counter_counts_one(source: Source, found: Option<u64>, now: u64)
    ensures
        ({
            let (update, next) = answered(source, Reply::Count(found), now);
            &&& next == Step::Lookup(Table::Allowed, source)
            &&& match found {
                Some(count) => count < u64::MAX ==> (update matches Update::Count(more) && more
                    == count + 1),
                None => update == Update::NewCount(1, 1),
            }
        }),
{
}

/// An allowed peer is left as its reputation says and passes exactly when that admits it; any
/// other source goes on to the unknown ones.
pub proof fn law_reputation_decides_for_peers(
    source: Source,
    found: Option<Reputation>,
    now: u64,
)
    ensures
        ({
            let (update, next) = answered(source, Reply::Allowed(found), now);
            match found {
                Some(peer) => update == Update::Allowed(peer.after_packet(now)) && (next
                    == Step::Finish(XdpAction::Pass) <==> peer.admits(now)) && (next
                    == Step::Finish(XdpAction::Drop) <==> !peer.admits(now)),
                None => update == Update::Nothing && next == Step::Lookup(Table::Unknown, source),
            }
        }),
{
}

/// An unknown source seen before that comes `seconds` whole seconds after its last refill
/// passes exactly when its balance, refilled for them up to the cap, is not zero, and pays one
/// token. One never seen passes and gets the smaller starting balance, dated now.
pub proof fn law_bucket_decides_for_unknown_sources(
    source: Source,
    found: Option<TokenBucket>,
    now: u64,
    seconds: nat,
)
    requires
        found matches Some(bucket) ==> bucket.last_refill_ns + seconds * 1_000_000_000 <= now
            && now < bucket.last_refill_ns + seconds * 1_000_000_000 + 1_000_000_000,
    ensures
        ({
            let (update, next) = answered(source, Reply::Unknown(found), now);
            match found {
                Some(bucket) => {
                    let balance: int = if seconds == 0 {
                        bucket.tokens as int
                    } else if bucket.tokens + seconds * REFILL_PER_SEC <= MAX_TOKENS {
                        bucket.tokens + seconds * REFILL_PER_SEC
                    } else {
                        MAX_TOKENS as int
                    };
                    &&& next == Step::Finish(XdpAction::Pass) <==> balance > 0
                    &&& next == Step::Finish(XdpAction::Drop) <==> balance == 0
                    &&& update matches Update::Unknown(after) && after.last_refill_ns
                        == bucket.last_refill_ns + seconds * 1_000_000_000 && (balance > 0
                        ==> after.tokens + 1 == balance) && (balance == 0 ==> after.tokens == 0)
                },
                None => next == Step::Finish(XdpAction::Pass) && (update matches Update::NewUnknown(
                    bucket,
                    flags,
                ) && bucket.tokens == NEW_MAX_TOKENS && bucket.last_refill_ns == now && flags
                    == 0),
            }
        }),
{
    if let Some(bucket) = found {
        law_refill_is_exact(bucket, MAX_TOKENS, REFILL_PER_SEC, now, seconds);
    }
}

/// The same for a source seen before when the clock went backwards: nothing is credited.
pub proof fn law_bucket_decides_with_backward_clock(
    source: Source,
    bucket: TokenBucket,
    now: u64,
)
    requires
        now < bucket.last_refill_ns,
    ensures
        ({
            let (update, next) = answered(source, Reply::Unknown(Some(bucket)), now);
            &&& next == Step::Finish(XdpAction::Pass) <==> bucket.tokens > 0
            &&& next == Step::Finish(XdpAction::Drop) <==> bucket.tokens == 0
            &&& update matches Update::Unknown(after) && after.last_refill_ns
                == bucket.last_refill_ns && (bucket.tokens > 0 ==> after.tokens + 1
                == bucket.tokens) && (bucket.tokens == 0 ==> after.tokens == 0)
        }),
{
}

} // verus!
