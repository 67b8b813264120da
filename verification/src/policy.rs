//! The rate-limit constants. They apply to IPv4 and IPv6 alike.

use vstd::prelude::*;

verus! {

/// Bucket cap while a packet is metered.
pub const MAX_TOKENS: u32 = 200;

/// Cap on the reputation score.
pub const MAX_SCORE: u32 = 100;

/// Starting balance of a source that was never seen before.
pub const NEW_MAX_TOKENS: u32 = 100;

/// Score floor below which an allowed peer is dropped.
pub const MIN_SCORE_TO_PASS: u32 = 20;

/// Tokens replenished per second.
pub const REFILL_PER_SEC: u32 = 10;

/// Score subtracted on a denied packet.
pub const PENALTY: u32 = 10;

/// Nanoseconds in a second.
pub const NS_PER_SEC: u64 = 1_000_000_000;

} // verus!
