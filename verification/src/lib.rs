//! Per-source packet rate limiting: token buckets, reputations, the decision taken on
//! every packet, and the control plane that feeds the tables the decision reads.

pub mod addr;
pub mod bucket;
pub mod config;
pub mod control;
pub mod filter;
pub mod inspect;
pub mod keys;
pub mod loaded;
pub mod packet;
pub mod policy;
pub mod report;
pub mod reputation;
pub mod tables;
pub mod text;
pub mod watch;

pub use crate::bucket::TokenBucket;
pub use crate::policy::{
    MAX_SCORE, MAX_TOKENS, MIN_SCORE_TO_PASS, NEW_MAX_TOKENS, NS_PER_SEC, PENALTY, REFILL_PER_SEC,
};
pub use crate::reputation::{BlockedEntry, Reputation};
