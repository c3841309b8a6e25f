//! Per-key admission control for expensive, rate-limited operations.
//!
//! Every key owns one concurrency limiter, kept in a sharded registry. A
//! caller asks for a permit on a key, is told to wait where every slot is
//! taken, does its guarded work, and hands the permit back together with
//! its verdict on the work. A reclamation worker walks the shards in turn
//! and drops the limiters that nobody holds a permit of or waits for, so
//! that the registry stays small while keys come and go.

pub mod caches;
pub mod client;
pub mod clock;
pub mod error;
pub mod laws;
pub mod limiter;
pub mod locks;
pub mod metrics;
pub mod registry;
pub mod shards;
