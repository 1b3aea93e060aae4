//! A multi-tenant weighted virtual-time priority scheduler.
//!
//! Named resource groups share a pool of workers; each group carries a quota
//! and a coarse priority tier. The scheduler assigns every task admission a
//! single comparable `u64` key so that, over time, each group receives
//! throughput proportional to its quota, while higher tiers always dominate.
//! A manager holds the catalog of group configurations and fans every change
//! out to the controllers derived from it; each controller tracks per-group
//! virtual time, rebalances it periodically, and keeps it clear of the bits
//! used by the tier encoding.

pub mod names;
pub mod priority;
pub mod tracker;
pub mod controller;
pub mod manager;
pub mod laws;
pub mod kv;
pub mod ttl;
pub mod idx_allocator;
