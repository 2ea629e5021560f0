//! Privacy-preserving visit analytics: per-path request and unique-visitor
//! counters kept over an append-only event log, with time-bucketed graphs
//! rebuilt from the log on read.

pub mod method;
pub mod log;
pub mod identity;
pub mod store;
pub mod graph;
pub mod listing;
