//! Diagnostics of an index of cached blocks: how long blocks live, how old the
//! resident ones are, how much distinct content is asked for, and how much of
//! the index is copies.

pub mod age_key;
pub mod age_laws;
pub mod age_model;
pub mod age_stats;
pub mod age_tracking;
pub mod clock;
mod concurrent_maps;
pub mod demand_tracking;
pub mod event_laws;
mod listing;
pub mod metrics;
pub mod redundancy;
pub mod worker_counts;
