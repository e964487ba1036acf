//! Concurrent ranged downloads: planning byte ranges, resuming from a saved
//! record, throttling throughput, tracking retries and reporting progress.

pub mod fetch;
pub mod limiter;
pub mod plan;
pub mod registry;
pub mod state;
