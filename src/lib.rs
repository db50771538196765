//! Core of an ingest relay: quotas and their enforcement against a shared counter store,
//! cached rate limits, per-project state caching, and publication of envelope items.
use vstd::prelude::*;

pub mod text;
pub mod quota;
pub mod rate_limit;
pub mod counter_store;
pub mod limiter;
pub mod project_state;
pub mod envelope;
pub mod project;
pub mod store;
pub mod normalize;
