//! What stands between an agent and the providers of its models.

pub mod cache_tracker;
pub mod rate_limiter;
pub mod traits;
