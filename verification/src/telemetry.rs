//! Metrics bookkeeping, request logging and token estimates.
pub mod metrics;
pub mod prometheus;
pub mod request_log;
pub mod stored;
pub mod token_estimator;
