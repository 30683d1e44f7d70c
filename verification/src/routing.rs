//! Provider selection, fallback, admission control and resilience.
pub mod admission;
pub mod fallback;
pub mod health;
pub mod model_pools;
pub mod prefix_affinity;
pub mod prefix_fingerprint;
pub mod ranking;
pub mod resilience;
pub mod runtime_signals;
pub mod strategy;
