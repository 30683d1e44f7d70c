//! Verified core of the RustyGate inference gateway: request models, routing,
//! resilience, admission control and telemetry bookkeeping.
pub mod auth;
pub mod cache;
pub mod clock;
pub mod config;
pub mod error;
pub mod hashing;
pub mod models;
pub mod providers;
pub mod routes;
pub mod routing;
pub mod strmap;
pub mod telemetry;
pub mod text;
