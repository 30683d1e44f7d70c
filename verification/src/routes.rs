//! Decisions of the HTTP routes.
pub mod health;
pub mod shared;
pub mod stream;
