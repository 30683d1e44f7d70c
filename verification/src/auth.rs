//! API key authentication and route access.
pub mod access;
pub mod keys;
