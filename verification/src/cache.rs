//! Response caching.
pub mod response;
