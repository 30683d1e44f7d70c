//! API request and response models.
pub mod chat;
pub mod model;
pub mod responses;
