//! Upstream provider models and translation.
pub mod anthropic;
pub mod anthropic_tool_translation;
pub mod openai_compatible;
pub mod mock;
pub mod provider;
pub mod sse;
