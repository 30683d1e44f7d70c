//! Error mapping for OpenAI-compatible upstreams.
use vstd::prelude::*;

use crate::providers::anthropic::spec_status_error;
use crate::providers::provider::ProviderError;
use crate::text::chars_of;

verus! {

/// Maps an unsuccessful upstream HTTP status to a provider error, as for every
/// upstream kind.
pub fn map_http_status(status: u16) -> (e: ProviderError)
    ensures
        e == spec_status_error(status),
{
    crate::providers::anthropic::map_http_status(status)
}

/// A transport failure: a timeout, or the upstream being unreachable.
pub fn map_transport_error(is_timeout: bool) -> (e: ProviderError)
    ensures
        e == if is_timeout { ProviderError::Timeout } else { ProviderError::ProviderUnavailable },
{
    if is_timeout {
        ProviderError::Timeout
    } else {
        ProviderError::ProviderUnavailable
    }
}

/// Most characters of completion text one OpenAI-compatible stream may carry.
pub const MAX_STREAM_OUTPUT_CHARS: usize = 262_144;

/// The characters of completion text after `content` is added to `collected`
/// of them, or `None` when that would pass `MAX_STREAM_OUTPUT_CHARS` (the
/// stream is then a bad response).
pub fn add_stream_output(collected: usize, content: &str) -> (r: Option<usize>)
    ensures
        match r {
            Some(n) => n == collected + content@.len() && n <= MAX_STREAM_OUTPUT_CHARS,
            None => collected + content@.len() > MAX_STREAM_OUTPUT_CHARS,
        },
{
    let added = chars_of(content).len();
    if collected > MAX_STREAM_OUTPUT_CHARS || added > MAX_STREAM_OUTPUT_CHARS - collected {
        None
    } else {
        Some(collected + added)
    }
}

} // verus!
