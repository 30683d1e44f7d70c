//! Exact-match response caching: which requests are cacheable, their keys, and
//! what the chat route does with the cache.
use vstd::prelude::*;

use crate::hashing::{sha256_digest, sha256_hex};
use crate::models::chat::ChatCompletionRequest;
use crate::text::{hex_lower, is_lower_hex};

verus! {

/// Key of a cached response: the hex SHA-256 of the request's canonical encoding.
#[derive(Debug, Clone)]
pub struct CacheKey(String);

impl View for CacheKey {
    type V = Seq<char>;

    closed spec fn view(&self) -> Seq<char> {
        self.0@
    }
}

impl CacheKey {
    /// The key text.
    pub fn as_str(&self) -> (s: &str)
        ensures
            s@ == self@,
    {
        self.0.as_str()
    }
}

/// The temperature, given as the bit pattern of an `f32`, is greater than zero:
/// a positive finite value or positive infinity (NaN and negatives are not).
pub open spec fn temperature_positive(bits: Option<u32>) -> bool {
    bits matches Some(b) && 1 <= b <= 0x7f80_0000
}

/// Whether the request's temperature is greater than zero.
pub fn temperature_is_positive(bits: Option<u32>) -> (b: bool)
    ensures
        b == temperature_positive(bits),
{
    match bits {
        Some(b) => 1 <= b && b <= 0x7f80_0000,
        None => false,
    }
}

/// A request is cacheable when it is not streamed and its temperature is not positive.
pub open spec fn cacheable(request: ChatCompletionRequest) -> bool {
    request.stream != Some(true) && !temperature_positive(request.temperature_bits)
}

/// Whether the request's response may be cached.
pub fn is_cacheable(request: &ChatCompletionRequest) -> (b: bool)
    ensures
        b == cacheable(*request),
{
    !request.stream_enabled() && !temperature_is_positive(request.temperature_bits)
}

/// The cache key of a request, given the canonical JSON encoding of its cached
/// fields (absent when encoding failed): none for an uncacheable request.
pub fn cache_key_from_canonical(request: &ChatCompletionRequest, canonical_json: Option<&[u8]>) -> (k: Option<CacheKey>)
    ensures
        match canonical_json {
            Some(b) if cacheable(*request) => k matches Some(key) && key@ == hex_lower(sha256_digest(b@))
                && key@.len() == 64 && forall|i: int| 0 <= i < key@.len() ==> is_lower_hex(#[trigger] key@[i]),
            _ => k is None,
        },
{
    if !is_cacheable(request) {
        return None;
    }
    match canonical_json {
        Some(b) => Some(CacheKey(sha256_hex(b))),
        None => None,
    }
}

/// Unix time at which an entry stored at `now_unix` for `ttl_seconds` expires (saturating).
pub fn cache_expiry(now_unix: u64, ttl_seconds: u64) -> (t: u64)
    ensures
        t == if now_unix + ttl_seconds > u64::MAX { u64::MAX as int } else { now_unix + ttl_seconds },
{
    if now_unix > u64::MAX - ttl_seconds {
        u64::MAX
    } else {
        now_unix + ttl_seconds
    }
}

/// What the chat route does with the response cache before routing.
#[derive(Debug, Clone, Copy)]
pub enum CachePlan {
    /// No cache is configured.
    NoCache,
    /// The cache is bypassed; the outcome label is recorded.
    Skip(&'static str),
    /// The cache is consulted under the request's key.
    Lookup,
}

/// The cache step of the chat route: keys without caching skip it, a cacheable
/// request is looked up, and an uncacheable one is skipped with the reason.
pub fn cache_plan(cache_configured: bool, key_cache_enabled: bool, has_cache_key: bool, temperature_bits: Option<u32>) -> (p: CachePlan)
    ensures
        !cache_configured ==> p is NoCache,
        cache_configured && !key_cache_enabled ==> (p matches CachePlan::Skip(l) && l@ == "skip_disabled"@),
        cache_configured && key_cache_enabled && has_cache_key ==> p is Lookup,
        cache_configured && key_cache_enabled && !has_cache_key ==> (p matches CachePlan::Skip(l) && l@ == if temperature_positive(
            temperature_bits,
        ) {
            "skip_temperature"@
        } else {
            "skip_tools"@
        }),
{
    if !cache_configured {
        CachePlan::NoCache
    } else if !key_cache_enabled {
        CachePlan::Skip("skip_disabled")
    } else if has_cache_key {
        CachePlan::Lookup
    } else if temperature_is_positive(temperature_bits) {
        CachePlan::Skip("skip_temperature")
    } else {
        CachePlan::Skip("skip_tools")
    }
}

} // verus!
