//! Gateway configuration, its defaults and its validation.
use vstd::prelude::*;

use crate::strmap::StrMap;

pub mod validation;

verus! {

/// How providers are ordered for a request.
#[derive(Debug, Clone, Copy, PartialEq, Eq, Structural)]
pub enum RoutingPolicy {
    Priority,
    Cost,
    Latency,
    PrefixAffinity,
}

impl RoutingPolicy {
    /// Stable lowercase name of the policy.
    pub fn as_str(self) -> (s: &'static str)
        ensures
            s@ == routing_policy_name(self),
    {
        match self {
            RoutingPolicy::Priority => "priority",
            RoutingPolicy::Cost => "cost",
            RoutingPolicy::Latency => "latency",
            RoutingPolicy::PrefixAffinity => "prefix_affinity",
        }
    }
}

pub open spec fn routing_policy_name(p: RoutingPolicy) -> Seq<char> {
    match p {
        RoutingPolicy::Priority => "priority"@,
        RoutingPolicy::Cost => "cost"@,
        RoutingPolicy::Latency => "latency"@,
        RoutingPolicy::PrefixAffinity => "prefix_affinity"@,
    }
}

impl Default for RoutingPolicy {
    fn default() -> (p: Self)
        ensures
            p == RoutingPolicy::Priority,
    {
        RoutingPolicy::Priority
    }
}

/// Where cached responses live.
#[derive(Debug, Clone, Copy, PartialEq, Eq, Structural)]
pub enum CacheBackendConfig {
    Memory,
    Sqlite,
}

impl Default for CacheBackendConfig {
    fn default() -> (b: Self)
        ensures
            b == CacheBackendConfig::Memory,
    {
        CacheBackendConfig::Memory
    }
}

/// Where rate-limit state lives.
#[derive(Debug, Clone, Copy, PartialEq, Eq, Structural)]
pub enum RateLimitBackendConfig {
    Local,
    Redis,
}

impl Default for RateLimitBackendConfig {
    fn default() -> (b: Self)
        ensures
            b == RateLimitBackendConfig::Local,
    {
        RateLimitBackendConfig::Local
    }
}

/// The kind of upstream a provider entry talks to.
#[derive(Debug, Clone, Copy, PartialEq, Eq, Structural)]
pub enum ProviderKind {
    Mock,
    OpenaiCompatible,
    Anthropic,
}

/// Gateway-wide retry backoff.
#[derive(Debug, Clone, Copy, PartialEq, Eq, Structural)]
pub struct GatewayRetryConfig {
    pub initial_backoff_ms: u64,
    pub max_backoff_ms: u64,
    pub jitter_ms: u64,
}

impl Default for GatewayRetryConfig {
    fn default() -> (c: Self)
        ensures
            c.initial_backoff_ms == 100,
            c.max_backoff_ms == 2_000,
            c.jitter_ms == 50,
    {
        GatewayRetryConfig {
            initial_backoff_ms: default_retry_initial_backoff_ms(),
            max_backoff_ms: default_retry_max_backoff_ms(),
            jitter_ms: default_retry_jitter_ms(),
        }
    }
}

/// Gateway-wide circuit breaker settings.
#[derive(Debug, Clone, Copy, PartialEq, Eq, Structural)]
pub struct GatewayCircuitBreakerConfig {
    pub failure_threshold: u32,
    pub open_duration_ms: u64,
    pub half_open_max_probes: u32,
}

impl Default for GatewayCircuitBreakerConfig {
    fn default() -> (c: Self)
        ensures
            c.failure_threshold == 3,
            c.open_duration_ms == 5_000,
            c.half_open_max_probes == 1,
    {
        GatewayCircuitBreakerConfig {
            failure_threshold: default_breaker_failure_threshold(),
            open_duration_ms: default_breaker_open_duration_ms(),
            half_open_max_probes: default_breaker_half_open_max_probes(),
        }
    }
}

/// Token-bucket rate limits.
#[derive(Debug, Clone)]
pub struct RateLimitConfig {
    pub backend: RateLimitBackendConfig,
    pub global_requests_per_minute: u32,
    pub global_burst_size: u32,
    pub per_key_requests_per_minute: u32,
    pub per_key_burst_size: u32,
    pub max_tracked_keys: usize,
    pub redis_url_env: Option<String>,
    pub redis_fallback_to_local: bool,
}

impl Default for RateLimitConfig {
    fn default() -> (c: Self)
        ensures
            c.backend == RateLimitBackendConfig::Local,
            c.global_requests_per_minute == 120,
            c.global_burst_size == 30,
            c.per_key_requests_per_minute == 60,
            c.per_key_burst_size == 20,
            c.max_tracked_keys == 10_000,
            c.redis_url_env is None,
            c.redis_fallback_to_local == true,
    {
        RateLimitConfig {
            backend: RateLimitBackendConfig::Local,
            global_requests_per_minute: default_global_requests_per_minute(),
            global_burst_size: default_global_burst_size(),
            per_key_requests_per_minute: default_per_key_requests_per_minute(),
            per_key_burst_size: default_per_key_burst_size(),
            max_tracked_keys: default_max_tracked_keys(),
            redis_url_env: None,
            redis_fallback_to_local: default_redis_fallback_to_local(),
        }
    }
}

/// Request size limits.
#[derive(Debug, Clone, Copy, PartialEq, Eq, Structural)]
pub struct RequestLimitsConfig {
    pub max_chat_body_bytes: usize,
    pub max_messages_per_request: usize,
    pub max_message_content_chars: usize,
}

impl Default for RequestLimitsConfig {
    fn default() -> (c: Self)
        ensures
            c.max_chat_body_bytes == 65_536,
            c.max_messages_per_request == 64,
            c.max_message_content_chars == 8_000,
    {
        RequestLimitsConfig {
            max_chat_body_bytes: default_max_chat_body_bytes(),
            max_messages_per_request: default_max_messages_per_request(),
            max_message_content_chars: default_max_message_content_chars(),
        }
    }
}

/// SQLite persistence.
#[derive(Debug, Clone)]
pub struct StorageConfig {
    pub enabled: bool,
    pub database_url: String,
    pub retention_days: u64,
}

impl Default for StorageConfig {
    fn default() -> (c: Self)
        ensures
            !c.enabled,
            c.database_url@ == "sqlite://rustygate.db"@,
            c.retention_days == 30,
    {
        StorageConfig { enabled: false, database_url: default_database_url(), retention_days: default_retention_days() }
    }
}

/// Admission-control limits.
#[derive(Debug, Clone, Copy, PartialEq, Eq, Structural)]
pub struct AdmissionConfig {
    pub max_global_in_flight: Option<u64>,
    pub max_estimated_prompt_tokens: Option<u32>,
    pub max_estimated_total_tokens: Option<u32>,
    pub retry_after_seconds: u64,
}

impl Default for AdmissionConfig {
    fn default() -> (c: Self)
        ensures
            c.max_global_in_flight is None,
            c.max_estimated_prompt_tokens is None,
            c.max_estimated_total_tokens is None,
            c.retry_after_seconds == 1,
    {
        AdmissionConfig {
            max_global_in_flight: None,
            max_estimated_prompt_tokens: None,
            max_estimated_total_tokens: None,
            retry_after_seconds: 1,
        }
    }
}

/// Prefix-affinity routing settings.
#[derive(Debug, Clone, Copy, PartialEq, Eq, Structural)]
pub struct PrefixAffinityConfig {
    pub ttl_seconds: u64,
    pub max_entries: usize,
    pub load_imbalance_threshold: u64,
    pub fallback_policy: RoutingPolicy,
}

impl Default for PrefixAffinityConfig {
    fn default() -> (c: Self)
        ensures
            c.ttl_seconds == 300,
            c.max_entries == 10_000,
            c.load_imbalance_threshold == 2,
            c.fallback_policy == RoutingPolicy::Latency,
    {
        PrefixAffinityConfig {
            ttl_seconds: 300,
            max_entries: 10_000,
            load_imbalance_threshold: 2,
            fallback_policy: RoutingPolicy::Latency,
        }
    }
}

/// Which optional route groups are served.
#[derive(Debug, Clone, Copy, PartialEq, Eq, Structural)]
pub struct RouteExposureConfig {
    pub placeholder_compat_routes: bool,
}

impl Default for RouteExposureConfig {
    fn default() -> (c: Self)
        ensures
            c.placeholder_compat_routes,
    {
        RouteExposureConfig { placeholder_compat_routes: true }
    }
}

/// A public model name served by a pool of providers.
#[derive(Debug, Clone)]
pub struct ModelPoolConfig {
    pub name: String,
    pub aliases: Vec<String>,
    pub members: Vec<String>,
    pub routing_policy: Option<RoutingPolicy>,
    pub max_in_flight: Option<u64>,
}

/// One upstream provider. Its prices and simulated failure rate are
/// floating-point settings that the library does not hold.
#[derive(Debug, Clone)]
pub struct ProviderConfig {
    pub name: String,
    pub kind: ProviderKind,
    pub model: String,
    pub priority: u32,
    pub base_latency_ms: u64,
    pub base_url: Option<String>,
    pub api_key_env: Option<String>,
    pub timeout_ms: Option<u64>,
    pub max_retries: Option<u32>,
    pub retry_initial_backoff_ms: Option<u64>,
    pub retry_max_backoff_ms: Option<u64>,
    pub retry_jitter_ms: Option<u64>,
    pub circuit_breaker_failure_threshold: Option<u32>,
    pub circuit_breaker_open_duration_ms: Option<u64>,
    pub circuit_breaker_half_open_max_probes: Option<u32>,
    pub max_in_flight: Option<u64>,
}

/// Gateway behaviour: timeouts, routing, retries, breakers, limits and keys.
pub struct GatewayConfig {
    pub default_timeout_ms: u64,
    pub stream_idle_timeout_ms: u64,
    pub max_retries: u32,
    pub health_check_interval_ms: u64,
    pub routing_policy: RoutingPolicy,
    pub prefix_affinity: PrefixAffinityConfig,
    pub route_exposure: RouteExposureConfig,
    pub model_aliases: StrMap<String>,
    pub retry: GatewayRetryConfig,
    pub circuit_breaker: GatewayCircuitBreakerConfig,
    pub enable_request_logging: bool,
    pub log_prompt_content: bool,
    pub api_key_env: String,
    pub rate_limit: RateLimitConfig,
    pub request_limits: RequestLimitsConfig,
    pub admission: AdmissionConfig,
}

pub fn default_database_url() -> (s: String)
    ensures
        s@ == "sqlite://rustygate.db"@,
{
    "sqlite://rustygate.db".to_string()
}

pub fn default_retention_days() -> (v: u64)
    ensures
        v == 30,
{
    30
}

pub fn default_shutdown_grace_period_ms() -> (v: u64)
    ensures
        v == 10_000,
{
    10_000
}

pub fn default_service_name() -> (s: String)
    ensures
        s@ == "rustygate"@,
{
    "rustygate".to_string()
}

pub fn default_cache_default_ttl_seconds() -> (v: u64)
    ensures
        v == 600,
{
    600
}

pub fn default_cache_max_entries() -> (v: usize)
    ensures
        v == 10_000,
{
    10_000
}

pub fn default_semantic_index_capacity() -> (v: usize)
    ensures
        v == 10_000,
{
    10_000
}

pub fn default_retry_initial_backoff_ms() -> (v: u64)
    ensures
        v == 100,
{
    100
}

pub fn default_health_check_interval_ms() -> (v: u64)
    ensures
        v == 30_000,
{
    30_000
}

pub fn default_retry_max_backoff_ms() -> (v: u64)
    ensures
        v == 2_000,
{
    2_000
}

pub fn default_retry_jitter_ms() -> (v: u64)
    ensures
        v == 50,
{
    50
}

pub fn default_breaker_failure_threshold() -> (v: u32)
    ensures
        v == 3,
{
    3
}

pub fn default_breaker_open_duration_ms() -> (v: u64)
    ensures
        v == 5_000,
{
    5_000
}

pub fn default_breaker_half_open_max_probes() -> (v: u32)
    ensures
        v == 1,
{
    1
}

pub fn default_global_requests_per_minute() -> (v: u32)
    ensures
        v == 120,
{
    120
}

pub fn default_global_burst_size() -> (v: u32)
    ensures
        v == 30,
{
    30
}

pub fn default_per_key_requests_per_minute() -> (v: u32)
    ensures
        v == 60,
{
    60
}

pub fn default_per_key_burst_size() -> (v: u32)
    ensures
        v == 20,
{
    20
}

pub fn default_max_tracked_keys() -> (v: usize)
    ensures
        v == 10_000,
{
    10_000
}

pub fn default_redis_fallback_to_local() -> (v: bool)
    ensures
        v,
{
    true
}

pub fn default_max_chat_body_bytes() -> (v: usize)
    ensures
        v == 65_536,
{
    65_536
}

pub fn default_max_messages_per_request() -> (v: usize)
    ensures
        v == 64,
{
    64
}

pub fn default_max_message_content_chars() -> (v: usize)
    ensures
        v == 8_000,
{
    8_000
}

} // verus!
