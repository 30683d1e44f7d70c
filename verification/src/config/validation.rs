//! Configuration checks. Each check appends its messages, in a fixed order, to
//! a list of errors; an empty list means the configuration is valid.
use vstd::prelude::*;

use crate::config::{GatewayConfig, ProviderConfig, ProviderKind, RateLimitBackendConfig, StorageConfig};
use crate::text::{concat_str, is_blank, str_eq_chars, str_is_blank};

verus! {

/// The texts of a list of messages.
pub open spec fn views(v: Seq<String>) -> Seq<Seq<char>> {
    v.map_values(|s: String| s@)
}

/// `list` with `msg` appended when `cond` holds.
pub open spec fn push_if(list: Seq<Seq<char>>, cond: bool, msg: Seq<char>) -> Seq<Seq<char>> {
    if cond {
        list.push(msg)
    } else {
        list
    }
}

fn push_when(errors: &mut Vec<String>, cond: bool, message: &str)
    ensures
        views(final(errors)@) == push_if(views(old(errors)@), cond, message@),
{
    if cond {
        errors.push(message.to_string());
        proof {
            assert(views(errors@) =~= views(old(errors)@).push(message@));
        }
    }
}

fn push_owned_when(errors: &mut Vec<String>, cond: bool, message: String)
    ensures
        views(final(errors)@) == push_if(views(old(errors)@), cond, message@),
{
    if cond {
        let ghost m = message@;
        errors.push(message);
        proof {
            assert(views(errors@) =~= views(old(errors)@).push(m));
        }
    }
}

/// `before` + `name` + `after`.
fn wrap(before: &str, name: &str, after: &str) -> (s: String)
    ensures
        s@ == before@ + name@ + after@,
{
    let a = concat_str(before, name);
    concat_str(a.as_str(), after)
}

/// Message about provider `name`.
pub open spec fn provider_message(name: Seq<char>, rest: Seq<char>) -> Seq<char> {
    "provider `"@ + name + "` "@ + rest
}

/// The list after the messages about model aliases, in alias order.
pub open spec fn alias_errors_after(base: Seq<Seq<char>>, p: Seq<(String, String)>) -> Seq<Seq<char>>
    decreases p.len(),
{
    if p.len() == 0 {
        base
    } else {
        let prev = alias_errors_after(base, p.drop_last());
        push_if(
            push_if(prev, is_blank(p.last().0@), "gateway.model_aliases must not contain empty alias names"@),
            is_blank(p.last().1@),
            "gateway.model_aliases entry `"@ + p.last().0@ + "` must not have an empty target"@,
        )
    }
}

/// The list after the messages about gateway timeouts, retries and the circuit breaker.
pub open spec fn gateway_core_after(base: Seq<Seq<char>>, g: GatewayConfig) -> Seq<Seq<char>> {
    let l1 = push_if(base, g.default_timeout_ms == 0, "gateway.default_timeout_ms must be greater than 0"@);
    let l2 = push_if(l1, g.health_check_interval_ms == 0, "gateway.health_check_interval_ms must be greater than 0"@);
    let l3 = push_if(l2, is_blank(g.api_key_env@), "gateway.api_key_env must not be empty"@);
    let l4 = push_if(l3, g.retry.initial_backoff_ms == 0, "gateway.retry.initial_backoff_ms must be greater than 0"@);
    let l5 = push_if(l4, g.retry.max_backoff_ms == 0, "gateway.retry.max_backoff_ms must be greater than 0"@);
    let l6 = push_if(
        l5,
        g.retry.max_backoff_ms < g.retry.initial_backoff_ms,
        "gateway.retry.max_backoff_ms must be greater than or equal to initial_backoff_ms"@,
    );
    let l7 = push_if(l6, g.circuit_breaker.failure_threshold == 0, "gateway.circuit_breaker.failure_threshold must be greater than 0"@);
    let l8 = push_if(l7, g.circuit_breaker.open_duration_ms == 0, "gateway.circuit_breaker.open_duration_ms must be greater than 0"@);
    push_if(l8, g.circuit_breaker.half_open_max_probes == 0, "gateway.circuit_breaker.half_open_max_probes must be greater than 0"@)
}

/// The list after the messages about gateway rate limits and request limits.
pub open spec fn gateway_limits_after(base: Seq<Seq<char>>, g: GatewayConfig) -> Seq<Seq<char>> {
    let l1 = push_if(base, g.rate_limit.global_requests_per_minute == 0, "gateway.rate_limit.global_requests_per_minute must be greater than 0"@);
    let l2 = push_if(l1, g.rate_limit.global_burst_size == 0, "gateway.rate_limit.global_burst_size must be greater than 0"@);
    let l3 = push_if(l2, g.rate_limit.per_key_requests_per_minute == 0, "gateway.rate_limit.per_key_requests_per_minute must be greater than 0"@);
    let l4 = push_if(l3, g.rate_limit.per_key_burst_size == 0, "gateway.rate_limit.per_key_burst_size must be greater than 0"@);
    let l5 = push_if(l4, g.rate_limit.max_tracked_keys == 0, "gateway.rate_limit.max_tracked_keys must be greater than 0"@);
    let l6 = push_if(
        l5,
        g.rate_limit.backend == RateLimitBackendConfig::Redis && match g.rate_limit.redis_url_env {
            Some(e) => is_blank(e@),
            None => true,
        },
        "gateway.rate_limit.redis_url_env must be set when backend is redis"@,
    );
    let l7 = push_if(l6, g.request_limits.max_chat_body_bytes == 0, "gateway.request_limits.max_chat_body_bytes must be greater than 0"@);
    let l8 = push_if(l7, g.request_limits.max_messages_per_request == 0, "gateway.request_limits.max_messages_per_request must be greater than 0"@);
    push_if(l8, g.request_limits.max_message_content_chars == 0, "gateway.request_limits.max_message_content_chars must be greater than 0"@)
}

/// The list after the messages about the gateway section.
pub open spec fn gateway_errors_after(base: Seq<Seq<char>>, g: GatewayConfig) -> Seq<Seq<char>> {
    alias_errors_after(gateway_limits_after(gateway_core_after(base, g), g), g.model_aliases.pairs())
}

fn validate_gateway_core(g: &GatewayConfig, errors: &mut Vec<String>)
    ensures
        views(final(errors)@) == gateway_core_after(views(old(errors)@), *g),
{
    push_when(errors, g.default_timeout_ms == 0, "gateway.default_timeout_ms must be greater than 0");
    push_when(errors, g.health_check_interval_ms == 0, "gateway.health_check_interval_ms must be greater than 0");
    push_when(errors, str_is_blank(g.api_key_env.as_str()), "gateway.api_key_env must not be empty");
    push_when(errors, g.retry.initial_backoff_ms == 0, "gateway.retry.initial_backoff_ms must be greater than 0");
    push_when(errors, g.retry.max_backoff_ms == 0, "gateway.retry.max_backoff_ms must be greater than 0");
    push_when(
        errors,
        g.retry.max_backoff_ms < g.retry.initial_backoff_ms,
        "gateway.retry.max_backoff_ms must be greater than or equal to initial_backoff_ms",
    );
    push_when(errors, g.circuit_breaker.failure_threshold == 0, "gateway.circuit_breaker.failure_threshold must be greater than 0");
    push_when(errors, g.circuit_breaker.open_duration_ms == 0, "gateway.circuit_breaker.open_duration_ms must be greater than 0");
    push_when(errors, g.circuit_breaker.half_open_max_probes == 0, "gateway.circuit_breaker.half_open_max_probes must be greater than 0");
}

fn validate_gateway_limits(g: &GatewayConfig, errors: &mut Vec<String>)
    ensures
        views(final(errors)@) == gateway_limits_after(views(old(errors)@), *g),
{
    push_when(errors, g.rate_limit.global_requests_per_minute == 0, "gateway.rate_limit.global_requests_per_minute must be greater than 0");
    push_when(errors, g.rate_limit.global_burst_size == 0, "gateway.rate_limit.global_burst_size must be greater than 0");
    push_when(errors, g.rate_limit.per_key_requests_per_minute == 0, "gateway.rate_limit.per_key_requests_per_minute must be greater than 0");
    push_when(errors, g.rate_limit.per_key_burst_size == 0, "gateway.rate_limit.per_key_burst_size must be greater than 0");
    push_when(errors, g.rate_limit.max_tracked_keys == 0, "gateway.rate_limit.max_tracked_keys must be greater than 0");
    let redis_missing = match &g.rate_limit.redis_url_env {
        Some(e) => str_is_blank(e.as_str()),
        None => true,
    };
    push_when(
        errors,
        g.rate_limit.backend == RateLimitBackendConfig::Redis && redis_missing,
        "gateway.rate_limit.redis_url_env must be set when backend is redis",
    );
    push_when(errors, g.request_limits.max_chat_body_bytes == 0, "gateway.request_limits.max_chat_body_bytes must be greater than 0");
    push_when(errors, g.request_limits.max_messages_per_request == 0, "gateway.request_limits.max_messages_per_request must be greater than 0");
    push_when(errors, g.request_limits.max_message_content_chars == 0, "gateway.request_limits.max_message_content_chars must be greater than 0");
}

fn validate_aliases(g: &GatewayConfig, errors: &mut Vec<String>)
    requires
        g.model_aliases.wf(),
    ensures
        views(final(errors)@) == alias_errors_after(views(old(errors)@), g.model_aliases.pairs()),
{
    let n = g.model_aliases.len();
    for i in 0..n
        invariant
            n == g.model_aliases.pairs().len(),
            g.model_aliases.wf(),
            views(errors@) == alias_errors_after(views(old(errors)@), g.model_aliases.pairs().take(i as int)),
    {
        let alias = g.model_aliases.key_at(i);
        let target = g.model_aliases.value_at(i);
        proof {
            let p = g.model_aliases.pairs();
            assert(p.take(i + 1).drop_last() =~= p.take(i as int));
            assert(p.take(i + 1).last() == p[i as int]);
        }
        push_when(errors, str_is_blank(alias.as_str()), "gateway.model_aliases must not contain empty alias names");
        let message = wrap("gateway.model_aliases entry `", alias.as_str(), "` must not have an empty target");
        push_owned_when(errors, str_is_blank(target.as_str()), message);
    }
    proof {
        assert(g.model_aliases.pairs().take(n as int) =~= g.model_aliases.pairs());
    }
}

/// Checks the gateway section.
pub fn validate_gateway_config(gateway: &GatewayConfig, errors: &mut Vec<String>)
    requires
        gateway.model_aliases.wf(),
    ensures
        views(final(errors)@) == gateway_errors_after(views(old(errors)@), *gateway),
{
    validate_gateway_core(gateway, errors);
    validate_gateway_limits(gateway, errors);
    validate_aliases(gateway, errors);
}

/// The list after the messages about the storage section.
pub open spec fn storage_errors_after(base: Seq<Seq<char>>, s: StorageConfig) -> Seq<Seq<char>> {
    push_if(
        push_if(base, s.enabled && is_blank(s.database_url@), "storage.database_url must not be empty when storage is enabled"@),
        s.enabled && s.retention_days == 0,
        "storage.retention_days must be greater than 0 when storage is enabled"@,
    )
}

/// Checks the storage section.
pub fn validate_storage_config(storage: &StorageConfig, errors: &mut Vec<String>)
    ensures
        views(final(errors)@) == storage_errors_after(views(old(errors)@), *storage),
{
    push_when(errors, storage.enabled && str_is_blank(storage.database_url.as_str()), "storage.database_url must not be empty when storage is enabled");
    push_when(errors, storage.enabled && storage.retention_days == 0, "storage.retention_days must be greater than 0 when storage is enabled");
}

/// The numeric checks of the cache section that the caller evaluated.
#[derive(Debug, Clone, Copy)]
pub struct CacheChecks {
    pub enabled: bool,
    pub default_ttl_seconds: u64,
    pub max_entries: usize,
    pub semantic_enabled: bool,
    pub has_embedding_provider: bool,
    /// The semantic similarity threshold lies in `[0.0, 1.0]`.
    pub similarity_threshold_in_range: bool,
    pub index_capacity: usize,
}

/// The list after the messages about the cache section.
pub open spec fn cache_errors_after(base: Seq<Seq<char>>, c: CacheChecks) -> Seq<Seq<char>> {
    let l1 = push_if(base, c.enabled && c.default_ttl_seconds == 0, "cache.default_ttl_seconds must be greater than 0 when cache is enabled"@);
    let l2 = push_if(l1, c.enabled && c.max_entries == 0, "cache.max_entries must be greater than 0 when cache is enabled"@);
    let l3 = push_if(
        l2,
        c.semantic_enabled && !c.has_embedding_provider,
        "cache.semantic.embedding_provider must be set when semantic cache is enabled"@,
    );
    let l4 = push_if(l3, !c.similarity_threshold_in_range, "cache.semantic.similarity_threshold must be between 0.0 and 1.0"@);
    push_if(l4, c.semantic_enabled && c.index_capacity == 0, "cache.semantic.index_capacity must be greater than 0 when semantic cache is enabled"@)
}

/// Checks the cache section.
pub fn validate_cache_config(cache: CacheChecks, errors: &mut Vec<String>)
    ensures
        views(final(errors)@) == cache_errors_after(views(old(errors)@), cache),
{
    push_when(errors, cache.enabled && cache.default_ttl_seconds == 0, "cache.default_ttl_seconds must be greater than 0 when cache is enabled");
    push_when(errors, cache.enabled && cache.max_entries == 0, "cache.max_entries must be greater than 0 when cache is enabled");
    push_when(
        errors,
        cache.semantic_enabled && !cache.has_embedding_provider,
        "cache.semantic.embedding_provider must be set when semantic cache is enabled",
    );
    push_when(errors, !cache.similarity_threshold_in_range, "cache.semantic.similarity_threshold must be between 0.0 and 1.0");
    push_when(
        errors,
        cache.semantic_enabled && cache.index_capacity == 0,
        "cache.semantic.index_capacity must be greater than 0 when semantic cache is enabled",
    );
}

/// The list after the messages about the telemetry section; `sample_ratio_in_range`
/// says whether the sample ratio lies in `[0.0, 1.0]`.
pub open spec fn telemetry_errors_after(
    base: Seq<Seq<char>>,
    service_name: Seq<char>,
    sample_ratio_in_range: bool,
    otlp_endpoint: Option<Seq<char>>,
) -> Seq<Seq<char>> {
    let l1 = push_if(base, is_blank(service_name), "telemetry.service_name must not be empty"@);
    let l2 = push_if(l1, !sample_ratio_in_range, "telemetry.sample_ratio must be between 0.0 and 1.0"@);
    push_if(l2, otlp_endpoint matches Some(e) && is_blank(e), "telemetry.otlp_endpoint must not be empty when set"@)
}

/// Checks the telemetry section.
pub fn validate_telemetry_config(service_name: &str, sample_ratio_in_range: bool, otlp_endpoint: Option<&str>, errors: &mut Vec<String>)
    ensures
        views(final(errors)@) == telemetry_errors_after(
            views(old(errors)@),
            service_name@,
            sample_ratio_in_range,
            match otlp_endpoint {
                Some(e) => Some(e@),
                None => None,
            },
        ),
{
    push_when(errors, str_is_blank(service_name), "telemetry.service_name must not be empty");
    push_when(errors, !sample_ratio_in_range, "telemetry.sample_ratio must be between 0.0 and 1.0");
    let blank_endpoint = match otlp_endpoint {
        Some(e) => str_is_blank(e),
        None => false,
    };
    push_when(errors, blank_endpoint, "telemetry.otlp_endpoint must not be empty when set");
}

/// Message about provider `name` with the given ending.
fn provider_note(name: &str, rest: &str) -> (s: String)
    ensures
        s@ == provider_message(name@, rest@),
{
    let a = concat_str("provider `", name);
    let b = concat_str(a.as_str(), "` ");
    let s = concat_str(b.as_str(), rest);
    proof {
        assert(s@ =~= provider_message(name@, rest@));
    }
    s
}

/// The list after the message about a provider's credentials.
pub open spec fn auth_errors_after(base: Seq<Seq<char>>, p: ProviderConfig) -> Seq<Seq<char>> {
    push_if(
        base,
        p.kind != ProviderKind::Mock && match p.api_key_env {
            Some(e) => is_blank(e@),
            None => true,
        },
        provider_message(p.name@, "api_key_env is required for real providers"@),
    )
}

/// Checks that real providers name their API key variable.
pub fn validate_provider_auth(provider: &ProviderConfig, errors: &mut Vec<String>)
    ensures
        views(final(errors)@) == auth_errors_after(views(old(errors)@), *provider),
{
    let missing = match &provider.api_key_env {
        Some(e) => str_is_blank(e.as_str()),
        None => true,
    };
    let message = provider_note(provider.name.as_str(), "api_key_env is required for real providers");
    push_owned_when(errors, provider.kind != ProviderKind::Mock && missing, message);
}

/// The list after the messages about a provider's retry settings.
pub open spec fn retry_errors_after(base: Seq<Seq<char>>, p: ProviderConfig, g: GatewayConfig) -> Seq<Seq<char>> {
    let initial = match p.retry_initial_backoff_ms {
        Some(v) => v,
        None => g.retry.initial_backoff_ms,
    };
    let max = match p.retry_max_backoff_ms {
        Some(v) => v,
        None => g.retry.max_backoff_ms,
    };
    let l1 = push_if(base, p.retry_initial_backoff_ms == Some(0u64), provider_message(p.name@, "retry_initial_backoff_ms must be greater than 0"@));
    let l2 = push_if(l1, p.retry_max_backoff_ms == Some(0u64), provider_message(p.name@, "retry_max_backoff_ms must be greater than 0"@));
    push_if(l2, max < initial, provider_message(p.name@, "retry_max_backoff_ms must be greater than or equal to retry_initial_backoff_ms"@))
}

/// Checks a provider's retry settings against the gateway defaults.
pub fn validate_provider_retry(provider: &ProviderConfig, gateway: &GatewayConfig, errors: &mut Vec<String>)
    ensures
        views(final(errors)@) == retry_errors_after(views(old(errors)@), *provider, *gateway),
{
    let p = provider;
    let initial = match p.retry_initial_backoff_ms {
        Some(v) => v,
        None => gateway.retry.initial_backoff_ms,
    };
    let max = match p.retry_max_backoff_ms {
        Some(v) => v,
        None => gateway.retry.max_backoff_ms,
    };
    let name = p.name.as_str();
    push_owned_when(errors, p.retry_initial_backoff_ms == Some(0u64), provider_note(name, "retry_initial_backoff_ms must be greater than 0"));
    push_owned_when(errors, p.retry_max_backoff_ms == Some(0u64), provider_note(name, "retry_max_backoff_ms must be greater than 0"));
    push_owned_when(
        errors,
        max < initial,
        provider_note(name, "retry_max_backoff_ms must be greater than or equal to retry_initial_backoff_ms"),
    );
}

/// The list after the messages about a provider's circuit breaker settings.
pub open spec fn breaker_errors_after(base: Seq<Seq<char>>, p: ProviderConfig, g: GatewayConfig) -> Seq<Seq<char>> {
    let threshold = match p.circuit_breaker_failure_threshold {
        Some(v) => v,
        None => g.circuit_breaker.failure_threshold,
    };
    let open = match p.circuit_breaker_open_duration_ms {
        Some(v) => v,
        None => g.circuit_breaker.open_duration_ms,
    };
    let probes = match p.circuit_breaker_half_open_max_probes {
        Some(v) => v,
        None => g.circuit_breaker.half_open_max_probes,
    };
    let l1 = push_if(
        base,
        p.circuit_breaker_failure_threshold == Some(0u32),
        provider_message(p.name@, "circuit_breaker_failure_threshold must be greater than 0"@),
    );
    let l2 = push_if(
        l1,
        p.circuit_breaker_open_duration_ms == Some(0u64),
        provider_message(p.name@, "circuit_breaker_open_duration_ms must be greater than 0"@),
    );
    let l3 = push_if(
        l2,
        p.circuit_breaker_half_open_max_probes == Some(0u32),
        provider_message(p.name@, "circuit_breaker_half_open_max_probes must be greater than 0"@),
    );
    let l4 = push_if(l3, threshold == 0, provider_message(p.name@, "effective circuit breaker failure threshold must be greater than 0"@));
    let l5 = push_if(l4, open == 0, provider_message(p.name@, "effective circuit breaker open duration must be greater than 0"@));
    push_if(l5, probes == 0, provider_message(p.name@, "effective circuit breaker half-open probes must be greater than 0"@))
}

/// Checks a provider's circuit breaker settings against the gateway defaults.
pub fn validate_provider_breaker(provider: &ProviderConfig, gateway: &GatewayConfig, errors: &mut Vec<String>)
    ensures
        views(final(errors)@) == breaker_errors_after(views(old(errors)@), *provider, *gateway),
{
    let p = provider;
    let threshold = match p.circuit_breaker_failure_threshold {
        Some(v) => v,
        None => gateway.circuit_breaker.failure_threshold,
    };
    let open = match p.circuit_breaker_open_duration_ms {
        Some(v) => v,
        None => gateway.circuit_breaker.open_duration_ms,
    };
    let probes = match p.circuit_breaker_half_open_max_probes {
        Some(v) => v,
        None => gateway.circuit_breaker.half_open_max_probes,
    };
    let name = p.name.as_str();
    push_owned_when(
        errors,
        p.circuit_breaker_failure_threshold == Some(0u32),
        provider_note(name, "circuit_breaker_failure_threshold must be greater than 0"),
    );
    push_owned_when(
        errors,
        p.circuit_breaker_open_duration_ms == Some(0u64),
        provider_note(name, "circuit_breaker_open_duration_ms must be greater than 0"),
    );
    push_owned_when(
        errors,
        p.circuit_breaker_half_open_max_probes == Some(0u32),
        provider_note(name, "circuit_breaker_half_open_max_probes must be greater than 0"),
    );
    push_owned_when(errors, threshold == 0, provider_note(name, "effective circuit breaker failure threshold must be greater than 0"));
    push_owned_when(errors, open == 0, provider_note(name, "effective circuit breaker open duration must be greater than 0"));
    push_owned_when(errors, probes == 0, provider_note(name, "effective circuit breaker half-open probes must be greater than 0"));
}

/// The list after the messages about the server section.
pub open spec fn server_errors_after(base: Seq<Seq<char>>, port: u16, shutdown_grace_period_ms: u64) -> Seq<Seq<char>> {
    push_if(
        push_if(base, port == 0, "server.port must be greater than 0"@),
        shutdown_grace_period_ms == 0,
        "server.shutdown_grace_period_ms must be greater than 0"@,
    )
}

/// Checks the server section.
pub fn validate_server_config(port: u16, shutdown_grace_period_ms: u64, errors: &mut Vec<String>)
    ensures
        views(final(errors)@) == server_errors_after(views(old(errors)@), port, shutdown_grace_period_ms),
{
    push_when(errors, port == 0, "server.port must be greater than 0");
    push_when(errors, shutdown_grace_period_ms == 0, "server.shutdown_grace_period_ms must be greater than 0");
}

/// The floating-point checks of one provider that the caller evaluated.
#[derive(Debug, Clone, Copy)]
pub struct ProviderNumericChecks {
    /// The simulated failure rate lies in `[0.0, 1.0]`.
    pub failure_rate_in_range: bool,
    pub input_cost_non_negative: bool,
    pub output_cost_non_negative: bool,
}

/// Some provider serves model `m`.
pub open spec fn has_model(ps: Seq<ProviderConfig>, m: Seq<char>) -> bool {
    exists|i: int| 0 <= i < ps.len() && #[trigger] ps[i].model@ == m
}

/// The list after the messages about alias targets that no provider serves.
pub open spec fn alias_target_errors_after(base: Seq<Seq<char>>, p: Seq<(String, String)>, ps: Seq<ProviderConfig>) -> Seq<Seq<char>>
    decreases p.len(),
{
    if p.len() == 0 {
        base
    } else {
        let t = p.last().1@;
        push_if(
            alias_target_errors_after(base, p.drop_last(), ps),
            !is_blank(t) && !has_model(ps, t),
            "gateway.model_aliases target `"@ + t + "` must match a configured provider model"@,
        )
    }
}

/// An earlier provider has the same name as provider `i`.
pub open spec fn name_seen_before(ps: Seq<ProviderConfig>, i: int) -> bool {
    exists|j: int| 0 <= j < i && #[trigger] ps[j].name@ == ps[i].name@
}

/// The list after the messages about provider `i`.
pub open spec fn provider_entry_after(base: Seq<Seq<char>>, ps: Seq<ProviderConfig>, i: int, c: ProviderNumericChecks, g: GatewayConfig) -> Seq<Seq<char>> {
    let p = ps[i];
    let n = p.name@;
    let l1 = if is_blank(n) {
        base.push("provider name must not be empty"@)
    } else if name_seen_before(ps, i) {
        base.push("duplicate provider name `"@ + n + "`"@)
    } else {
        base
    };
    let l2 = push_if(l1, is_blank(p.model@), provider_message(n, "model must not be empty"@));
    let l3 = push_if(l2, p.priority == 0, provider_message(n, "priority must be greater than 0"@));
    let l4 = push_if(l3, !c.failure_rate_in_range, provider_message(n, "failure_rate must be between 0.0 and 1.0"@));
    let l5 = push_if(l4, !c.input_cost_non_negative, provider_message(n, "cost_per_1k_input_tokens must not be negative"@));
    let l6 = push_if(l5, !c.output_cost_non_negative, provider_message(n, "cost_per_1k_output_tokens must not be negative"@));
    let l7 = push_if(l6, p.base_url matches Some(u) && is_blank(u@), provider_message(n, "base_url must not be empty"@));
    let l8 = push_if(l7, p.timeout_ms == Some(0u64), provider_message(n, "timeout_ms must be greater than 0"@));
    breaker_errors_after(retry_errors_after(auth_errors_after(l8, p), p, g), p, g)
}

/// The list after the messages about the first `k` providers.
pub open spec fn providers_after(base: Seq<Seq<char>>, ps: Seq<ProviderConfig>, checks: Seq<ProviderNumericChecks>, g: GatewayConfig, k: nat) -> Seq<Seq<char>>
    decreases k,
{
    if k == 0 {
        base
    } else {
        provider_entry_after(providers_after(base, ps, checks, g, (k - 1) as nat), ps, k - 1, checks[k - 1], g)
    }
}

/// The list after the messages about the provider list.
pub open spec fn provider_errors_after(base: Seq<Seq<char>>, ps: Seq<ProviderConfig>, checks: Seq<ProviderNumericChecks>, g: GatewayConfig) -> Seq<Seq<char>> {
    providers_after(
        alias_target_errors_after(push_if(base, ps.len() == 0, "at least one provider must be configured"@), g.model_aliases.pairs(), ps),
        ps,
        checks,
        g,
        ps.len(),
    )
}

fn model_configured(providers: &[ProviderConfig], model: &str) -> (b: bool)
    ensures
        b == has_model(providers@, model@),
{
    let n = providers.len();
    for i in 0..n
        invariant
            n == providers@.len(),
            forall|j: int| 0 <= j < i ==> (#[trigger] providers@[j]).model@ != model@,
    {
        if str_eq_chars(providers[i].model.as_str(), model) {
            proof {
                assert(providers@[i as int].model@ == model@);
            }
            return true;
        }
    }
    false
}

fn name_seen(providers: &[ProviderConfig], i: usize) -> (b: bool)
    requires
        i < providers@.len(),
    ensures
        b == name_seen_before(providers@, i as int),
{
    for j in 0..i
        invariant
            i < providers@.len(),
            forall|k: int| 0 <= k < j ==> (#[trigger] providers@[k]).name@ != providers@[i as int].name@,
    {
        if str_eq_chars(providers[j].name.as_str(), providers[i].name.as_str()) {
            proof {
                assert(providers@[j as int].name@ == providers@[i as int].name@);
            }
            return true;
        }
    }
    false
}

fn validate_provider_entry(
    providers: &[ProviderConfig],
    i: usize,
    checks: ProviderNumericChecks,
    gateway: &GatewayConfig,
    errors: &mut Vec<String>,
)
    requires
        i < providers@.len(),
    ensures
        views(final(errors)@) == provider_entry_after(views(old(errors)@), providers@, i as int, checks, *gateway),
{
    let p = &providers[i];
    let name = p.name.as_str();
    if str_is_blank(name) {
        push_when(errors, true, "provider name must not be empty");
    } else if name_seen(providers, i) {
        push_owned_when(errors, true, wrap("duplicate provider name `", name, "`"));
    }
    push_owned_when(errors, str_is_blank(p.model.as_str()), provider_note(name, "model must not be empty"));
    push_owned_when(errors, p.priority == 0, provider_note(name, "priority must be greater than 0"));
    push_owned_when(errors, !checks.failure_rate_in_range, provider_note(name, "failure_rate must be between 0.0 and 1.0"));
    push_owned_when(errors, !checks.input_cost_non_negative, provider_note(name, "cost_per_1k_input_tokens must not be negative"));
    push_owned_when(errors, !checks.output_cost_non_negative, provider_note(name, "cost_per_1k_output_tokens must not be negative"));
    let blank_url = match &p.base_url {
        Some(u) => str_is_blank(u.as_str()),
        None => false,
    };
    push_owned_when(errors, blank_url, provider_note(name, "base_url must not be empty"));
    push_owned_when(errors, p.timeout_ms == Some(0u64), provider_note(name, "timeout_ms must be greater than 0"));
    validate_provider_auth(p, errors);
    validate_provider_retry(p, gateway, errors);
    validate_provider_breaker(p, gateway, errors);
}

/// Checks the provider list: that there is one, that alias targets are served,
/// and each provider's settings. `checks[i]` holds the floating-point checks of
/// provider `i`.
pub fn validate_providers(providers: &[ProviderConfig], checks: &[ProviderNumericChecks], gateway: &GatewayConfig, errors: &mut Vec<String>)
    requires
        checks@.len() == providers@.len(),
        gateway.model_aliases.wf(),
    ensures
        views(final(errors)@) == provider_errors_after(views(old(errors)@), providers@, checks@, *gateway),
{
    push_when(errors, providers.len() == 0, "at least one provider must be configured");
    let ghost after_empty = views(errors@);
    let n = gateway.model_aliases.len();
    for i in 0..n
        invariant
            n == gateway.model_aliases.pairs().len(),
            gateway.model_aliases.wf(),
            views(errors@) == alias_target_errors_after(after_empty, gateway.model_aliases.pairs().take(i as int), providers@),
    {
        let target = gateway.model_aliases.value_at(i);
        proof {
            let p = gateway.model_aliases.pairs();
            assert(p.take(i + 1).drop_last() =~= p.take(i as int));
            assert(p.take(i + 1).last() == p[i as int]);
        }
        let unserved = !str_is_blank(target.as_str()) && !model_configured(providers, target.as_str());
        push_owned_when(errors, unserved, wrap("gateway.model_aliases target `", target.as_str(), "` must match a configured provider model"));
    }
    proof {
        assert(gateway.model_aliases.pairs().take(n as int) =~= gateway.model_aliases.pairs());
    }
    let ghost after_aliases = views(errors@);
    let m = providers.len();
    for i in 0..m
        invariant
            m == providers@.len(),
            checks@.len() == providers@.len(),
            views(errors@) == providers_after(after_aliases, providers@, checks@, *gateway, i as nat),
    {
        validate_provider_entry(providers, i, checks[i], gateway, errors);
    }
}

/// The error messages joined by `"; "`.
pub fn join_errors(errors: &Vec<String>) -> (s: String)
    ensures
        s@ == crate::text::seq_join(views(errors@), "; "@),
{
    let mut s = String::new();
    let n = errors.len();
    for i in 0..n
        invariant
            n == errors@.len(),
            s@ == crate::text::seq_join(views(errors@.take(i as int)), "; "@),
    {
        proof {
            crate::text::lemma_join_push(views(errors@.take(i as int)), errors@[i as int]@, "; "@);
            assert(views(errors@.take(i + 1)) =~= views(errors@.take(i as int)).push(errors@[i as int]@));
        }
        if i > 0 {
            crate::text::push_str(&mut s, "; ");
        }
        crate::text::push_str(&mut s, errors[i].as_str());
        proof {
            if i == 0 {
                assert(s@ =~= errors@[0]@);
            }
        }
    }
    proof {
        assert(errors@.take(n as int) =~= errors@);
    }
    s
}

} // verus!
