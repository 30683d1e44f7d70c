use rustygate::auth::access::{bearer_token, per_key_burst, role_allows_path};
use rustygate::auth::keys::KeyRole;
use rustygate::config::{
    AdmissionConfig, GatewayCircuitBreakerConfig, GatewayConfig, GatewayRetryConfig, PrefixAffinityConfig, ProviderConfig,
    ProviderKind, RateLimitConfig, RequestLimitsConfig, RouteExposureConfig, RoutingPolicy,
};
use rustygate::models::chat::TokenUsage;
use rustygate::providers::anthropic_tool_translation::{anthropic_content_to_openai_message, AnthropicContentBlock};
use rustygate::providers::mock::{deterministic_id_bytes, mock_reply, mock_seed, mock_stream_pieces, usage_of};
use rustygate::providers::provider::priority_order;
use rustygate::routing::admission::{AdmissionController, AdmissionLimits, AdmissionRejectionReason};
use rustygate::routing::fallback::{ProviderAttempt, ProviderErrorCategory};
use rustygate::routing::resilience::{gateway_resilience_defaults, provider_resilience_policy};
use rustygate::strmap::StrMap;
use rustygate::telemetry::metrics::{sorted_samples, tally_error_categories, MetricsRegistry, ProviderLoadEstimate, MAX_LATENCY_SAMPLES};
use rustygate::telemetry::stored::{aggregate_stored_attempts, aggregate_stored_requests, StoredAttemptRow, StoredRequestRow};

fn gateway_config() -> GatewayConfig {
    GatewayConfig {
        default_timeout_ms: 30_000,
        stream_idle_timeout_ms: 30_000,
        max_retries: 1,
        health_check_interval_ms: 30_000,
        routing_policy: RoutingPolicy::Priority,
        prefix_affinity: PrefixAffinityConfig::default(),
        route_exposure: RouteExposureConfig::default(),
        model_aliases: StrMap::new(),
        retry: GatewayRetryConfig { initial_backoff_ms: 100, max_backoff_ms: 500, jitter_ms: 25 },
        circuit_breaker: GatewayCircuitBreakerConfig { failure_threshold: 3, open_duration_ms: 5_000, half_open_max_probes: 1 },
        enable_request_logging: true,
        log_prompt_content: false,
        api_key_env: "RUSTYGATE_GATEWAY_API_KEY".into(),
        rate_limit: RateLimitConfig::default(),
        request_limits: RequestLimitsConfig::default(),
        admission: AdmissionConfig::default(),
    }
}

#[allow(clippy::too_many_arguments)]
fn provider_config(
    timeout_ms: Option<u64>,
    max_retries: Option<u32>,
    retry_initial_backoff_ms: Option<u64>,
    retry_max_backoff_ms: Option<u64>,
    retry_jitter_ms: Option<u64>,
    circuit_breaker_failure_threshold: Option<u32>,
    circuit_breaker_open_duration_ms: Option<u64>,
    circuit_breaker_half_open_max_probes: Option<u32>,
) -> ProviderConfig {
    ProviderConfig {
        name: "mock-primary".into(),
        kind: ProviderKind::Mock,
        model: "mock-fast-v1".into(),
        priority: 1,
        base_latency_ms: 0,
        base_url: None,
        api_key_env: None,
        timeout_ms,
        max_retries,
        retry_initial_backoff_ms,
        retry_max_backoff_ms,
        retry_jitter_ms,
        circuit_breaker_failure_threshold,
        circuit_breaker_open_duration_ms,
        circuit_breaker_half_open_max_probes,
        max_in_flight: None,
    }
}

#[test]
fn provider_resilience_policy_uses_provider_overrides() {
    let gateway = gateway_config();
    let provider = provider_config(Some(1_000), Some(5), Some(10), Some(100), Some(7), Some(6), Some(2_000), Some(2));

    let policy = provider_resilience_policy(&provider, &gateway);

    assert_eq!(policy.timeout_ms, Some(1_000));
    assert_eq!(policy.retry.max_retries, 5);
    assert_eq!(policy.retry.initial_backoff_ms, 10);
    assert_eq!(policy.retry.max_backoff_ms, 100);
    assert_eq!(policy.retry.jitter_ms, 7);
    assert_eq!(policy.breaker.failure_threshold, 6);
    assert_eq!(policy.breaker.open_duration_ms, 2_000);
    assert_eq!(policy.breaker.half_open_max_probes, 2);
}

#[test]
fn provider_resilience_policy_falls_back_to_gateway_defaults() {
    let gateway = gateway_config();
    let provider = provider_config(None, None, None, None, None, None, None, None);

    let policy = provider_resilience_policy(&provider, &gateway);

    assert_eq!(policy.timeout_ms, Some(30_000));
    assert_eq!(policy.retry.max_retries, 1);
    assert_eq!(policy.retry.initial_backoff_ms, 100);
    assert_eq!(policy.retry.max_backoff_ms, 500);
    assert_eq!(policy.retry.jitter_ms, 25);
    assert_eq!(policy.breaker.failure_threshold, 3);
    assert_eq!(policy.breaker.open_duration_ms, 5_000);
    assert_eq!(policy.breaker.half_open_max_probes, 1);
}

#[test]
fn gateway_defaults_carry_gateway_timeout_and_breaker() {
    let policy = gateway_resilience_defaults(&gateway_config());
    assert_eq!(policy.timeout_ms, Some(30_000));
    assert_eq!(policy.retry.max_retries, 1);
    assert_eq!(policy.breaker.open_duration_ms, 5_000);
}

#[test]
fn provider_names_follow_priority_order() {
    let names = ["mock-third", "mock-first", "mock-second"];
    let order = priority_order(&[3, 1, 2]);
    let sorted: Vec<String> = order.iter().map(|i| names[*i].to_string()).collect();
    assert_eq!(sorted, vec!["mock-first".to_string(), "mock-second".to_string(), "mock-third".to_string()]);
}

#[test]
fn priority_order_is_stable_for_equal_priorities() {
    assert_eq!(priority_order(&[2, 1, 2, 1]), vec![1, 3, 0, 2]);
    assert_eq!(priority_order(&[]), Vec::<usize>::new());
}

#[test]
fn observability_routes_need_observability_role() {
    assert!(role_allows_path(KeyRole::Observability, "/metrics"));
    assert!(role_allows_path(KeyRole::Admin, "/stats/providers"));
    assert!(!role_allows_path(KeyRole::Inference, "/stats"));
    assert!(role_allows_path(KeyRole::Inference, "/v1/chat/completions"));
    assert!(!role_allows_path(KeyRole::Observability, "/v1/chat/completions"));
    assert!(role_allows_path(KeyRole::Observability, "/v1/models"));
}

#[test]
fn bearer_token_requires_scheme_and_value() {
    assert_eq!(bearer_token("Bearer abc"), Some("abc".to_string()));
    assert_eq!(bearer_token("Bearer "), None);
    assert_eq!(bearer_token("Basic abc"), None);
    assert_eq!(bearer_token("bearer abc"), None);
}

#[test]
fn per_key_burst_is_a_quarter_at_least_one() {
    assert_eq!(per_key_burst(Some(60)), Some(15));
    assert_eq!(per_key_burst(Some(3)), Some(1));
    assert_eq!(per_key_burst(None), None);
}

#[test]
fn latency_samples_are_capped_to_recent_values() {
    let mut metrics = MetricsRegistry::default();

    for latency_ms in 0..(MAX_LATENCY_SAMPLES as u64 + 10) {
        metrics.record_failure("mock-fast", latency_ms);
    }

    assert_eq!(metrics.latency_samples_ms.len(), MAX_LATENCY_SAMPLES);
    assert_eq!(metrics.latency_samples_ms.first(), Some(&10));
    assert_eq!(metrics.latency_samples_ms.last(), Some(&(MAX_LATENCY_SAMPLES as u64 + 9)));
}

#[test]
fn provider_in_flight_and_queue_pressure_release() {
    let mut metrics = MetricsRegistry::default();
    let load_estimate = ProviderLoadEstimate { prompt_tokens: 2_100, max_completion_tokens: Some(50) };
    let pressure_units = load_estimate.queue_pressure_units();

    metrics.begin_provider_request("replica-a", pressure_units);
    assert_eq!(metrics.in_flight_requests_by_provider.get("replica-a"), Some(&1));
    assert_eq!(metrics.provider_queue_pressure_units.get("replica-a"), Some(&pressure_units));

    metrics.end_provider_request("replica-a", pressure_units);
    assert_eq!(metrics.in_flight_requests_by_provider.get("replica-a"), None);
    assert_eq!(metrics.provider_queue_pressure_units.get("replica-a"), None);
}

#[test]
fn records_counts_tokens_and_provider_outcomes() {
    let mut metrics = MetricsRegistry::default();
    metrics.record_success("mock-fast", &TokenUsage { prompt_tokens: 10, completion_tokens: 20, total_tokens: 30 }, 40);
    metrics.record_failure("mock-fast", 80);

    assert_eq!(metrics.total_requests, 2);
    assert_eq!(metrics.successful_requests, 1);
    assert_eq!(metrics.failed_requests, 1);
    assert_eq!(metrics.total_provider_attempts, 2);
    assert_eq!(metrics.fallback_attempts, 0);
    assert_eq!(metrics.estimated_prompt_tokens, 10);
    assert_eq!(metrics.estimated_completion_tokens, 20);
    assert_eq!(metrics.estimated_total_tokens, 30);
    assert_eq!(metrics.requests_by_provider.get("mock-fast"), Some(&2));
    assert_eq!(metrics.successes_by_provider.get("mock-fast"), Some(&1));
    assert_eq!(metrics.errors_by_provider.get("mock-fast"), Some(&1));
    assert_eq!(metrics.provider_total_latency_ms.get("mock-fast"), Some(&120));
    assert_eq!(metrics.total_latency_ms, 120);
}

#[test]
fn fallback_attempt_errors_are_counted_by_category() {
    let mut metrics = MetricsRegistry::default();
    let attempts = [
        ProviderAttempt {
            provider_name: "a".into(),
            attempt_order: 1,
            latency_ms: 5,
            success: false,
            is_fallback: false,
            error_category: Some(ProviderErrorCategory::Timeout),
        },
        ProviderAttempt {
            provider_name: "b".into(),
            attempt_order: 2,
            latency_ms: 7,
            success: true,
            is_fallback: true,
            error_category: None,
        },
    ];
    metrics.record_chat_success("b", &TokenUsage { prompt_tokens: 1, completion_tokens: 1, total_tokens: 2 }, 12, &attempts);

    assert_eq!(metrics.fallback_attempts, 1);
    assert_eq!(metrics.fallback_attempts_by_provider.get("b"), Some(&1));
    assert_eq!(metrics.errors_by_provider.get("a"), Some(&1));
    let row = metrics.provider_errors_by_provider_and_category.get("a").unwrap();
    assert_eq!(row.get("timeout"), Some(&1));
    assert_eq!(metrics.provider_error_samples.get("a").map(|s| s.len()), Some(1));
}

#[test]
fn routing_decisions_and_stream_outcomes_are_counted() {
    let mut metrics = MetricsRegistry::default();
    metrics.record_provider_ttft("replica-a", 25);
    metrics.record_provider_ttft("replica-a", 75);
    metrics.record_routing_decision("latency", "recent_latency_p95");
    metrics.record_routing_decision("latency", "recent_latency_p95");
    metrics.record_stream_outcome("completed", 100);
    metrics.record_stream_outcome("idle_timeout", 250);
    metrics.record_chat_failure_with_category(9, &[], Some("timeout"));

    assert_eq!(metrics.provider_ttft_samples_ms.get("replica-a"), Some(&vec![25, 75]));
    let row = metrics.routing_decisions_by_policy_and_reason.get("latency").unwrap();
    assert_eq!(row.get("recent_latency_p95"), Some(&2));
    assert_eq!(metrics.stream_outcomes_by_outcome.get("completed"), Some(&1));
    assert_eq!(metrics.stream_outcomes_by_outcome.get("idle_timeout"), Some(&1));
    assert_eq!(metrics.stream_duration_samples_ms, vec![100, 250]);
    assert_eq!(metrics.request_errors_by_category.get("timeout"), Some(&1));
}

#[test]
fn in_flight_requests_saturate_at_zero() {
    let mut metrics = MetricsRegistry::new();
    metrics.end_request();
    assert_eq!(metrics.in_flight_requests, 0);
    metrics.begin_request();
    metrics.begin_request();
    metrics.end_request();
    assert_eq!(metrics.in_flight_requests, 1);
}

#[test]
fn mock_reply_seed_and_pieces() {
    assert_eq!(mock_reply("mock-fast"), "Deterministic mock response from mock-fast.");
    assert_eq!(mock_seed("m", "v1", 12, 7, false), "m|v1|12|7");
    assert_eq!(mock_seed("m", "v1", 0, 7, true), "m|v1|0|7|stream");
    assert_eq!(mock_stream_pieces("a  bc d"), vec!["a ".to_string(), "bc ".to_string(), "d".to_string()]);
    let u = usage_of(3, 4);
    assert_eq!((u.prompt_tokens, u.completion_tokens, u.total_tokens), (3, 4, 7));
    let mut expected = [0u8; 16];
    expected[0] = b'a';
    expected[1] = b'b'.wrapping_add(1);
    assert_eq!(deterministic_id_bytes(b"ab"), expected);
    let mut long = [0u8; 16];
    let seed: Vec<u8> = (0..17u8).collect();
    for (index, byte) in seed.iter().enumerate() {
        let slot = index % 16;
        long[slot] = long[slot].wrapping_mul(31).wrapping_add(*byte).wrapping_add(slot as u8);
    }
    assert_eq!(deterministic_id_bytes(&seed), long);
}

#[test]
fn samples_sort_ascending_with_repeats() {
    assert_eq!(sorted_samples(&[50, 10, 40, 10, 30]), vec![10, 10, 30, 40, 50]);
    assert_eq!(sorted_samples(&[]), Vec::<u64>::new());
    let sorted = sorted_samples(&[10, 20, 30, 40, 50]);
    let rank = ((sorted.len() as f64) * 0.95).ceil() as usize;
    assert_eq!(sorted[rank - 1], 50);
}

#[test]
fn anthropic_tool_use_becomes_openai_tool_call() {
    let input: serde_json::Value = serde_json::from_str("{\"city\":\"Paris\"}").unwrap();
    let blocks = vec![
        AnthropicContentBlock { kind: "text".into(), text: Some("Checking.".into()), id: None, name: None, input: None },
        AnthropicContentBlock {
            kind: "tool_use".into(),
            text: None,
            id: Some("toolu_1".into()),
            name: Some("get_weather".into()),
            input: Some(input),
        },
    ];
    let (text, calls) = anthropic_content_to_openai_message(&blocks);
    assert_eq!(text, "Checking.");
    let calls = calls.unwrap();
    assert_eq!(calls.len(), 1);
    assert_eq!(calls[0].id, "toolu_1");
    assert_eq!(calls[0].kind, "function");
    assert_eq!(calls[0].function.name, "get_weather");
    assert_eq!(calls[0].function.arguments, "{\"city\":\"Paris\"}");
}

#[test]
fn finished_admission_frees_its_slot() {
    let mut limits = AdmissionLimits::unlimited(2);
    limits.max_global_in_flight = Some(1);
    let mut controller = AdmissionController::new(limits);
    let mut first = controller.try_acquire_request(None).unwrap();
    let rejected = controller.try_acquire_request(None).unwrap_err();
    assert_eq!(rejected.reason, AdmissionRejectionReason::GlobalInFlightLimit);
    assert_eq!(rejected.retry_after_seconds, 2);
    first.finish(&mut controller);
    first.finish(&mut controller);
    let mut second = controller.try_acquire_request(None).unwrap();
    assert!(controller.try_acquire_request(None).is_err());
    second.finish(&mut controller);
}

#[test]
fn recent_error_categories_are_tallied() {
    let tally = tally_error_categories(&[
        ProviderErrorCategory::Timeout,
        ProviderErrorCategory::RateLimited,
        ProviderErrorCategory::Timeout,
    ]);
    assert_eq!(tally.get("timeout"), Some(&2));
    assert_eq!(tally.get("rate_limited"), Some(&1));
    assert_eq!(tally.get("provider_unavailable"), None);
    assert_eq!(tally.len(), 2);
}

fn stored_request(status: &str, latency_ms: i64, prompt: i64, completion: i64) -> StoredRequestRow {
    StoredRequestRow {
        status: status.to_string(),
        latency_ms,
        prompt_tokens: prompt,
        completion_tokens: completion,
        total_tokens: prompt + completion,
    }
}

fn stored_attempt(provider: &str, success: i64, is_fallback: i64, latency_ms: i64) -> StoredAttemptRow {
    StoredAttemptRow { provider_name: provider.to_string(), success, is_fallback, latency_ms }
}

#[test]
fn stored_requests_are_counted_by_status_and_summed() {
    let rows = vec![
        stored_request("success", 10, 100, 20),
        stored_request("failure", 30, 0, 0),
        stored_request("success", 20, 50, 5),
        stored_request("timeout", 40, 7, 0),
    ];
    let totals = aggregate_stored_requests(&rows);
    assert_eq!(totals.total_requests, 4);
    assert_eq!(totals.successful_requests, 2);
    assert_eq!(totals.failed_requests, 2);
    assert_eq!(totals.estimated_prompt_tokens, 157);
    assert_eq!(totals.estimated_completion_tokens, 25);
    assert_eq!(totals.estimated_total_tokens, 182);
    assert_eq!(totals.latencies_ms, vec![10, 30, 20, 40]);
}

#[test]
fn stored_requests_of_an_empty_log_are_zero() {
    let totals = aggregate_stored_requests(&[]);
    assert_eq!(totals.total_requests, 0);
    assert_eq!(totals.successful_requests, 0);
    assert_eq!(totals.failed_requests, 0);
    assert_eq!(totals.estimated_total_tokens, 0);
    assert!(totals.latencies_ms.is_empty());
}

#[test]
fn stored_negative_latency_is_read_as_unsigned() {
    let totals = aggregate_stored_requests(&[stored_request("Success", -1, 0, 0)]);
    assert_eq!(totals.latencies_ms, vec![u64::MAX]);
    assert_eq!(totals.successful_requests, 0);
    assert_eq!(totals.failed_requests, 1);
}

#[test]
fn stored_attempts_fill_per_provider_tables() {
    let rows = vec![
        stored_attempt("primary", 0, 0, 100),
        stored_attempt("backup", 1, 1, 40),
        stored_attempt("primary", 1, 0, 60),
        stored_attempt("backup", 2, 1, 10),
    ];
    let tables = aggregate_stored_attempts(&rows);
    assert_eq!(tables.total_provider_attempts, 4);
    assert_eq!(tables.fallback_attempts, 2);
    assert_eq!(tables.requests_by_provider.get("primary"), Some(&2));
    assert_eq!(tables.requests_by_provider.get("backup"), Some(&2));
    assert_eq!(tables.successes_by_provider.get("primary"), Some(&1));
    assert_eq!(tables.successes_by_provider.get("backup"), Some(&1));
    assert_eq!(tables.errors_by_provider.get("primary"), Some(&1));
    assert_eq!(tables.errors_by_provider.get("backup"), Some(&1));
    assert_eq!(tables.fallback_attempts_by_provider.get("primary"), None);
    assert_eq!(tables.fallback_attempts_by_provider.get("backup"), Some(&2));
    assert_eq!(tables.total_latency_by_provider.get("primary"), Some(&160));
    assert_eq!(tables.total_latency_by_provider.get("backup"), Some(&50));
    assert_eq!(tables.latencies_by_provider.get("primary"), Some(&vec![100, 60]));
    assert_eq!(tables.latencies_by_provider.get("backup"), Some(&vec![40, 10]));
}
