use rustygate::auth::keys::{
    day_of, format_raw_key, generate_api_key, hash_key, parse_key_prefix, quota_decision, seconds_until_next_day_at, verify_key,
    AuthError, KeyRole, QuotaRejection, QuotaUsage, StaticKeyStore,
};
use rustygate::cache::response::{cache_key_from_canonical, cache_plan, is_cacheable, temperature_is_positive, CachePlan};
use rustygate::config::validation::{
    join_errors, validate_provider_retry, validate_providers, validate_storage_config, ProviderNumericChecks,
};
use rustygate::config::{
    AdmissionConfig, GatewayCircuitBreakerConfig, GatewayConfig, GatewayRetryConfig, ModelPoolConfig, PrefixAffinityConfig, ProviderConfig,
    ProviderKind, RateLimitConfig, RequestLimitsConfig, RouteExposureConfig, RoutingPolicy, StorageConfig,
};
use rustygate::error::AppError;
use rustygate::hashing::sha256_hex;
use rustygate::models::chat::{ChatCompletionRequest, ChatMessage, ChatRole, ChatValidationLimits, TokenUsage};
use rustygate::models::model::{list_models, ProviderModel};
use rustygate::providers::provider::ProviderError;
use rustygate::routes::health::{health_response, ready_response, ReadyQuery};
use rustygate::routes::shared::admit_chat_request;
use rustygate::routes::stream::{fallback_failure, RelayAction, RelayEvent, StreamRelay, StreamSettlement};
use rustygate::routing::admission::{AdmissionController, AdmissionLimits, AdmissionRejectionReason};
use rustygate::routing::fallback::{FallbackError, ProviderAttempt, ProviderErrorCategory};
use rustygate::routing::health::ProviderHealthRegistry;
use rustygate::routing::model_pools::ModelPoolIndex;
use rustygate::routing::prefix_affinity::PrefixAffinityIndex;
use rustygate::routing::prefix_fingerprint::{normalize_text, stable_prefix_len, PrefixFingerprintConfidence, PrefixFingerprintResult};
use rustygate::routing::resilience::{default_resilience_registry, ResilienceRegistry};
use rustygate::routing::strategy::{
    candidate_providers, candidate_providers_with_affinity, load_score, move_provider_to_front, order_by_load_then_baseline,
    rendezvous_score, resolve_model_alias, routing_decision_reason, select_provider, CandidateEntry, PrefixAffinityRouting,
};
use rustygate::strmap::StrMap;
use rustygate::telemetry::metrics::{ProviderLoadEstimate, StreamOutcome};
use rustygate::telemetry::prometheus::escape_label_value;
use rustygate::telemetry::request_log::RequestErrorCategory;

fn entry(name: &str, priority: u32, cost_rank: u64, latency_rank: u64) -> CandidateEntry {
    CandidateEntry {
        name: name.into(),
        priority,
        supports_requested_model: true,
        cost_rank,
        latency_rank,
        in_flight: 0,
        queue_pressure: 0,
        recent_errors: 0,
        has_p95_latency: false,
        has_avg_latency: false,
    }
}

fn names(entries: &[CandidateEntry], order: &[usize]) -> Vec<String> {
    order.iter().map(|i| entries[*i].name.clone()).collect()
}

fn pool(name: &str, members: &[&str], policy: Option<RoutingPolicy>) -> ModelPoolConfig {
    ModelPoolConfig {
        name: name.into(),
        aliases: vec![],
        members: members.iter().map(|m| m.to_string()).collect(),
        routing_policy: policy,
        max_in_flight: None,
    }
}

fn user_request(model: &str, content: &str) -> ChatCompletionRequest {
    ChatCompletionRequest {
        model: Some(model.into()),
        messages: vec![ChatMessage { role: ChatRole::User, content: content.into(), tool_calls: None, tool_call_id: None }],
        temperature_bits: None,
        max_tokens: None,
        stream: None,
        tools: None,
        tool_choice: None,
        parallel_tool_calls: None,
        response_format: None,
    }
}

fn high_fingerprint(f: &str) -> PrefixFingerprintResult {
    PrefixFingerprintResult {
        fingerprint: Some(f.into()),
        confidence: PrefixFingerprintConfidence::High,
        prefix_char_length: 10,
        prefix_token_estimate: 2,
    }
}

fn gateway_config() -> GatewayConfig {
    GatewayConfig {
        default_timeout_ms: 30_000,
        stream_idle_timeout_ms: 30_000,
        max_retries: 1,
        health_check_interval_ms: 30_000,
        routing_policy: RoutingPolicy::Priority,
        prefix_affinity: PrefixAffinityConfig::default(),
        route_exposure: RouteExposureConfig::default(),
        model_aliases: StrMap::new(),
        retry: GatewayRetryConfig::default(),
        circuit_breaker: GatewayCircuitBreakerConfig::default(),
        enable_request_logging: true,
        log_prompt_content: false,
        api_key_env: "RUSTYGATE_API_KEY".into(),
        rate_limit: RateLimitConfig::default(),
        request_limits: RequestLimitsConfig::default(),
        admission: AdmissionConfig::default(),
    }
}

fn provider_config(name: &str, model: &str) -> ProviderConfig {
    ProviderConfig {
        name: name.into(),
        kind: ProviderKind::Mock,
        model: model.into(),
        priority: 1,
        base_latency_ms: 0,
        base_url: None,
        api_key_env: None,
        timeout_ms: None,
        max_retries: None,
        retry_initial_backoff_ms: None,
        retry_max_backoff_ms: None,
        retry_jitter_ms: None,
        circuit_breaker_failure_threshold: None,
        circuit_breaker_open_duration_ms: None,
        circuit_breaker_half_open_max_probes: None,
        max_in_flight: None,
    }
}

const NUMERIC_OK: ProviderNumericChecks =
    ProviderNumericChecks { failure_rate_in_range: true, input_cost_non_negative: true, output_cost_non_negative: true };

#[test]
fn formatted_key_parses_back_to_its_prefix() {
    let raw = format_raw_key("abcd1234", "s3cr3t_with_underscore");
    assert_eq!(raw, "rgk_abcd1234_s3cr3t_with_underscore");
    assert_eq!(parse_key_prefix(&raw).unwrap(), "abcd1234");
}

#[test]
fn generated_key_parses_back_to_its_prefix() {
    let key = generate_api_key();
    assert_eq!(key.prefix.len(), 8);
    assert!(key.raw_key.starts_with("rgk_"));
    assert_eq!(key.raw_key.len(), 4 + 8 + 1 + 64);
    assert_eq!(parse_key_prefix(&key.raw_key).unwrap(), key.prefix);
    let other = generate_api_key();
    assert_ne!(key.raw_key, other.raw_key);
}

#[test]
fn malformed_keys_are_rejected() {
    for raw in ["rgk_abc", "xyz_abc_def", "rgk__secret", "rgk_abc_", "", "rgkabc_def_ghi"] {
        assert!(matches!(parse_key_prefix(raw), Err(AuthError::InvalidKeyFormat)), "{raw}");
    }
}

#[test]
fn hashed_key_verifies_and_others_do_not() {
    let hash = hash_key("rgk_abcd1234_secret").unwrap();
    assert!(verify_key("rgk_abcd1234_secret", &hash).unwrap());
    assert!(!verify_key("rgk_abcd1234_other", &hash).unwrap());
    assert!(matches!(verify_key("rgk_abcd1234_secret", "not-a-hash"), Err(AuthError::Hash)));
}

#[test]
fn static_key_store_matches_only_its_key() {
    let store = StaticKeyStore::new("dev-key".to_string());
    assert!(store.matches("dev-key"));
    assert!(!store.matches("dev-key2"));
    assert!(!store.matches(""));
}

#[test]
fn key_roles_parse_and_grant_access() {
    assert_eq!(KeyRole::parse("admin").unwrap(), KeyRole::Admin);
    assert_eq!("observability".parse::<KeyRole>().unwrap(), KeyRole::Observability);
    assert!(matches!(KeyRole::parse("root"), Err(AuthError::InvalidRole(r)) if r == "root"));
    assert_eq!(KeyRole::Inference.as_str(), "inference");
    assert!(KeyRole::Admin.allows_inference() && KeyRole::Admin.allows_observability());
    assert!(KeyRole::Inference.allows_inference() && !KeyRole::Inference.allows_observability());
    assert!(!KeyRole::Observability.allows_inference() && KeyRole::Observability.allows_observability());
}

#[test]
fn quota_decisions_follow_daily_limits() {
    let now = 86_400 * 3 + 400;
    assert_eq!(day_of(now), 3);
    assert_eq!(seconds_until_next_day_at(now), 86_000);
    assert_eq!(quota_decision(None, false, None, now), Ok(()));
    assert_eq!(quota_decision(Some(10), false, None, now), Err(QuotaRejection { retry_after_seconds: 86_000 }));
    let under = QuotaUsage { total_tokens: 9, cost_quota_reached: false };
    let at = QuotaUsage { total_tokens: 10, cost_quota_reached: false };
    assert_eq!(quota_decision(Some(10), false, Some(under), now), Ok(()));
    assert_eq!(quota_decision(Some(10), false, Some(at), now), Err(QuotaRejection { retry_after_seconds: 86_000 }));
    let costly = QuotaUsage { total_tokens: 0, cost_quota_reached: true };
    assert!(quota_decision(None, true, Some(costly), now).is_err());
}

#[test]
fn sha256_hex_matches_known_digest() {
    assert_eq!(sha256_hex(b"abc"), "ba7816bf8f01cfea414140de5dae2223b00361a396177a9cb410ff61f20015ad");
    assert_eq!(sha256_hex(b""), "e3b0c44298fc1c149afbf4c8996fb92427ae41e4649b934ca495991b7852b855");
}

#[test]
fn rendezvous_score_hashes_fingerprint_and_provider() {
    let score = rendezvous_score("fp", "replica-a");
    assert_eq!(score.len(), 32);
    assert_eq!(score, rendezvous_score("fp", "replica-a"));
    assert_ne!(score, rendezvous_score("fp", "replica-b"));
    let expected = sha256_hex(b"fp:replica-a");
    let hex: String = score.iter().map(|b| format!("{b:02x}")).collect();
    assert_eq!(hex, expected);
}

#[test]
fn cache_keys_only_for_cacheable_requests() {
    let mut request = user_request("m", "hello");
    assert!(is_cacheable(&request));
    let key = cache_key_from_canonical(&request, Some(b"canonical")).unwrap();
    assert_eq!(key.as_str(), sha256_hex(b"canonical"));
    assert!(cache_key_from_canonical(&request, None).is_none());
    request.temperature_bits = Some(1.0f32.to_bits());
    assert!(!is_cacheable(&request));
    assert!(cache_key_from_canonical(&request, Some(b"canonical")).is_none());
    request.temperature_bits = Some(0.0f32.to_bits());
    request.stream = Some(true);
    assert!(cache_key_from_canonical(&request, Some(b"canonical")).is_none());
}

#[test]
fn temperature_sign_is_read_from_bits() {
    assert!(temperature_is_positive(Some(0.7f32.to_bits())));
    assert!(temperature_is_positive(Some(f32::INFINITY.to_bits())));
    assert!(!temperature_is_positive(Some(0.0f32.to_bits())));
    assert!(!temperature_is_positive(Some((-0.0f32).to_bits())));
    assert!(!temperature_is_positive(Some((-1.0f32).to_bits())));
    assert!(!temperature_is_positive(Some(f32::NAN.to_bits())));
    assert!(!temperature_is_positive(None));
}

#[test]
fn cache_plan_covers_each_case() {
    assert!(matches!(cache_plan(false, true, true, None), CachePlan::NoCache));
    assert!(matches!(cache_plan(true, false, true, None), CachePlan::Skip("skip_disabled")));
    assert!(matches!(cache_plan(true, true, true, None), CachePlan::Lookup));
    assert!(matches!(cache_plan(true, true, false, Some(1.0f32.to_bits())), CachePlan::Skip("skip_temperature")));
    assert!(matches!(cache_plan(true, true, false, None), CachePlan::Skip("skip_tools")));
}

#[test]
fn policies_order_candidates() {
    let entries = vec![entry("b-cheap", 2, 0, 2), entry("a-fast", 2, 1, 0), entry("c-first", 1, 2, 1)];
    let pools = ModelPoolIndex::new();
    let by_priority = candidate_providers(&entries, Some("m"), RoutingPolicy::Priority, &pools);
    assert_eq!(names(&entries, &by_priority), vec!["c-first", "a-fast", "b-cheap"]);
    let by_cost = candidate_providers(&entries, Some("m"), RoutingPolicy::Cost, &pools);
    assert_eq!(names(&entries, &by_cost), vec!["b-cheap", "a-fast", "c-first"]);
    let by_latency = candidate_providers(&entries, Some("m"), RoutingPolicy::Latency, &pools);
    assert_eq!(names(&entries, &by_latency), vec!["a-fast", "c-first", "b-cheap"]);
    assert!(candidate_providers(&entries, None, RoutingPolicy::Priority, &pools).is_empty());
    assert_eq!(select_provider(&entries, Some("m"), &pools), Some(2));
}

#[test]
fn pools_restrict_candidates_and_override_policy() {
    let mut entries = vec![entry("x", 1, 5, 0), entry("y", 2, 0, 0), entry("z", 3, 0, 0)];
    entries[2].supports_requested_model = false;
    let pools = ModelPoolIndex::from_configs(&[pool("shared", &["x", "y"], Some(RoutingPolicy::Cost))]);
    let order = candidate_providers(&entries, Some("shared"), RoutingPolicy::Priority, &pools);
    assert_eq!(names(&entries, &order), vec!["y", "x"]);
    let direct = candidate_providers(&entries, Some("other"), RoutingPolicy::Priority, &pools);
    assert_eq!(names(&entries, &direct), vec!["x", "y"]);
}

#[test]
fn routing_reasons_name_the_policy() {
    let mut e = entry("a", 1, 0, 0);
    assert_eq!(routing_decision_reason(RoutingPolicy::Priority, Some(&e)), "priority");
    assert_eq!(routing_decision_reason(RoutingPolicy::Cost, None), "lowest_cost");
    assert_eq!(routing_decision_reason(RoutingPolicy::Latency, None), "no_provider");
    assert_eq!(routing_decision_reason(RoutingPolicy::Latency, Some(&e)), "no_latency_data");
    e.has_avg_latency = true;
    assert_eq!(routing_decision_reason(RoutingPolicy::Latency, Some(&e)), "average_latency");
    e.has_p95_latency = true;
    assert_eq!(routing_decision_reason(RoutingPolicy::Latency, Some(&e)), "recent_latency_p95");
}

#[test]
fn aliases_resolve_to_targets() {
    let mut aliases = StrMap::new();
    aliases.insert("fast".to_string(), "mock-fast-v1".to_string());
    assert_eq!(resolve_model_alias(&aliases, "fast"), "mock-fast-v1");
    assert_eq!(resolve_model_alias(&aliases, "other"), "other");
}

#[test]
fn reordering_helpers_keep_every_candidate() {
    let mut entries = vec![entry("a", 1, 0, 0), entry("b", 1, 0, 0), entry("c", 1, 0, 0)];
    entries[0].in_flight = 5;
    entries[1].recent_errors = 1;
    let front = move_provider_to_front(&entries, vec![0, 1, 2], "c");
    assert_eq!(front, vec![2, 0, 1]);
    assert_eq!(load_score(&entries[0], None), 5);
    assert_eq!(load_score(&entries[1], None), 1_000);
    let by_load = order_by_load_then_baseline(&entries, vec![0, 1, 2], None);
    assert_eq!(by_load, vec![2, 0, 1]);
}

#[test]
fn prefix_affinity_routes_repeat_prefixes_to_the_same_provider() {
    let entries = vec![entry("replica-a", 1, 0, 0), entry("replica-b", 1, 0, 0)];
    let pools = ModelPoolIndex::from_configs(&[pool("shared", &["replica-a", "replica-b"], Some(RoutingPolicy::PrefixAffinity))]);
    let config = PrefixAffinityConfig { fallback_policy: RoutingPolicy::Priority, ..PrefixAffinityConfig::default() };
    let mut index = PrefixAffinityIndex::new(&config);
    let fingerprint = high_fingerprint("fp-1");
    let first = candidate_providers_with_affinity(
        &entries,
        Some("shared"),
        RoutingPolicy::Priority,
        &pools,
        None,
        Some(PrefixAffinityRouting { config: &config, fingerprint: &fingerprint }),
        &mut index,
    );
    assert_eq!(first.reason, "prefix_miss");
    assert_eq!(first.effective_policy, RoutingPolicy::PrefixAffinity);
    let chosen = entries[first.candidates[0]].name.clone();
    index.record("fp-1", &chosen);
    let second = candidate_providers_with_affinity(
        &entries,
        Some("shared"),
        RoutingPolicy::Priority,
        &pools,
        None,
        Some(PrefixAffinityRouting { config: &config, fingerprint: &fingerprint }),
        &mut index,
    );
    assert_eq!(second.reason, "prefix_hit");
    assert_eq!(entries[second.candidates[0]].name, chosen);
    assert_eq!(second.candidates.len(), 2);

    let low = PrefixFingerprintResult { fingerprint: None, confidence: PrefixFingerprintConfidence::Low, prefix_char_length: 0, prefix_token_estimate: 0 };
    let fallback = candidate_providers_with_affinity(
        &entries,
        Some("shared"),
        RoutingPolicy::Priority,
        &pools,
        None,
        Some(PrefixAffinityRouting { config: &config, fingerprint: &low }),
        &mut index,
    );
    assert_eq!(fallback.reason, "fallback");
    let none = candidate_providers_with_affinity(&entries, None, RoutingPolicy::Cost, &pools, None, None, &mut index);
    assert_eq!(none.reason, "no_provider");
    assert!(none.candidates.is_empty());
}

#[test]
fn open_circuits_go_last_under_affinity() {
    let entries = vec![entry("replica-a", 1, 0, 0), entry("replica-b", 2, 0, 0)];
    let pools = ModelPoolIndex::from_configs(&[pool("shared", &["replica-a", "replica-b"], Some(RoutingPolicy::PrefixAffinity))]);
    let config = PrefixAffinityConfig { fallback_policy: RoutingPolicy::Priority, ..PrefixAffinityConfig::default() };
    let mut index = PrefixAffinityIndex::new(&config);
    let mut registry: ResilienceRegistry = default_resilience_registry(&["replica-a".to_string(), "replica-b".to_string()]);
    for _ in 0..10 {
        registry.record_failure("replica-a");
        registry.record_failure("replica-b");
    }
    let fingerprint = high_fingerprint("fp-2");
    let selection = candidate_providers_with_affinity(
        &entries,
        Some("shared"),
        RoutingPolicy::Priority,
        &pools,
        Some(&registry),
        Some(PrefixAffinityRouting { config: &config, fingerprint: &fingerprint }),
        &mut index,
    );
    assert_eq!(selection.reason, "circuit_open");
    assert_eq!(selection.candidates, vec![0, 1]);
}

#[test]
fn chat_admission_validates_budgets_and_slots() {
    let limits = ChatValidationLimits::default();
    let mut aliases = StrMap::new();
    aliases.insert("fast".to_string(), "mock-fast-v1".to_string());
    let pools = ModelPoolIndex::new();
    let mut admission = AdmissionController::new(AdmissionLimits::unlimited(1));

    let mut empty = user_request("fast", "hi");
    empty.messages.clear();
    let rejection = admit_chat_request(&mut empty, None, &limits, &aliases, &pools, &mut admission).unwrap_err();
    assert_eq!(rejection.category, RequestErrorCategory::InvalidRequest);
    assert!(rejection.admission_reason.is_none());

    let mut ok = user_request("fast", "hi");
    let guard = admit_chat_request(&mut ok, None, &limits, &aliases, &pools, &mut admission);
    assert!(guard.is_ok());
    assert_eq!(ok.model.as_deref(), Some("mock-fast-v1"));

    let mut tight = AdmissionLimits::unlimited(1);
    tight.max_estimated_prompt_tokens = Some(1);
    let mut strict = AdmissionController::new(tight);
    let mut long = user_request("m", "three whole words");
    let rejection = admit_chat_request(&mut long, None, &limits, &aliases, &pools, &mut strict).unwrap_err();
    assert_eq!(rejection.admission_reason, Some(AdmissionRejectionReason::MaxEstimatedPromptTokens));
    assert!(matches!(rejection.error, AppError::InvalidRequest { ref message, .. } if message == "estimated prompt token limit exceeded"));

    let mut one = AdmissionLimits::unlimited(7);
    one.max_global_in_flight = Some(1);
    let mut single = AdmissionController::new(one);
    let mut first = user_request("m", "a");
    let _held = admit_chat_request(&mut first, None, &limits, &aliases, &pools, &mut single).unwrap();
    let mut second = user_request("m", "b");
    let rejection = admit_chat_request(&mut second, None, &limits, &aliases, &pools, &mut single).unwrap_err();
    assert_eq!(rejection.category, RequestErrorCategory::AdmissionRejected);
    assert_eq!(rejection.admission_reason, Some(AdmissionRejectionReason::GlobalInFlightLimit));
    assert!(matches!(rejection.error, AppError::AdmissionRejected { retry_after_seconds: 7, .. }));
}

#[test]
fn routing_failures_map_to_answers() {
    let none = fallback_failure(FallbackError::NoProviderAvailable, None);
    assert!(matches!(none.error, AppError::NoProviderAvailable { .. }));
    assert_eq!(none.category, Some(RequestErrorCategory::NoProviderAvailable));
    let attempts = vec![ProviderAttempt {
        provider_name: "p".into(),
        attempt_order: 1,
        latency_ms: 3,
        success: false,
        is_fallback: false,
        error_category: Some(ProviderErrorCategory::RateLimited),
    }];
    let failed = fallback_failure(FallbackError::ProviderFailed { error: ProviderError::RateLimited, attempts }, None);
    assert!(matches!(failed.error, AppError::ProviderRateLimited { .. }));
    assert_eq!(failed.category, Some(RequestErrorCategory::RateLimited));
    assert_eq!(failed.attempts.len(), 1);
}

#[test]
fn stream_relay_settles_each_ending() {
    let mut attempts = vec![ProviderAttempt {
        provider_name: "p".into(),
        attempt_order: 1,
        latency_ms: 3,
        success: true,
        is_fallback: false,
        error_category: None,
    }];
    let mut relay = StreamRelay::new(None);
    assert!(matches!(relay.on_event(RelayEvent::Chunk, None, &mut attempts, 5), RelayAction::Forward));
    let usage = TokenUsage { prompt_tokens: 1, completion_tokens: 2, total_tokens: 3 };
    assert!(matches!(relay.on_event(RelayEvent::Completed(usage), None, &mut attempts, 5), RelayAction::Complete));
    assert!(relay.is_finished());
    assert!(matches!(relay.settle(), StreamSettlement::Success(u) if u == usage));

    let mut timed_out = StreamRelay::new(None);
    assert!(matches!(timed_out.on_event(RelayEvent::IdleTimeout, None, &mut attempts, 9), RelayAction::Fail(AppError::ProviderTimeout { .. })));
    assert!(matches!(
        timed_out.settle(),
        StreamSettlement::Failure { category: RequestErrorCategory::Timeout, outcome: StreamOutcome::IdleTimeout }
    ));
    assert!(!attempts[0].success);
    assert_eq!(attempts[0].latency_ms, 9);
    assert_eq!(attempts[0].error_category, Some(ProviderErrorCategory::Timeout));

    let mut bounded = StreamRelay::new(Some(10));
    assert!(matches!(bounded.on_event(RelayEvent::TextDelta { chars: 6 }, None, &mut attempts, 1), RelayAction::Forward));
    assert!(matches!(bounded.on_event(RelayEvent::TextDelta { chars: 5 }, None, &mut attempts, 1), RelayAction::Fail(_)));
    assert!(matches!(bounded.settle(), StreamSettlement::Failure { outcome: StreamOutcome::MidStreamFailure, .. }));

    let mut ended = StreamRelay::new(None);
    ended.on_event(RelayEvent::Ended, None, &mut attempts, 1);
    assert!(matches!(ended.settle(), StreamSettlement::Failure { outcome: StreamOutcome::Incomplete, .. }));
}

#[test]
fn model_list_hides_pool_internal_models() {
    let providers = vec![
        ProviderModel { name: "p1".into(), model: "internal-a".into() },
        ProviderModel { name: "p2".into(), model: "internal-a".into() },
        ProviderModel { name: "p3".into(), model: "public-b".into() },
    ];
    let pools = ModelPoolIndex::from_configs(&[ModelPoolConfig {
        name: "gateway-model".into(),
        aliases: vec!["gm".into()],
        members: vec!["p2".into(), "p1".into()],
        routing_policy: None,
        max_in_flight: None,
    }]);
    let mut aliases = StrMap::new();
    aliases.insert("b".to_string(), "public-b".to_string());
    aliases.insert("nowhere".to_string(), "missing".to_string());
    let list = list_models(&providers, &pools, &aliases);
    assert_eq!(list.object, "list");
    let ids: Vec<&str> = list.data.iter().map(|m| m.id.as_str()).collect();
    assert_eq!(ids, vec!["b", "gateway-model", "gm", "public-b"]);
    assert_eq!(list.data[0].resolved_model, "public-b");
    assert_eq!(list.data[0].providers, vec!["p3".to_string()]);
    assert_eq!(list.data[1].providers, vec!["p1".to_string(), "p2".to_string()]);
    assert!(list.data.iter().all(|m| m.object == "model" && m.created == 1_700_000_000 && m.owned_by == "rustygate"));
}

#[test]
fn configuration_checks_report_each_problem() {
    let mut errors = Vec::new();
    validate_storage_config(&StorageConfig { enabled: true, database_url: "  ".into(), retention_days: 0 }, &mut errors);
    assert_eq!(errors, vec![
        "storage.database_url must not be empty when storage is enabled".to_string(),
        "storage.retention_days must be greater than 0 when storage is enabled".to_string(),
    ]);

    let gateway = gateway_config();
    let mut provider = provider_config("p", "m");
    provider.retry_initial_backoff_ms = Some(500);
    provider.retry_max_backoff_ms = Some(0);
    let mut errors = Vec::new();
    validate_provider_retry(&provider, &gateway, &mut errors);
    assert_eq!(errors, vec![
        "provider `p` retry_max_backoff_ms must be greater than 0".to_string(),
        "provider `p` retry_max_backoff_ms must be greater than or equal to retry_initial_backoff_ms".to_string(),
    ]);

    let mut gateway = gateway_config();
    gateway.model_aliases.insert("fast".to_string(), "unknown-model".to_string());
    let mut real = provider_config("p", "m");
    real.kind = ProviderKind::Anthropic;
    let providers = vec![provider_config("p", "m"), real];
    let mut errors = Vec::new();
    validate_providers(&providers, &[NUMERIC_OK, NUMERIC_OK], &gateway, &mut errors);
    assert_eq!(errors, vec![
        "gateway.model_aliases target `unknown-model` must match a configured provider model".to_string(),
        "duplicate provider name `p`".to_string(),
        "provider `p` api_key_env is required for real providers".to_string(),
    ]);
    assert_eq!(join_errors(&errors), format!("{}; {}; {}", errors[0], errors[1], errors[2]));

    let mut errors = Vec::new();
    validate_providers(&[], &[], &gateway_config(), &mut errors);
    assert_eq!(errors, vec!["at least one provider must be configured".to_string()]);
}

#[test]
fn queue_pressure_counts_started_token_blocks() {
    assert_eq!(ProviderLoadEstimate { prompt_tokens: 0, max_completion_tokens: None }.queue_pressure_units(), 1);
    assert_eq!(ProviderLoadEstimate { prompt_tokens: 1024, max_completion_tokens: None }.queue_pressure_units(), 2);
    assert_eq!(ProviderLoadEstimate { prompt_tokens: 1000, max_completion_tokens: Some(25) }.queue_pressure_units(), 3);
    assert_eq!(ProviderLoadEstimate { prompt_tokens: u32::MAX, max_completion_tokens: Some(5) }.queue_pressure_units(), 4_194_305);
}

#[test]
fn label_values_are_escaped() {
    assert_eq!(escape_label_value("a\"b\\c\nd"), "a\\\"b\\\\c\\nd");
    assert_eq!(escape_label_value("plain"), "plain");
}

#[test]
fn health_and_readiness_answers() {
    let health = health_response();
    assert_eq!((health.status, health.service), ("ok", "rustygate"));
    let empty = ProviderHealthRegistry::new(&[]);
    let (code, body) = ready_response(&empty, ReadyQuery { detail: false });
    assert_eq!((code, body.status), (503, "not_ready"));
    assert!(body.providers.is_none());
    let mut registry = ProviderHealthRegistry::new(&["p".to_string()]);
    registry.record_failure("p", &ProviderError::Timeout);
    let (code, body) = ready_response(&registry, ReadyQuery { detail: false });
    assert_eq!((code, body.status), (503, "not_ready"));
    registry.record_success("p");
    let (code, body) = ready_response(&registry, ReadyQuery { detail: true });
    assert_eq!((code, body.status), (200, "ready"));
    let providers = body.providers.unwrap();
    assert_eq!(providers.len(), 1);
    assert_eq!(providers[0].0, "p");
    assert_eq!(providers[0].1.status, "healthy");
}

#[test]
fn stable_prefix_stops_at_last_user_message() {
    let mut request = user_request("m", "first");
    request.messages.push(ChatMessage { role: ChatRole::Assistant, content: "answer".into(), tool_calls: None, tool_call_id: None });
    request.messages.push(ChatMessage { role: ChatRole::User, content: "second".into(), tool_calls: None, tool_call_id: None });
    assert_eq!(stable_prefix_len(&request.messages), 2);
    request.messages.pop();
    request.messages.remove(0);
    assert_eq!(stable_prefix_len(&request.messages), 1);
    assert_eq!(normalize_text("  a \t b\n"), "a b");
}
