use rustygate::config::{PrefixAffinityConfig, RoutingPolicy};
use rustygate::models::chat::{ChatRole, ToolCallDelta, ToolCallDeltaFunction};
use rustygate::providers::anthropic_tool_translation::{AnthropicContentBlock, AnthropicToolStreamTranslator};
use rustygate::providers::openai_compatible::{add_stream_output, MAX_STREAM_OUTPUT_CHARS};
use rustygate::providers::provider::ProviderError;
use rustygate::routing::fallback::{deterministic_jitter_ms, retry_backoff_ms, ProviderErrorCategory};
use rustygate::routing::health::{ProviderHealthRegistry, ProviderHealthStatus};
use rustygate::routing::prefix_affinity::PrefixAffinityIndex;
use rustygate::routing::resilience::{
    CircuitBreakerPolicy, CircuitState, ProviderResiliencePolicy, ResilienceRegistry, RetryPolicy,
};
use rustygate::strmap::StrMap;

fn breaker_registry(breaker: CircuitBreakerPolicy) -> ResilienceRegistry {
    let policy = ProviderResiliencePolicy { breaker, ..ProviderResiliencePolicy::default() };
    ResilienceRegistry::new(policy, StrMap::new(), &["p".to_string()])
}

#[test]
fn open_breaker_refuses_until_its_duration_has_passed() {
    let mut r = breaker_registry(CircuitBreakerPolicy { failure_threshold: 2, open_duration_ms: 1_000, half_open_max_probes: 2 });
    assert!(r.allow_provider_call_at("p", 0));
    r.record_failure_at("p", 0);
    assert_eq!(r.circuit_state("p"), CircuitState::Closed);
    r.record_failure_at("p", 10);
    assert_eq!(r.circuit_state("p"), CircuitState::Open);

    assert!(!r.allow_provider_call_at("p", 500));
    assert!(!r.allow_provider_call_at("p", 1_009));
    assert_eq!(r.circuit_state("p"), CircuitState::Open);
    assert!(r.allow_provider_call_at("p", 1_010));
    assert_eq!(r.circuit_state("p"), CircuitState::HalfOpen);
}

#[test]
fn half_open_breaker_allows_its_probe_budget() {
    let mut r = breaker_registry(CircuitBreakerPolicy { failure_threshold: 1, open_duration_ms: 100, half_open_max_probes: 2 });
    r.record_failure_at("p", 0);
    assert!(r.allow_provider_call_at("p", 100));
    assert!(r.allow_provider_call_at("p", 101));
    assert!(!r.allow_provider_call_at("p", 102));
    assert_eq!(r.circuit_state("p"), CircuitState::HalfOpen);
}

#[test]
fn failed_probe_reopens_the_breaker_from_the_failure_time() {
    let mut r = breaker_registry(CircuitBreakerPolicy { failure_threshold: 1, open_duration_ms: 100, half_open_max_probes: 1 });
    r.record_failure_at("p", 0);
    assert!(r.allow_provider_call_at("p", 150));
    r.record_failure_at("p", 160);
    assert_eq!(r.circuit_state("p"), CircuitState::Open);
    assert!(!r.allow_provider_call_at("p", 259));
    assert!(r.allow_provider_call_at("p", 260));
    r.record_success("p");
    assert_eq!(r.circuit_state("p"), CircuitState::Closed);
}

#[test]
fn zero_failure_threshold_opens_on_the_first_failure() {
    let mut r = breaker_registry(CircuitBreakerPolicy { failure_threshold: 0, open_duration_ms: 100, half_open_max_probes: 0 });
    r.record_failure_at("p", 5);
    assert_eq!(r.circuit_state("p"), CircuitState::Open);
    assert!(r.allow_provider_call_at("p", 105));
    assert!(!r.allow_provider_call_at("p", 106));
}

fn affinity(ttl_seconds: u64, max_entries: usize) -> PrefixAffinityIndex {
    PrefixAffinityIndex::new(&PrefixAffinityConfig {
        ttl_seconds,
        max_entries,
        load_imbalance_threshold: 2,
        fallback_policy: RoutingPolicy::Priority,
    })
}

#[test]
fn affinity_expires_after_its_ttl() {
    let mut index = affinity(1, 8);
    index.record_at("fp", "replica-a", 0);
    assert_eq!(index.lookup_at("fp", 1_000), Some("replica-a".to_string()));
    assert_eq!(index.lookup_at("fp", 1_001), None);
    assert_eq!(index.lookup_at("fp", 0), None);
}

#[test]
fn affinity_evicts_the_least_recently_used_entry() {
    let mut index = affinity(60, 2);
    index.record_at("fp-a", "replica-a", 0);
    index.record_at("fp-b", "replica-b", 1);
    assert_eq!(index.lookup_at("fp-a", 2), Some("replica-a".to_string()));
    index.record_at("fp-c", "replica-c", 3);
    assert_eq!(index.lookup_at("fp-b", 4), None);
    assert_eq!(index.lookup_at("fp-a", 4), Some("replica-a".to_string()));
    assert_eq!(index.lookup_at("fp-c", 4), Some("replica-c".to_string()));
}

#[test]
fn retry_backoff_doubles_up_to_the_cap_plus_jitter() {
    let policy = RetryPolicy { max_retries: 4, initial_backoff_ms: 100, max_backoff_ms: 500, jitter_ms: 25 };
    assert_eq!(retry_backoff_ms(policy, 1, "a"), 110);
    assert_eq!(retry_backoff_ms(policy, 3, "a"), 418);
    assert_eq!(retry_backoff_ms(policy, 4, "a"), 509);
    let no_jitter = RetryPolicy { jitter_ms: 0, ..policy };
    assert_eq!(retry_backoff_ms(no_jitter, 2, "a"), 200);
    let low_cap = RetryPolicy { max_retries: 2, initial_backoff_ms: 300, max_backoff_ms: 100, jitter_ms: 0 };
    assert_eq!(retry_backoff_ms(low_cap, 2, "a"), 300);
}

#[test]
fn jitter_is_derived_from_the_name_and_retry() {
    assert_eq!(deterministic_jitter_ms("ab", 2, 0), 0);
    assert_eq!(deterministic_jitter_ms("ab", 2, 1_000), 229);
    assert_eq!(deterministic_jitter_ms("ab", 2, 100), 27);
}

#[test]
fn readiness_counts_unknown_providers_as_ready() {
    let names = vec!["a".to_string(), "b".to_string()];
    let mut health = ProviderHealthRegistry::new(&names);
    assert!(health.any_provider_ready());
    health.record_failure_at("a", &ProviderError::Timeout, 100);
    health.record_failure_at("b", &ProviderError::ProviderUnavailable, 101);
    assert!(!health.any_provider_ready());
    health.record_success_at("b", 200);
    assert!(health.any_provider_ready());

    let snapshot = health.snapshot();
    let a = snapshot.iter().find(|(name, _)| name == "a").map(|(_, s)| *s).unwrap();
    assert_eq!(a.status, ProviderHealthStatus::Unhealthy);
    assert_eq!(a.checked_at_unix_seconds, Some(100));
    assert_eq!(a.error_category, Some(ProviderErrorCategory::Timeout));
    let b = snapshot.iter().find(|(name, _)| name == "b").map(|(_, s)| *s).unwrap();
    assert_eq!(b.status, ProviderHealthStatus::Healthy);
    assert_eq!(b.error_category, None);
}

fn block(kind: &str, id: Option<&str>, name: Option<&str>) -> AnthropicContentBlock {
    AnthropicContentBlock {
        kind: kind.to_string(),
        text: None,
        id: id.map(|s| s.to_string()),
        name: name.map(|s| s.to_string()),
        input: None,
    }
}

#[test]
fn anthropic_tool_stream_becomes_tool_call_deltas() {
    let mut translator = AnthropicToolStreamTranslator::new();
    assert!(translator.input_json_delta("{}".to_string()).is_none());
    assert!(translator.content_block_start(0, &block("text", None, None)).is_none());

    let opened = translator.content_block_start(1, &block("tool_use", Some("toolu_1"), Some("lookup"))).unwrap();
    assert_eq!(opened.role, Some(ChatRole::Assistant));
    assert_eq!(opened.content, None);
    assert_eq!(
        opened.tool_calls,
        Some(vec![ToolCallDelta {
            index: 1,
            id: Some("toolu_1".to_string()),
            kind: Some("function".to_string()),
            function: Some(ToolCallDeltaFunction { name: Some("lookup".to_string()), arguments: Some(String::new()) }),
        }])
    );

    let fragment = translator.input_json_delta("{\"q\":".to_string()).unwrap();
    assert_eq!(fragment.role, None);
    assert_eq!(
        fragment.tool_calls,
        Some(vec![ToolCallDelta {
            index: 1,
            id: None,
            kind: None,
            function: Some(ToolCallDeltaFunction { name: None, arguments: Some("{\"q\":".to_string()) }),
        }])
    );
}

#[test]
fn sse_stream_split_anywhere_yields_the_same_events() {
    let whole = "data: first\n\nevent: x\ndata: second\ndata: line\n\ndata: tail";
    let mut one = rustygate::providers::sse::SseDataParser::new();
    let expected = one.push_chunk(whole).ok().unwrap();
    assert_eq!(expected, vec!["first".to_string(), "second\nline".to_string()]);
    for cut in 0..=whole.len() {
        let mut split = rustygate::providers::sse::SseDataParser::new();
        let mut events = split.push_chunk(&whole[..cut]).ok().unwrap();
        events.extend(split.push_chunk(&whole[cut..]).ok().unwrap());
        assert_eq!(events, expected, "split at {cut}");
    }
}

#[test]
fn openai_stream_output_is_capped() {
    assert_eq!(add_stream_output(0, "héllo"), Some(5));
    assert_eq!(add_stream_output(MAX_STREAM_OUTPUT_CHARS - 2, "ab"), Some(MAX_STREAM_OUTPUT_CHARS));
    assert_eq!(add_stream_output(MAX_STREAM_OUTPUT_CHARS - 2, "abc"), None);
    assert_eq!(add_stream_output(MAX_STREAM_OUTPUT_CHARS + 1, ""), None);
}
