use rustygate::config::{PrefixAffinityConfig, RoutingPolicy};
use rustygate::models::chat::{ChatCompletionRequest, ChatMessage, ChatRole, Tool, ToolChoice, ToolChoiceMode, ToolFunction};
use rustygate::models::responses::{ResponseInput, ResponseRequest};
use rustygate::providers::anthropic::split_system_messages;
use rustygate::providers::openai_compatible::map_http_status;
use rustygate::providers::provider::ProviderError;
use rustygate::providers::sse::SseDataParser;
use rustygate::routing::prefix_affinity::PrefixAffinityIndex;
use rustygate::routing::prefix_fingerprint::{
    analyze_prefix, fingerprint_from_analysis, PrefixAnalysis, PrefixFingerprintConfidence, PrefixFingerprintResult,
};
use rustygate::routing::resilience::{CircuitBreakerPolicy, CircuitState, ProviderResiliencePolicy, ResilienceRegistry};
use rustygate::strmap::StrMap;
use rustygate::telemetry::prometheus::{render_prometheus, PrometheusSnapshot};
use rustygate::telemetry::token_estimator::{estimate_tokens_for_messages, estimate_tokens_for_text};
use serde_json::Value;

fn message(role: ChatRole, content: &str) -> ChatMessage {
    ChatMessage { role, content: content.into(), tool_calls: None, tool_call_id: None }
}

fn role_name(role: ChatRole) -> &'static str {
    match role {
        ChatRole::Developer => "developer",
        ChatRole::System => "system",
        ChatRole::User => "user",
        ChatRole::Assistant => "assistant",
        ChatRole::Tool => "tool",
    }
}

fn object(pairs: Vec<(&str, Value)>) -> Value {
    let mut map = serde_json::Map::new();
    for (k, v) in pairs {
        map.insert(k.to_string(), v);
    }
    Value::Object(map)
}

fn optional_string(value: &Option<String>) -> Value {
    match value {
        Some(s) => Value::String(s.clone()),
        None => Value::Null,
    }
}

fn canonical_prefix(request: &ChatCompletionRequest, analysis: &PrefixAnalysis) -> Vec<u8> {
    let messages: Vec<Value> = analysis
        .messages
        .iter()
        .map(|m| {
            let source = &request.messages[m.source];
            object(vec![
                ("role", Value::String(role_name(m.role).into())),
                ("content", Value::String(m.content.clone())),
                ("tool_calls", if source.tool_calls.is_some() { Value::Bool(true) } else { Value::Null }),
                ("tool_call_id", optional_string(&source.tool_call_id)),
            ])
        })
        .collect();
    let tools = match &request.tools {
        Some(tools) => Value::Array(
            tools
                .iter()
                .map(|t| {
                    object(vec![
                        ("type", Value::String(t.kind.clone())),
                        ("name", Value::String(t.function.name.clone())),
                        ("description", optional_string(&t.function.description)),
                        ("parameters", t.function.parameters.clone()),
                    ])
                })
                .collect(),
        ),
        None => Value::Null,
    };
    let tool_choice = match &request.tool_choice {
        Some(ToolChoice::Mode(ToolChoiceMode::Disabled)) => Value::String("none".into()),
        Some(ToolChoice::Mode(ToolChoiceMode::Auto)) => Value::String("auto".into()),
        Some(ToolChoice::Mode(ToolChoiceMode::Required)) => Value::String("required".into()),
        Some(ToolChoice::Function { function, .. }) => Value::String(function.name.clone()),
        None => Value::Null,
    };
    let value = object(vec![
        ("version", Value::from(1)),
        ("model", Value::String(request.model.clone().unwrap_or_default())),
        ("messages", Value::Array(messages)),
        ("tools", tools),
        ("tool_choice", tool_choice),
        ("parallel_tool_calls", match request.parallel_tool_calls {
            Some(b) => Value::Bool(b),
            None => Value::Null,
        }),
        ("response_format", request.response_format.clone().unwrap_or(Value::Null)),
    ]);
    serde_json::to_vec(&value).unwrap()
}

fn fingerprint_request(request: &ChatCompletionRequest) -> PrefixFingerprintResult {
    let analysis = analyze_prefix(request);
    let encoded = if analysis.has_high_value_prefix { Some(canonical_prefix(request, &analysis)) } else { None };
    fingerprint_from_analysis(&analysis, encoded.as_deref())
}

fn request_with_final_user_text(final_user_text: &str) -> ChatCompletionRequest {
    ChatCompletionRequest {
        model: Some("mock-fast-v1".into()),
        messages: vec![message(ChatRole::System, "You are a helpful assistant."), message(ChatRole::User, final_user_text)],
        temperature_bits: None,
        max_tokens: None,
        stream: None,
        tools: None,
        tool_choice: None,
        parallel_tool_calls: None,
        response_format: None,
    }
}

fn request_with_tools(name: &str) -> ChatCompletionRequest {
    let mut request = request_with_final_user_text("use the tool");
    let mut id = serde_json::Map::new();
    id.insert("type".into(), Value::String("string".into()));
    let mut properties = serde_json::Map::new();
    properties.insert("id".into(), Value::Object(id));
    let mut parameters = serde_json::Map::new();
    parameters.insert("type".into(), Value::String("object".into()));
    parameters.insert("properties".into(), Value::Object(properties));
    request.tools = Some(vec![Tool {
        kind: "function".into(),
        function: ToolFunction {
            name: name.into(),
            description: Some("Lookup data".into()),
            parameters: Value::Object(parameters),
            strict: Some(true),
        },
    }]);
    request
}

fn affinity_config(max_entries: usize) -> PrefixAffinityConfig {
    PrefixAffinityConfig { ttl_seconds: 60, max_entries, load_imbalance_threshold: 2, fallback_policy: RoutingPolicy::Latency }
}

fn single_provider_registry(policy: ProviderResiliencePolicy, name: &str) -> ResilienceRegistry {
    let mut policies = StrMap::new();
    policies.insert(name.to_string(), policy);
    ResilienceRegistry::new(ProviderResiliencePolicy::default(), policies, &[name.to_string()])
}

#[test]
fn system_messages_are_collapsed_for_anthropic_payload() {
    let (system, messages) = split_system_messages(vec![
        message(ChatRole::System, "First"),
        message(ChatRole::User, "Question"),
        message(ChatRole::System, "Second"),
    ]);

    assert_eq!(system.as_deref(), Some("First\n\nSecond"));
    assert_eq!(messages.len(), 1);
    assert_eq!(messages[0].role, "user");
}

#[test]
fn parser_collects_events_across_partial_chunks() {
    let mut parser = SseDataParser::default();
    let events = parser.push_chunk("data: {\"a\":1}\n\nda").unwrap();
    assert_eq!(events, vec!["{\"a\":1}".to_string()]);

    let events = parser.push_chunk("ta: {\"b\":2}\n\n").unwrap();
    assert_eq!(events, vec!["{\"b\":2}".to_string()]);
}

#[test]
fn breaker_transitions_to_open_after_threshold_failures() {
    let mut registry = single_provider_registry(
        ProviderResiliencePolicy {
            breaker: CircuitBreakerPolicy { failure_threshold: 2, open_duration_ms: 10_000, half_open_max_probes: 1 },
            ..ProviderResiliencePolicy::default()
        },
        "mock-primary",
    );

    assert!(registry.allow_provider_call("mock-primary"));
    registry.record_failure("mock-primary");
    assert_eq!(registry.circuit_state("mock-primary"), CircuitState::Closed);

    registry.record_failure("mock-primary");
    assert_eq!(registry.circuit_state("mock-primary"), CircuitState::Open);
    assert!(!registry.allow_provider_call("mock-primary"));
}

#[test]
fn half_open_probe_success_closes_circuit() {
    let mut registry = single_provider_registry(
        ProviderResiliencePolicy {
            breaker: CircuitBreakerPolicy { failure_threshold: 1, open_duration_ms: 0, half_open_max_probes: 1 },
            ..ProviderResiliencePolicy::default()
        },
        "mock-primary",
    );

    registry.record_failure("mock-primary");
    assert_eq!(registry.circuit_state("mock-primary"), CircuitState::Open);

    assert!(registry.allow_provider_call("mock-primary"));
    assert_eq!(registry.circuit_state("mock-primary"), CircuitState::HalfOpen);
    assert!(!registry.allow_provider_call("mock-primary"));

    registry.record_success("mock-primary");
    assert_eq!(registry.circuit_state("mock-primary"), CircuitState::Closed);
    assert!(registry.allow_provider_call("mock-primary"));
}

#[test]
fn text_estimation_counts_whitespace_words() {
    assert_eq!(estimate_tokens_for_text("one two three"), 3);
    assert_eq!(estimate_tokens_for_text("  one   two  "), 2);
    assert_eq!(estimate_tokens_for_text(""), 0);
}

#[test]
fn message_estimation_sums_message_contents() {
    let messages = vec![message(ChatRole::User, "hello there"), message(ChatRole::Assistant, "general kenobi")];

    assert_eq!(estimate_tokens_for_messages(&messages), 4);
}

#[test]
fn maps_openai_http_status_to_provider_error() {
    assert!(matches!(map_http_status(429), ProviderError::RateLimited));
    assert!(matches!(map_http_status(401), ProviderError::AuthenticationFailed));
    assert!(matches!(map_http_status(500), ProviderError::ProviderUnavailable));
}

#[test]
fn records_and_looks_up_provider_for_fingerprint() {
    let mut index = PrefixAffinityIndex::new(&affinity_config(10));

    index.record("prefix-a", "replica-a");

    assert_eq!(index.lookup("prefix-a").as_deref(), Some("replica-a"));
    assert_eq!(index.lookup("prefix-b"), None);
}

#[test]
fn evicts_least_recent_entry_when_capacity_is_reached() {
    let mut index = PrefixAffinityIndex::new(&affinity_config(1));

    index.record("prefix-a", "replica-a");
    index.record("prefix-b", "replica-b");

    assert_eq!(index.lookup("prefix-a"), None);
    assert_eq!(index.lookup("prefix-b").as_deref(), Some("replica-b"));
}

#[test]
fn same_stable_prefix_with_different_final_user_text_has_same_fingerprint() {
    let first = fingerprint_request(&request_with_final_user_text("summarize account A"));
    let second = fingerprint_request(&request_with_final_user_text("summarize account B"));

    assert!(first.is_high_confidence());
    assert_eq!(first.fingerprint, second.fingerprint);
}

#[test]
fn different_models_produce_different_fingerprints() {
    let mut first = request_with_final_user_text("hello");
    let mut second = first.clone();
    first.model = Some("mock-fast-v1".into());
    second.model = Some("mock-smart-v1".into());

    assert_ne!(fingerprint_request(&first).fingerprint, fingerprint_request(&second).fingerprint);
}

#[test]
fn tool_schema_and_choice_affect_fingerprint() {
    let mut first = request_with_tools("lookup_account");
    first.tool_choice = Some(ToolChoice::Mode(ToolChoiceMode::Auto));
    let mut second = request_with_tools("lookup_invoice");
    second.tool_choice = Some(ToolChoice::Mode(ToolChoiceMode::Required));

    assert_ne!(fingerprint_request(&first).fingerprint, fingerprint_request(&second).fingerprint);
}

#[test]
fn response_format_affects_fingerprint() {
    let mut first = request_with_final_user_text("summarize");
    let mut second = first.clone();
    let mut json_object = serde_json::Map::new();
    json_object.insert("type".into(), Value::String("json_object".into()));
    let mut text = serde_json::Map::new();
    text.insert("type".into(), Value::String("text".into()));
    first.response_format = Some(Value::Object(json_object));
    second.response_format = Some(Value::Object(text));

    assert_ne!(fingerprint_request(&first).fingerprint, fingerprint_request(&second).fingerprint);
}

#[test]
fn user_only_request_is_low_confidence_and_skipped() {
    let request = ChatCompletionRequest {
        model: Some("mock-fast-v1".into()),
        messages: vec![message(ChatRole::User, "dynamic user request")],
        temperature_bits: None,
        max_tokens: None,
        stream: None,
        tools: None,
        tool_choice: None,
        parallel_tool_calls: None,
        response_format: None,
    };
    let result = fingerprint_request(&request);

    assert_eq!(result.confidence, PrefixFingerprintConfidence::Low);
    assert_eq!(result.fingerprint, None);
}

#[test]
fn whitespace_normalization_is_deterministic() {
    let mut first = request_with_final_user_text("what next?");
    let mut second = request_with_final_user_text("what next?");
    first.messages[0].content = "You are   a\nhelpful\tassistant.".into();
    second.messages[0].content = " You are a helpful assistant. ".into();

    assert_eq!(fingerprint_request(&first).fingerprint, fingerprint_request(&second).fingerprint);
}

#[test]
fn prefix_length_metadata_uses_normalized_prefix_text() {
    let request = request_with_final_user_text("volatile suffix");
    let result = fingerprint_request(&request);

    assert_eq!(result.prefix_char_length, "You are a helpful assistant.".len());
    assert_eq!(result.prefix_token_estimate, 5);
}

#[test]
fn responses_after_conversion_can_be_fingerprinted() {
    let request = ResponseRequest {
        model: Some("mock-fast-v1".into()),
        input: ResponseInput::Text("summarize account A".into()),
        instructions: Some("You are a helpful assistant.".into()),
        stream: None,
        temperature_bits: None,
        max_output_tokens: None,
    };
    let chat_request = request.into_chat_request();
    let result = fingerprint_request(&chat_request);

    assert!(result.is_high_confidence());
    assert_eq!(result.prefix_token_estimate, 5);
}

#[test]
fn renders_core_and_labeled_metrics() {
    let snapshot = PrometheusSnapshot {
        total_requests: 2,
        successful_requests: 1,
        failed_requests: 1,
        in_flight_requests: 3,
        error_rate: "0.5".into(),
        avg_latency_ms: "12.5".into(),
        p95_latency_ms: "20".into(),
        total_provider_attempts: 2,
        fallback_attempts: 0,
        estimated_total_tokens: 0,
        estimated_total_cost_usd: "0".into(),
        request_errors_by_category: vec![("timeout".into(), 1)],
        requests_by_provider: vec![],
        successes_by_provider: vec![],
        provider_errors_by_provider_and_category: vec![("mock-fast".into(), vec![("rate_limited".into(), 1)])],
        avg_latency_ms_by_provider: vec![],
        p95_latency_ms_by_provider: vec![],
    };

    let rendered = render_prometheus(&snapshot);

    assert!(rendered.contains("rustygate_requests_total 2\n"));
    assert!(rendered.contains("rustygate_in_flight_requests 3\n"));
    assert!(rendered.contains("rustygate_request_errors_total{category=\"timeout\"} 1\n"));
    assert!(rendered.contains("rustygate_provider_errors_total{provider=\"mock-fast\",category=\"rate_limited\"} 1\n"));
}
