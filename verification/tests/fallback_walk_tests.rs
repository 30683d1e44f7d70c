use rustygate::providers::provider::ProviderError;
use rustygate::routing::admission::{AdmissionController, AdmissionLimits, AdmissionRejectionReason};
use rustygate::routing::fallback::{FallbackError, FallbackRun, FallbackStep, ProviderErrorCategory};
use rustygate::routing::resilience::{
    CircuitBreakerPolicy, CircuitState, ProviderResiliencePolicy, ResilienceRegistry, RetryPolicy,
};
use rustygate::strmap::StrMap;

fn walk_policy() -> ProviderResiliencePolicy {
    ProviderResiliencePolicy {
        timeout_ms: None,
        retry: RetryPolicy { max_retries: 1, initial_backoff_ms: 100, max_backoff_ms: 500, jitter_ms: 0 },
        breaker: CircuitBreakerPolicy { failure_threshold: 1, open_duration_ms: 600_000, half_open_max_probes: 1 },
    }
}

fn registry(names: &[&str]) -> ResilienceRegistry {
    let names: Vec<String> = names.iter().map(|n| n.to_string()).collect();
    ResilienceRegistry::new(walk_policy(), StrMap::new(), &names)
}

fn run_over(names: &[&str]) -> FallbackRun {
    FallbackRun::new(names.iter().map(|n| n.to_string()).collect())
}

fn reasons(run: &FallbackRun) -> Vec<&'static str> {
    run.routing_reasons().clone()
}

#[test]
fn walk_retries_then_falls_back_then_succeeds() {
    let mut resilience = registry(&["primary", "backup"]);
    let mut admission = AdmissionController::disabled();
    let mut run = run_over(&["primary", "backup"]);

    let step = run.start(&mut resilience, &mut admission);
    assert!(matches!(step, FallbackStep::Call { candidate_index: 0, sleep_ms: 0 }));
    assert!(reasons(&run).is_empty());

    let step = run.on_failure(ProviderError::Timeout, 10, &mut resilience, &mut admission);
    assert!(matches!(step, FallbackStep::Call { candidate_index: 0, sleep_ms: 100 }));
    assert_eq!(run.retry_attempt(), 1);

    let step = run.on_failure(ProviderError::Timeout, 12, &mut resilience, &mut admission);
    assert!(matches!(step, FallbackStep::Call { candidate_index: 1, sleep_ms: 0 }));
    assert!(run.is_fallback());
    assert_eq!(resilience.circuit_state("primary"), CircuitState::Open);
    assert_eq!(reasons(&run), vec!["fallback"]);

    match run.on_success(30, &mut resilience) {
        FallbackStep::Succeeded { candidate_index, provider_name, attempts, .. } => {
            assert_eq!(candidate_index, 1);
            assert_eq!(provider_name, "backup");
            assert_eq!(attempts.len(), 3);
            assert_eq!(attempts[0].provider_name, "primary");
            assert_eq!(attempts[0].error_category, Some(ProviderErrorCategory::Timeout));
            assert!(!attempts[0].is_fallback);
            assert_eq!(attempts[1].attempt_order, 2);
            assert!(attempts[2].success);
            assert!(attempts[2].is_fallback);
            assert_eq!(attempts[2].latency_ms, 30);
            assert_eq!(attempts[2].attempt_order, 3);
        },
        _ => panic!("expected success"),
    }
    assert_eq!(reasons(&run), vec!["fallback", "selected"]);
}

#[test]
fn walk_skips_a_provider_whose_breaker_is_open() {
    let mut resilience = registry(&["primary", "backup"]);
    resilience.record_failure("primary");
    assert_eq!(resilience.circuit_state("primary"), CircuitState::Open);
    let mut admission = AdmissionController::disabled();
    let mut run = run_over(&["primary", "backup"]);

    let step = run.start(&mut resilience, &mut admission);
    assert!(matches!(step, FallbackStep::Call { candidate_index: 1, sleep_ms: 0 }));
    assert_eq!(reasons(&run), vec!["circuit_open", "fallback"]);
}

#[test]
fn walk_with_every_breaker_open_has_no_provider() {
    let mut resilience = registry(&["only"]);
    resilience.record_failure("only");
    let mut admission = AdmissionController::disabled();
    let mut run = run_over(&["only"]);

    let step = run.start(&mut resilience, &mut admission);
    assert!(matches!(step, FallbackStep::Failed(FallbackError::NoProviderAvailable)));
    assert_eq!(reasons(&run), vec!["circuit_open"]);
}

#[test]
fn walk_stops_on_an_authentication_failure() {
    let mut resilience = registry(&["primary", "backup"]);
    let mut admission = AdmissionController::disabled();
    let mut run = run_over(&["primary", "backup"]);
    run.start(&mut resilience, &mut admission);

    match run.on_failure(ProviderError::AuthenticationFailed, 5, &mut resilience, &mut admission) {
        FallbackStep::Failed(FallbackError::ProviderFailed { error, attempts }) => {
            assert_eq!(error, ProviderError::AuthenticationFailed);
            assert_eq!(attempts.len(), 1);
            assert_eq!(attempts[0].error_category, Some(ProviderErrorCategory::AuthenticationFailed));
        },
        _ => panic!("expected the walk to stop"),
    }
    assert_eq!(resilience.circuit_state("primary"), CircuitState::Closed);
    assert!(reasons(&run).is_empty());
}

#[test]
fn walk_over_no_candidates_has_no_provider() {
    let mut resilience = registry(&[]);
    let mut admission = AdmissionController::disabled();
    let mut run = run_over(&[]);
    let step = run.start(&mut resilience, &mut admission);
    assert!(matches!(step, FallbackStep::Failed(FallbackError::NoProviderAvailable)));
}

#[test]
fn empty_stream_moves_to_the_next_candidate_without_retrying() {
    let mut resilience = registry(&["primary", "backup"]);
    let mut admission = AdmissionController::disabled();
    let mut run = run_over(&["primary", "backup"]);
    run.start(&mut resilience, &mut admission);

    let step = run.on_empty_stream(7, &mut resilience, &mut admission);
    assert!(matches!(step, FallbackStep::Call { candidate_index: 1, sleep_ms: 0 }));
    assert_eq!(resilience.circuit_state("primary"), CircuitState::Closed);
    assert_eq!(reasons(&run), vec!["fallback"]);
}

fn provider_limited_admission() -> AdmissionController {
    let mut limits = AdmissionLimits::unlimited(3);
    limits.provider_max_in_flight.insert("primary".to_string(), 1);
    AdmissionController::new(limits)
}

#[test]
fn walk_passes_over_a_provider_at_its_in_flight_limit() {
    let mut resilience = registry(&["primary", "backup"]);
    let mut admission = provider_limited_admission();
    let mut held = admission.try_acquire_provider("primary").ok().unwrap();

    let mut run = run_over(&["primary", "backup"]);
    let step = run.start(&mut resilience, &mut admission);
    assert!(matches!(step, FallbackStep::Call { candidate_index: 1, sleep_ms: 0 }));
    assert_eq!(reasons(&run), vec!["fallback"]);

    let mut alone = run_over(&["primary"]);
    match alone.start(&mut resilience, &mut admission) {
        FallbackStep::Failed(FallbackError::AdmissionRejected(rejection)) => {
            assert_eq!(rejection.reason, AdmissionRejectionReason::ProviderInFlightLimit);
            assert_eq!(rejection.retry_after_seconds, 3);
        },
        _ => panic!("expected an admission refusal"),
    }

    held.finish(&mut admission);
    let mut again = run_over(&["primary"]);
    assert!(matches!(again.start(&mut resilience, &mut admission), FallbackStep::Call { candidate_index: 0, sleep_ms: 0 }));
}
