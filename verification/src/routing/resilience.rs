//! Per-provider retry policies and circuit breakers.
//!
//! A breaker is closed until `failure_threshold` consecutive failures open it;
//! once `open_duration_ms` has passed it lets a bounded number of half-open
//! probes through; a success closes it and a half-open failure opens it again.
use std::time::Instant;
use vstd::prelude::*;

use crate::clock::{elapsed_ms, instant_now};
use crate::config::{GatewayConfig, ProviderConfig};
use crate::strmap::StrMap;

verus! {

/// The state of one provider's circuit breaker.
#[derive(Debug, Clone, Copy, PartialEq, Eq, Structural)]
pub enum CircuitState {
    Closed,
    Open,
    HalfOpen,
}

impl CircuitState {
    /// Stable lowercase name of the state.
    pub fn as_str(self) -> (s: &'static str)
        ensures
            s@ == circuit_state_name(self),
    {
        match self {
            CircuitState::Closed => "closed",
            CircuitState::Open => "open",
            CircuitState::HalfOpen => "half_open",
        }
    }
}

pub open spec fn circuit_state_name(s: CircuitState) -> Seq<char> {
    match s {
        CircuitState::Closed => "closed"@,
        CircuitState::Open => "open"@,
        CircuitState::HalfOpen => "half_open"@,
    }
}

/// Same-provider retry budget and backoff.
#[derive(Debug, Clone, Copy, PartialEq, Eq, Structural)]
pub struct RetryPolicy {
    pub max_retries: u32,
    pub initial_backoff_ms: u64,
    pub max_backoff_ms: u64,
    pub jitter_ms: u64,
}

impl Default for RetryPolicy {
    fn default() -> (p: Self)
        ensures
            p == (RetryPolicy {
                max_retries: 0,
                initial_backoff_ms: 100,
                max_backoff_ms: 2_000,
                jitter_ms: 50,
            }),
    {
        RetryPolicy { max_retries: 0, initial_backoff_ms: 100, max_backoff_ms: 2_000, jitter_ms: 50 }
    }
}

/// When a breaker opens and how it recovers.
#[derive(Debug, Clone, Copy, PartialEq, Eq, Structural)]
pub struct CircuitBreakerPolicy {
    pub failure_threshold: u32,
    pub open_duration_ms: u64,
    pub half_open_max_probes: u32,
}

impl Default for CircuitBreakerPolicy {
    fn default() -> (p: Self)
        ensures
            p == (CircuitBreakerPolicy {
                failure_threshold: 3,
                open_duration_ms: 5_000,
                half_open_max_probes: 1,
            }),
    {
        CircuitBreakerPolicy { failure_threshold: 3, open_duration_ms: 5_000, half_open_max_probes: 1 }
    }
}

/// Timeout, retry and breaker settings of one provider.
#[derive(Debug, Clone, Copy, PartialEq, Eq, Structural)]
pub struct ProviderResiliencePolicy {
    pub timeout_ms: Option<u64>,
    pub retry: RetryPolicy,
    pub breaker: CircuitBreakerPolicy,
}

impl Default for ProviderResiliencePolicy {
    fn default() -> (p: Self)
        ensures
            p == default_policy_value(),
    {
        ProviderResiliencePolicy {
            timeout_ms: None,
            retry: RetryPolicy::default(),
            breaker: CircuitBreakerPolicy::default(),
        }
    }
}

pub open spec fn default_policy_value() -> ProviderResiliencePolicy {
    ProviderResiliencePolicy {
        timeout_ms: None,
        retry: RetryPolicy { max_retries: 0, initial_backoff_ms: 100, max_backoff_ms: 2_000, jitter_ms: 50 },
        breaker: CircuitBreakerPolicy { failure_threshold: 3, open_duration_ms: 5_000, half_open_max_probes: 1 },
    }
}

/// The breaker record kept for one provider; times are milliseconds on the
/// registry's monotonic clock.
#[derive(Debug, Clone, Copy, PartialEq, Eq, Structural)]
pub struct ProviderCircuitState {
    pub state: CircuitState,
    pub consecutive_failures: u32,
    pub opened_at_ms: Option<u64>,
    pub half_open_probes_used: u32,
}

/// A closed breaker with no history.
pub open spec fn fresh_circuit() -> ProviderCircuitState {
    ProviderCircuitState {
        state: CircuitState::Closed,
        consecutive_failures: 0,
        opened_at_ms: None,
        half_open_probes_used: 0,
    }
}

impl Default for ProviderCircuitState {
    fn default() -> (c: Self)
        ensures
            c == fresh_circuit(),
    {
        ProviderCircuitState {
            state: CircuitState::Closed,
            consecutive_failures: 0,
            opened_at_ms: None,
            half_open_probes_used: 0,
        }
    }
}

pub open spec fn max1(x: u32) -> u32 {
    if x >= 1 { x } else { 1 }
}

/// Milliseconds from `from` to `to`, zero when `to` is earlier.
pub open spec fn elapsed_between(from: u64, to: u64) -> int {
    if to >= from { to - from } else { 0 }
}

/// An open breaker may probe again: it has no opening time, or `open_duration_ms` has passed.
pub open spec fn ready_for_probe(c: ProviderCircuitState, p: CircuitBreakerPolicy, now: u64) -> bool {
    match c.opened_at_ms {
        None => true,
        Some(opened) => elapsed_between(opened, now) >= p.open_duration_ms,
    }
}

/// Whether a call is allowed, and the record afterwards.
pub open spec fn allow_step(c: ProviderCircuitState, p: CircuitBreakerPolicy, now: u64) -> (
    ProviderCircuitState,
    bool,
) {
    match c.state {
        CircuitState::Closed => (c, true),
        CircuitState::Open => if ready_for_probe(c, p, now) {
            (ProviderCircuitState { state: CircuitState::HalfOpen, half_open_probes_used: 1, ..c }, true)
        } else {
            (c, false)
        },
        CircuitState::HalfOpen => if c.half_open_probes_used < max1(p.half_open_max_probes) {
            (ProviderCircuitState { half_open_probes_used: (c.half_open_probes_used + 1) as u32, ..c }, true)
        } else {
            (c, false)
        },
    }
}

/// The record after a success: closed with no history.
pub open spec fn success_step(c: ProviderCircuitState) -> ProviderCircuitState {
    fresh_circuit()
}

pub open spec fn sat_inc(x: u32) -> u32 {
    if x < u32::MAX { (x + 1) as u32 } else { u32::MAX }
}

/// The record after a failure at `now`.
pub open spec fn failure_step(c: ProviderCircuitState, p: CircuitBreakerPolicy, now: u64) -> ProviderCircuitState {
    match c.state {
        CircuitState::Closed => {
            let failures = sat_inc(c.consecutive_failures);
            if failures >= max1(p.failure_threshold) {
                ProviderCircuitState {
                    state: CircuitState::Open,
                    consecutive_failures: failures,
                    opened_at_ms: Some(now),
                    half_open_probes_used: 0,
                }
            } else {
                ProviderCircuitState { consecutive_failures: failures, ..c }
            }
        },
        CircuitState::HalfOpen => ProviderCircuitState {
            state: CircuitState::Open,
            opened_at_ms: Some(now),
            half_open_probes_used: 0,
            ..c
        },
        CircuitState::Open => c,
    }
}

/// The record after `n` consecutive failures at `now`.
pub open spec fn failures_step(c: ProviderCircuitState, p: CircuitBreakerPolicy, now: u64, n: nat) -> ProviderCircuitState
    decreases n,
{
    if n == 0 {
        c
    } else {
        failure_step(failures_step(c, p, now, (n - 1) as nat), p, now)
    }
}


/// The record after `n` allowance checks at `now`, and how many were allowed.
pub open spec fn allows_step(c: ProviderCircuitState, p: CircuitBreakerPolicy, now: u64, n: nat) -> (
    ProviderCircuitState,
    nat,
)
    decreases n,
{
    if n == 0 {
        (c, 0)
    } else {
        let prev = allows_step(c, p, now, (n - 1) as nat);
        let step = allow_step(prev.0, p, now);
        (step.0, if step.1 { prev.1 + 1 } else { prev.1 })
    }
}

/// Starting closed, the breaker stays closed and counts each failure until
/// `max(failure_threshold, 1)` consecutive failures, and then it is open.
pub proof fn law_consecutive_failures_open_breaker(p: CircuitBreakerPolicy, now: u64, k: nat)
    requires
        k <= max1(p.failure_threshold),
    ensures
        k < max1(p.failure_threshold) ==> failures_step(fresh_circuit(), p, now, k).state
            == CircuitState::Closed && failures_step(fresh_circuit(), p, now, k).consecutive_failures == k,
        k == max1(p.failure_threshold) ==> failures_step(fresh_circuit(), p, now, k).state
            == CircuitState::Open && failures_step(fresh_circuit(), p, now, k).opened_at_ms == Some(now),
    decreases k,
{
    if k > 0 {
        law_consecutive_failures_open_breaker(p, now, (k - 1) as nat);
    }
}

/// The record after failures at the given times, in order (what consecutive
/// `record_failure_at` calls for one provider do).
pub open spec fn failures_at(c: ProviderCircuitState, p: CircuitBreakerPolicy, times: Seq<u64>) -> ProviderCircuitState
    decreases times.len(),
{
    if times.len() == 0 {
        c
    } else {
        failure_step(failures_at(c, p, times.drop_last()), p, times.last())
    }
}

/// From a fresh record (a new provider, or one whose last call succeeded), the
/// breaker is open exactly when at least `max(failure_threshold, 1)`
/// consecutive failures have been recorded, whenever they happened; before
/// that it is closed and counts them, and once open further failures leave it
/// as it is.
pub proof fn law_breaker_opens_at_threshold(p: CircuitBreakerPolicy, times: Seq<u64>)
    ensures
        failures_at(fresh_circuit(), p, times).state == if times.len() >= max1(p.failure_threshold) {
            CircuitState::Open
        } else {
            CircuitState::Closed
        },
        times.len() < max1(p.failure_threshold) ==> failures_at(fresh_circuit(), p, times).consecutive_failures == times.len(),
        times.len() >= max1(p.failure_threshold) ==> failures_at(fresh_circuit(), p, times).opened_at_ms
            == Some(times[max1(p.failure_threshold) - 1]),
    decreases times.len(),
{
    if times.len() > 0 {
        let prev = times.drop_last();
        law_breaker_opens_at_threshold(p, prev);
        if prev.len() >= max1(p.failure_threshold) {
            assert(prev[max1(p.failure_threshold) - 1] == times[max1(p.failure_threshold) - 1]);
        }
    }
}

/// The record after allowance checks at the given times, in order, and each
/// check's answer (what consecutive `allow_provider_call_at` calls for one
/// provider do).
pub open spec fn allows_at(c: ProviderCircuitState, p: CircuitBreakerPolicy, times: Seq<u64>) -> (ProviderCircuitState, Seq<bool>)
    decreases times.len(),
{
    if times.len() == 0 {
        (c, Seq::empty())
    } else {
        let prev = allows_at(c, p, times.drop_last());
        let step = allow_step(prev.0, p, times.last());
        (step.0, prev.1.push(step.1))
    }
}

/// A breaker that opened at `opened` refuses every check made before
/// `open_duration_ms` has passed and stays open; the first check after that,
/// the `first`, is let through and makes it half-open; exactly
/// `max(half_open_max_probes, 1)` checks from there on are let through, and
/// every later one is refused (as long as no success or failure is recorded).
pub proof fn law_open_breaker_probes(c: ProviderCircuitState, p: CircuitBreakerPolicy, opened: u64, times: Seq<u64>, first: nat)
    requires
        c.state == CircuitState::Open,
        c.opened_at_ms == Some(opened),
        forall|i: int| 0 <= i < first && i < times.len() ==> elapsed_between(opened, #[trigger] times[i]) < p.open_duration_ms,
        first < times.len() ==> elapsed_between(opened, times[first as int]) >= p.open_duration_ms,
    ensures
        allows_at(c, p, times).1.len() == times.len(),
        forall|i: int|
            0 <= i < times.len() ==> #[trigger] allows_at(c, p, times).1[i] == (first <= i < first + max1(p.half_open_max_probes)),
        times.len() <= first ==> allows_at(c, p, times).0 == c,
        times.len() > first ==> allows_at(c, p, times).0.state == CircuitState::HalfOpen,
        times.len() > first ==> allows_at(c, p, times).0.half_open_probes_used == if times.len() - first <= max1(
            p.half_open_max_probes,
        ) {
            (times.len() - first) as int
        } else {
            max1(p.half_open_max_probes) as int
        },
    decreases times.len(),
{
    if times.len() > 0 {
        let prev = times.drop_last();
        assert forall|i: int| 0 <= i < first && i < prev.len() implies elapsed_between(opened, #[trigger] prev[i]) < p.open_duration_ms by {
            assert(prev[i] == times[i]);
        }
        if first < prev.len() {
            assert(prev[first as int] == times[first as int]);
        }
        law_open_breaker_probes(c, p, opened, prev, first);
        let r = allows_at(c, p, times);
        let rp = allows_at(c, p, prev);
        assert forall|i: int|
            0 <= i < times.len() implies #[trigger] r.1[i] == (first <= i < first + max1(p.half_open_max_probes)) by {
            if i < prev.len() {
                assert(r.1[i] == rp.1[i]);
            }
        }
    }
}

/// One allowance check for `name` at `t`, as `allow_provider_call_at` makes it:
/// it answered `answer` and left `after`.
pub open spec fn checked(
    before: Map<Seq<char>, ProviderCircuitState>,
    after: Map<Seq<char>, ProviderCircuitState>,
    answer: bool,
    name: Seq<char>,
    p: CircuitBreakerPolicy,
    t: u64,
) -> bool {
    let step = allow_step(circuit_or_fresh(before, name), p, t);
    &&& answer == step.1
    &&& after == before.insert(name, step.0)
}

/// Successive allowance checks for `name`, each leaving the circuits as
/// `allow_provider_call_at` does (`circuits[i + 1]` after the check at
/// `times[i]`, which answered `answers[i]`), answer as `allows_at` does from the
/// record the first check saw, and leave its final record.
pub proof fn law_registry_checks_follow_allows(
    circuits: Seq<Map<Seq<char>, ProviderCircuitState>>,
    answers: Seq<bool>,
    name: Seq<char>,
    p: CircuitBreakerPolicy,
    times: Seq<u64>,
)
    requires
        circuits.len() == times.len() + 1,
        answers.len() == times.len(),
        forall|i: int| 0 <= i < times.len() ==> #[trigger] checked(circuits[i], circuits[i + 1], answers[i], name, p, times[i]),
    ensures
        circuit_or_fresh(circuits.last(), name) == allows_at(circuit_or_fresh(circuits[0], name), p, times).0,
        answers == allows_at(circuit_or_fresh(circuits[0], name), p, times).1,
    decreases times.len(),
{
    if times.len() > 0 {
        let n = times.len();
        let cs = circuits.drop_last();
        let ts = times.drop_last();
        let ans = answers.drop_last();
        assert forall|i: int| 0 <= i < ts.len() implies #[trigger] checked(cs[i], cs[i + 1], ans[i], name, p, ts[i]) by {
            assert(checked(circuits[i], circuits[i + 1], answers[i], name, p, times[i]));
        }
        law_registry_checks_follow_allows(cs, ans, name, p, ts);
        assert(checked(circuits[n - 1], circuits[n as int], answers[n - 1], name, p, times[n - 1]));
        assert(circuits[n - 1] == cs.last());
        assert(answers =~= ans.push(answers[n - 1]));
    }
}

/// Successive failures of `name`, each leaving the circuits as
/// `record_failure_at` does, leave the record of `failures_at` from the record
/// the first one saw; after a success that record is fresh, so the count
/// starts again.
pub proof fn law_registry_failures_follow_failures(
    circuits: Seq<Map<Seq<char>, ProviderCircuitState>>,
    name: Seq<char>,
    p: CircuitBreakerPolicy,
    times: Seq<u64>,
)
    requires
        circuits.len() == times.len() + 1,
        forall|i: int|
            0 <= i < times.len() ==> circuits[i + 1] == (#[trigger] circuits[i]).insert(
                name,
                failure_step(circuit_or_fresh(circuits[i], name), p, times[i]),
            ),
    ensures
        circuit_or_fresh(circuits.last(), name) == failures_at(circuit_or_fresh(circuits[0], name), p, times),
    decreases times.len(),
{
    if times.len() > 0 {
        let n = times.len();
        let cs = circuits.drop_last();
        let ts = times.drop_last();
        assert forall|i: int|
            0 <= i < ts.len() implies cs[i + 1] == (#[trigger] cs[i]).insert(
                name,
                failure_step(circuit_or_fresh(cs[i], name), p, ts[i]),
            ) by {
            assert(cs[i] == circuits[i]);
            assert(cs[i + 1] == circuits[i + 1]);
            let _ = circuits[i];
        }
        law_registry_failures_follow_failures(cs, name, p, ts);
        let _ = circuits[n - 1];
        assert(circuits[n - 1] == cs.last());
    }
}

/// A provider that no call names keeps its record: when every step from one
/// circuit map to the next changes another provider's record only, the
/// provider's record at the end is the one at the start; one that started
/// fresh (never named, or listed when the registry was made) is closed.
pub proof fn law_untouched_provider_keeps_its_circuit(
    circuits: Seq<Map<Seq<char>, ProviderCircuitState>>,
    touched: Seq<Seq<char>>,
    records: Seq<ProviderCircuitState>,
    name: Seq<char>,
)
    requires
        circuits.len() == touched.len() + 1,
        records.len() == touched.len(),
        forall|i: int| 0 <= i < touched.len() ==> #[trigger] touched[i] != name,
        forall|i: int| 0 <= i < touched.len() ==> circuits[i + 1] == (#[trigger] circuits[i]).insert(touched[i], records[i]),
    ensures
        circuit_or_fresh(circuits.last(), name) == circuit_or_fresh(circuits[0], name),
        !circuits[0].contains_key(name) ==> circuit_or_fresh(circuits.last(), name).state == CircuitState::Closed,
        circuit_or_fresh(circuits[0], name) == fresh_circuit() ==> circuit_or_fresh(circuits.last(), name).state
            == CircuitState::Closed,
    decreases touched.len(),
{
    if touched.len() > 0 {
        let n = touched.len();
        let cs = circuits.drop_last();
        let ts = touched.drop_last();
        let rs = records.drop_last();
        assert forall|i: int| 0 <= i < ts.len() implies #[trigger] ts[i] != name by {
            assert(ts[i] == touched[i]);
        }
        assert forall|i: int| 0 <= i < ts.len() implies cs[i + 1] == (#[trigger] cs[i]).insert(ts[i], rs[i]) by {
            assert(cs[i] == circuits[i]);
            assert(cs[i + 1] == circuits[i + 1]);
            let _ = circuits[i];
        }
        law_untouched_provider_keeps_its_circuit(cs, ts, rs, name);
        let _ = circuits[n - 1];
        assert(touched[n - 1] != name);
        assert(circuits[n - 1] == cs.last());
    }
}

/// Consecutive `record_failure_at` calls for `name`, starting from a fresh
/// record (a new provider, or one whose last call was a success), leave its
/// breaker open exactly when there were at least `max(failure_threshold, 1)`
/// of them, and closed otherwise (a threshold of 0 acts as 1).
pub proof fn law_registry_failures_open_at_threshold(
    circuits: Seq<Map<Seq<char>, ProviderCircuitState>>,
    name: Seq<char>,
    p: CircuitBreakerPolicy,
    times: Seq<u64>,
)
    requires
        circuits.len() == times.len() + 1,
        circuit_or_fresh(circuits[0], name) == fresh_circuit(),
        forall|i: int|
            0 <= i < times.len() ==> circuits[i + 1] == (#[trigger] circuits[i]).insert(
                name,
                failure_step(circuit_or_fresh(circuits[i], name), p, times[i]),
            ),
    ensures
        circuit_or_fresh(circuits.last(), name).state == if times.len() >= max1(p.failure_threshold) {
            CircuitState::Open
        } else {
            CircuitState::Closed
        },
{
    law_registry_failures_follow_failures(circuits, name, p, times);
    law_breaker_opens_at_threshold(p, times);
}

/// Consecutive `allow_provider_call_at` calls for `name` after its breaker
/// opened at `opened`, with no success or failure recorded in between: every
/// call before `open_duration_ms` has passed is refused, the first one after
/// it (the `first`) is let through and the breaker is half-open, exactly
/// `max(half_open_max_probes, 1)` calls from there are let through, and every
/// later one is refused.
pub proof fn law_registry_open_breaker_probes(
    circuits: Seq<Map<Seq<char>, ProviderCircuitState>>,
    answers: Seq<bool>,
    name: Seq<char>,
    p: CircuitBreakerPolicy,
    times: Seq<u64>,
    opened: u64,
    first: nat,
)
    requires
        circuits.len() == times.len() + 1,
        answers.len() == times.len(),
        circuit_or_fresh(circuits[0], name).state == CircuitState::Open,
        circuit_or_fresh(circuits[0], name).opened_at_ms == Some(opened),
        forall|i: int| 0 <= i < times.len() ==> #[trigger] checked(circuits[i], circuits[i + 1], answers[i], name, p, times[i]),
        forall|i: int| 0 <= i < first && i < times.len() ==> elapsed_between(opened, #[trigger] times[i]) < p.open_duration_ms,
        first < times.len() ==> elapsed_between(opened, times[first as int]) >= p.open_duration_ms,
    ensures
        forall|i: int| 0 <= i < times.len() ==> #[trigger] answers[i] == (first <= i < first + max1(p.half_open_max_probes)),
        times.len() <= first ==> circuit_or_fresh(circuits.last(), name) == circuit_or_fresh(circuits[0], name),
        times.len() > first ==> circuit_or_fresh(circuits.last(), name).state == CircuitState::HalfOpen,
{
    law_registry_checks_follow_allows(circuits, answers, name, p, times);
    law_open_breaker_probes(circuit_or_fresh(circuits[0], name), p, opened, times, first);
    assert forall|i: int| 0 <= i < times.len() implies #[trigger] answers[i] == (first <= i < first + max1(p.half_open_max_probes)) by {
        assert(answers[i] == allows_at(circuit_or_fresh(circuits[0], name), p, times).1[i]);
    }
}

/// A success closes the breaker from any state and forgets its failures.
pub proof fn law_success_closes(c: ProviderCircuitState)
    ensures
        success_step(c).state == CircuitState::Closed,
        success_step(c).consecutive_failures == 0,
        allow_step(success_step(c), CircuitBreakerPolicy { failure_threshold: 1, open_duration_ms: 0, half_open_max_probes: 1 }, 0).1,
{
}

/// An open breaker refuses every call until `open_duration_ms` has passed since it opened.
pub proof fn law_open_breaker_refuses_until_duration(c: ProviderCircuitState, p: CircuitBreakerPolicy, opened: u64, now: u64)
    requires
        c.state == CircuitState::Open,
        c.opened_at_ms == Some(opened),
    ensures
        !allow_step(c, p, now).1 <==> elapsed_between(opened, now) < p.open_duration_ms,
        !allow_step(c, p, now).1 ==> allow_step(c, p, now).0 == c,
        allow_step(c, p, now).1 ==> allow_step(c, p, now).0.state == CircuitState::HalfOpen,
{
}

/// Once an open breaker is ready to probe, consecutive checks let exactly
/// `max(half_open_max_probes, 1)` calls through, and no more.
pub proof fn law_half_open_probe_budget(c: ProviderCircuitState, p: CircuitBreakerPolicy, now: u64, n: nat)
    requires
        c.state == CircuitState::Open,
        ready_for_probe(c, p, now),
    ensures
        allows_step(c, p, now, n).1 == if n <= max1(p.half_open_max_probes) {
            n
        } else {
            max1(p.half_open_max_probes) as nat
        },
        n > 0 ==> allows_step(c, p, now, n).0.state == CircuitState::HalfOpen,
        n > 0 ==> allows_step(c, p, now, n).0.half_open_probes_used == if n <= max1(
            p.half_open_max_probes,
        ) {
            n
        } else {
            max1(p.half_open_max_probes) as nat
        },
    decreases n,
{
    if n > 0 {
        law_half_open_probe_budget(c, p, now, (n - 1) as nat);
    }
}

/// A failure while half-open opens the breaker again, timed from that failure.
pub proof fn law_half_open_failure_reopens(c: ProviderCircuitState, p: CircuitBreakerPolicy, now: u64)
    requires
        c.state == CircuitState::HalfOpen,
    ensures
        failure_step(c, p, now).state == CircuitState::Open,
        failure_step(c, p, now).opened_at_ms == Some(now),
        failure_step(c, p, now).half_open_probes_used == 0,
{
}

/// The record stored for `name`, or a fresh one.
pub open spec fn circuit_or_fresh(m: Map<Seq<char>, ProviderCircuitState>, name: Seq<char>) -> ProviderCircuitState {
    if m.contains_key(name) { m[name] } else { fresh_circuit() }
}

/// Per-provider policies and breaker states.
pub struct ResilienceRegistry {
    default_policy: ProviderResiliencePolicy,
    provider_policies: StrMap<ProviderResiliencePolicy>,
    circuits: StrMap<ProviderCircuitState>,
    clock_origin: Instant,
}

impl ResilienceRegistry {
    pub closed spec fn wf(&self) -> bool {
        self.provider_policies.wf() && self.circuits.wf()
    }

    /// The policy used for providers without an override.
    pub closed spec fn default_policy(&self) -> ProviderResiliencePolicy {
        self.default_policy
    }

    /// Per-provider policy overrides.
    pub closed spec fn policies(&self) -> Map<Seq<char>, ProviderResiliencePolicy> {
        self.provider_policies@
    }

    /// Breaker records by provider.
    pub closed spec fn circuits(&self) -> Map<Seq<char>, ProviderCircuitState> {
        self.circuits@
    }

    /// Every retry policy has a jitter budget below `u64::MAX`.
    pub open spec fn jitter_bounded(&self) -> bool {
        &&& self.default_policy().retry.jitter_ms < u64::MAX
        &&& forall|k: Seq<char>| #[trigger] self.policies().contains_key(k) ==> self.policies()[k].retry.jitter_ms < u64::MAX
    }

    pub open spec fn spec_policy_for(&self, name: Seq<char>) -> ProviderResiliencePolicy {
        if self.policies().contains_key(name) {
            self.policies()[name]
        } else {
            self.default_policy()
        }
    }

    /// A registry whose listed providers start closed.
    pub fn new(
        default_policy: ProviderResiliencePolicy,
        provider_policies: StrMap<ProviderResiliencePolicy>,
        provider_names: &[String],
    ) -> (r: Self)
        requires
            provider_policies.wf(),
        ensures
            r.wf(),
            r.default_policy() == default_policy,
            r.policies() == provider_policies@,
            forall|k: Seq<char>| #[trigger] r.circuits().contains_key(k) <==> exists|i: int|
                0 <= i < provider_names@.len() && provider_names@[i]@ == k,
            forall|k: Seq<char>| #[trigger] r.circuits().contains_key(k) ==> r.circuits()[k]
                == fresh_circuit(),
    {
        let mut circuits: StrMap<ProviderCircuitState> = StrMap::new();
        let n = provider_names.len();
        for i in 0..n
            invariant
                n == provider_names@.len(),
                circuits.wf(),
                forall|k: Seq<char>| #[trigger] circuits@.contains_key(k) <==> exists|j: int|
                    0 <= j < i && provider_names@[j]@ == k,
                forall|k: Seq<char>| #[trigger] circuits@.contains_key(k) ==> circuits@[k]
                    == fresh_circuit(),
        {
            let name = provider_names[i].clone();
            circuits.insert(name, ProviderCircuitState::default());
            proof {
                assert forall|k: Seq<char>| #[trigger] circuits@.contains_key(k) <==> exists|j: int|
                    0 <= j < i + 1 && provider_names@[j]@ == k by {
                    if k == provider_names@[i as int]@ {
                        assert(0 <= i < i + 1 && provider_names@[i as int]@ == k);
                    }
                }
            }
        }
        ResilienceRegistry {
            default_policy,
            provider_policies,
            circuits,
            clock_origin: instant_now(),
        }
    }

    /// The override for `provider_name`, or the default policy.
    pub fn policy_for(&self, provider_name: &str) -> (p: ProviderResiliencePolicy)
        requires
            self.wf(),
        ensures
            p == self.spec_policy_for(provider_name@),
    {
        match self.provider_policies.get(provider_name) {
            Some(p) => *p,
            None => self.default_policy,
        }
    }

    /// Whether a call to `provider_name` may go ahead now.
    pub fn allow_provider_call(&mut self, provider_name: &str) -> (allowed: bool)
        requires
            old(self).wf(),
        ensures
            final(self).wf(),
            final(self).policies() == old(self).policies(),
            final(self).default_policy() == old(self).default_policy(),
            exists|now: u64|
                #![trigger allow_step(circuit_or_fresh(old(self).circuits(), provider_name@), old(self).spec_policy_for(provider_name@).breaker, now)]
            {
                let step = allow_step(
                    circuit_or_fresh(old(self).circuits(), provider_name@),
                    old(self).spec_policy_for(provider_name@).breaker,
                    now,
                );
                &&& allowed == step.1
                &&& final(self).circuits() == old(self).circuits().insert(provider_name@, step.0)
            },
    {
        let now = elapsed_ms(&self.clock_origin);
        self.allow_provider_call_at(provider_name, now)
    }

    /// Whether a call to `provider_name` may go ahead at time `now_ms`.
    pub fn allow_provider_call_at(&mut self, provider_name: &str, now_ms: u64) -> (allowed: bool)
        requires
            old(self).wf(),
        ensures
            final(self).wf(),
            final(self).policies() == old(self).policies(),
            final(self).default_policy() == old(self).default_policy(),
            ({
                let step = allow_step(
                    circuit_or_fresh(old(self).circuits(), provider_name@),
                    old(self).spec_policy_for(provider_name@).breaker,
                    now_ms,
                );
                &&& allowed == step.1
                &&& final(self).circuits() == old(self).circuits().insert(provider_name@, step.0)
            }),
    {
        let policy = self.policy_for(provider_name);
        let mut c = match self.circuits.get(provider_name) {
            Some(c) => *c,
            None => ProviderCircuitState::default(),
        };
        let allowed = match c.state {
            CircuitState::Closed => true,
            CircuitState::Open => {
                let ready = match c.opened_at_ms {
                    None => true,
                    Some(opened) => {
                        let elapsed = if now_ms >= opened { now_ms - opened } else { 0 };
                        elapsed >= policy.breaker.open_duration_ms
                    },
                };
                if ready {
                    c.state = CircuitState::HalfOpen;
                    c.half_open_probes_used = 1;
                    true
                } else {
                    false
                }
            },
            CircuitState::HalfOpen => {
                let max_probes = if policy.breaker.half_open_max_probes >= 1 {
                    policy.breaker.half_open_max_probes
                } else {
                    1
                };
                if c.half_open_probes_used < max_probes {
                    c.half_open_probes_used = c.half_open_probes_used + 1;
                    true
                } else {
                    false
                }
            },
        };
        self.circuits.insert(provider_name.to_string(), c);
        allowed
    }

    /// Closes the breaker of `provider_name` and clears its history.
    pub fn record_success(&mut self, provider_name: &str)
        requires
            old(self).wf(),
        ensures
            final(self).wf(),
            final(self).policies() == old(self).policies(),
            final(self).default_policy() == old(self).default_policy(),
            final(self).circuits() == old(self).circuits().insert(provider_name@, fresh_circuit()),
    {
        self.circuits.insert(provider_name.to_string(), ProviderCircuitState::default());
    }

    /// Counts a failure of `provider_name` now.
    pub fn record_failure(&mut self, provider_name: &str)
        requires
            old(self).wf(),
        ensures
            final(self).wf(),
            final(self).policies() == old(self).policies(),
            final(self).default_policy() == old(self).default_policy(),
            exists|now: u64|
                #![trigger failure_step(circuit_or_fresh(old(self).circuits(), provider_name@), old(self).spec_policy_for(provider_name@).breaker, now)]
                final(self).circuits() == old(self).circuits().insert(
                provider_name@,
                failure_step(
                    circuit_or_fresh(old(self).circuits(), provider_name@),
                    old(self).spec_policy_for(provider_name@).breaker,
                    now,
                ),
            ),
    {
        let now = elapsed_ms(&self.clock_origin);
        self.record_failure_at(provider_name, now);
    }

    /// Counts a failure of `provider_name` at time `now_ms`.
    pub fn record_failure_at(&mut self, provider_name: &str, now_ms: u64)
        requires
            old(self).wf(),
        ensures
            final(self).wf(),
            final(self).policies() == old(self).policies(),
            final(self).default_policy() == old(self).default_policy(),
            final(self).circuits() == old(self).circuits().insert(
                provider_name@,
                failure_step(
                    circuit_or_fresh(old(self).circuits(), provider_name@),
                    old(self).spec_policy_for(provider_name@).breaker,
                    now_ms,
                ),
            ),
    {
        let policy = self.policy_for(provider_name);
        let threshold = if policy.breaker.failure_threshold >= 1 {
            policy.breaker.failure_threshold
        } else {
            1
        };
        let mut c = match self.circuits.get(provider_name) {
            Some(c) => *c,
            None => ProviderCircuitState::default(),
        };
        match c.state {
            CircuitState::Closed => {
                c.consecutive_failures = c.consecutive_failures.saturating_add(1);
                if c.consecutive_failures >= threshold {
                    c.state = CircuitState::Open;
                    c.opened_at_ms = Some(now_ms);
                    c.half_open_probes_used = 0;
                }
            },
            CircuitState::HalfOpen => {
                c.state = CircuitState::Open;
                c.opened_at_ms = Some(now_ms);
                c.half_open_probes_used = 0;
            },
            CircuitState::Open => {},
        }
        self.circuits.insert(provider_name.to_string(), c);
    }

    /// The breaker state of `provider_name` (closed when unknown).
    pub fn circuit_state(&self, provider_name: &str) -> (s: CircuitState)
        requires
            self.wf(),
        ensures
            s == circuit_or_fresh(self.circuits(), provider_name@).state,
    {
        match self.circuits.get(provider_name) {
            Some(c) => c.state,
            None => CircuitState::Closed,
        }
    }
}

/// A registry with the default policy for every listed provider.
pub fn default_resilience_registry(provider_names: &[String]) -> (r: ResilienceRegistry)
    ensures
        r.wf(),
        r.default_policy() == default_policy_value(),
        r.policies() == Map::<Seq<char>, ProviderResiliencePolicy>::empty(),
        forall|k: Seq<char>| #[trigger] r.circuits().contains_key(k) <==> exists|i: int|
            0 <= i < provider_names@.len() && provider_names@[i]@ == k,
        forall|k: Seq<char>| #[trigger] r.circuits().contains_key(k) ==> r.circuits()[k]
            == fresh_circuit(),
{
    ResilienceRegistry::new(ProviderResiliencePolicy::default(), StrMap::new(), provider_names)
}

/// The value of an optional setting, or `fallback` where it is unset.
pub open spec fn setting_or<T>(o: Option<T>, fallback: T) -> T {
    match o {
        Some(v) => v,
        None => fallback,
    }
}

/// The policy that the gateway-wide settings describe.
pub open spec fn gateway_policy(g: GatewayConfig) -> ProviderResiliencePolicy {
    ProviderResiliencePolicy {
        timeout_ms: Some(g.default_timeout_ms),
        retry: RetryPolicy {
            max_retries: g.max_retries,
            initial_backoff_ms: g.retry.initial_backoff_ms,
            max_backoff_ms: g.retry.max_backoff_ms,
            jitter_ms: g.retry.jitter_ms,
        },
        breaker: CircuitBreakerPolicy {
            failure_threshold: g.circuit_breaker.failure_threshold,
            open_duration_ms: g.circuit_breaker.open_duration_ms,
            half_open_max_probes: g.circuit_breaker.half_open_max_probes,
        },
    }
}

/// The policy of one provider: each of its own settings where it has one,
/// the gateway-wide setting otherwise.
pub open spec fn provider_policy(p: ProviderConfig, g: GatewayConfig) -> ProviderResiliencePolicy {
    let d = gateway_policy(g);
    ProviderResiliencePolicy {
        timeout_ms: Some(setting_or(p.timeout_ms, g.default_timeout_ms)),
        retry: RetryPolicy {
            max_retries: setting_or(p.max_retries, d.retry.max_retries),
            initial_backoff_ms: setting_or(p.retry_initial_backoff_ms, d.retry.initial_backoff_ms),
            max_backoff_ms: setting_or(p.retry_max_backoff_ms, d.retry.max_backoff_ms),
            jitter_ms: setting_or(p.retry_jitter_ms, d.retry.jitter_ms),
        },
        breaker: CircuitBreakerPolicy {
            failure_threshold: setting_or(p.circuit_breaker_failure_threshold, d.breaker.failure_threshold),
            open_duration_ms: setting_or(p.circuit_breaker_open_duration_ms, d.breaker.open_duration_ms),
            half_open_max_probes: setting_or(
                p.circuit_breaker_half_open_max_probes,
                d.breaker.half_open_max_probes,
            ),
        },
    }
}

/// The resilience policy that the gateway settings give a provider without
/// overrides.
pub fn gateway_resilience_defaults(gateway: &GatewayConfig) -> (p: ProviderResiliencePolicy)
    ensures
        p == gateway_policy(*gateway),
{
    ProviderResiliencePolicy {
        timeout_ms: Some(gateway.default_timeout_ms),
        retry: RetryPolicy {
            max_retries: gateway.max_retries,
            initial_backoff_ms: gateway.retry.initial_backoff_ms,
            max_backoff_ms: gateway.retry.max_backoff_ms,
            jitter_ms: gateway.retry.jitter_ms,
        },
        breaker: CircuitBreakerPolicy {
            failure_threshold: gateway.circuit_breaker.failure_threshold,
            open_duration_ms: gateway.circuit_breaker.open_duration_ms,
            half_open_max_probes: gateway.circuit_breaker.half_open_max_probes,
        },
    }
}

fn unwrap_u64_or(o: Option<u64>, fallback: u64) -> (v: u64)
    ensures
        v == setting_or(o, fallback),
{
    match o {
        Some(v) => v,
        None => fallback,
    }
}

fn unwrap_u32_or(o: Option<u32>, fallback: u32) -> (v: u32)
    ensures
        v == setting_or(o, fallback),
{
    match o {
        Some(v) => v,
        None => fallback,
    }
}

/// The resilience policy of `provider`: its own timeout, retry and breaker
/// settings where it sets them, the gateway's otherwise.
pub fn provider_resilience_policy(provider: &ProviderConfig, gateway: &GatewayConfig) -> (p: ProviderResiliencePolicy)
    ensures
        p == provider_policy(*provider, *gateway),
{
    let d = gateway_resilience_defaults(gateway);
    ProviderResiliencePolicy {
        timeout_ms: Some(unwrap_u64_or(provider.timeout_ms, gateway.default_timeout_ms)),
        retry: RetryPolicy {
            max_retries: unwrap_u32_or(provider.max_retries, d.retry.max_retries),
            initial_backoff_ms: unwrap_u64_or(provider.retry_initial_backoff_ms, d.retry.initial_backoff_ms),
            max_backoff_ms: unwrap_u64_or(provider.retry_max_backoff_ms, d.retry.max_backoff_ms),
            jitter_ms: unwrap_u64_or(provider.retry_jitter_ms, d.retry.jitter_ms),
        },
        breaker: CircuitBreakerPolicy {
            failure_threshold: unwrap_u32_or(provider.circuit_breaker_failure_threshold, d.breaker.failure_threshold),
            open_duration_ms: unwrap_u64_or(provider.circuit_breaker_open_duration_ms, d.breaker.open_duration_ms),
            half_open_max_probes: unwrap_u32_or(
                provider.circuit_breaker_half_open_max_probes,
                d.breaker.half_open_max_probes,
            ),
        },
    }
}

} // verus!
