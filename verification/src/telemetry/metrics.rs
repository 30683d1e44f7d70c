//! Metrics: the gateway's counters, bounded sample windows and per-provider
//! load, and the queue pressure of a provider call.
//!
//! Counters saturate at their type's maximum. Sample windows keep the most
//! recent `MAX_LATENCY_SAMPLES` values (`MAX_ERROR_SAMPLES` for error
//! categories). Averages, percentiles and ratios are derived from this state
//! by the caller.
use vstd::prelude::*;

use crate::models::chat::{ChatCompletionRequest, TokenUsage};
use crate::routing::fallback::{sat_add, ProviderAttempt, ProviderErrorCategory};
use crate::routing::admission::decrement_or_remove;
use crate::strmap::StrMap;
use crate::telemetry::token_estimator::{estimate_tokens_for_messages, messages_tokens};

verus! {

/// Tokens per unit of queue pressure.
pub const QUEUE_PRESSURE_TOKEN_UNIT: u32 = 1_024;

/// The expected size of a provider call.
#[derive(Debug, Clone, Copy, Default)]
pub struct ProviderLoadEstimate {
    pub prompt_tokens: u32,
    pub max_completion_tokens: Option<u32>,
}

/// Queue pressure of a call: one unit, plus one per started block of
/// `QUEUE_PRESSURE_TOKEN_UNIT` expected tokens (prompt plus completion budget,
/// saturating at `u32::MAX`).
pub open spec fn queue_pressure_of(e: ProviderLoadEstimate) -> u64 {
    let completion: int = match e.max_completion_tokens {
        Some(m) => m as int,
        None => 0,
    };
    let tokens: int = if e.prompt_tokens + completion > u32::MAX { u32::MAX as int } else { e.prompt_tokens + completion };
    (1 + (tokens + QUEUE_PRESSURE_TOKEN_UNIT - 1) / QUEUE_PRESSURE_TOKEN_UNIT as int) as u64
}

impl ProviderLoadEstimate {
    /// The queue pressure units this call adds to its provider.
    pub fn queue_pressure_units(self) -> (u: u64)
        ensures
            u == queue_pressure_of(self),
    {
        let completion: u32 = match self.max_completion_tokens {
            Some(m) => m,
            None => 0,
        };
        let tokens: u32 = if self.prompt_tokens > u32::MAX - completion { u32::MAX } else { self.prompt_tokens + completion };
        let blocks: u64 = (tokens as u64 + (QUEUE_PRESSURE_TOKEN_UNIT as u64 - 1)) / QUEUE_PRESSURE_TOKEN_UNIT as u64;
        1 + blocks
    }
}

/// The load estimate of sending `request` to a provider: its estimated prompt
/// tokens and its completion budget.
pub fn provider_load_estimate(request: &ChatCompletionRequest) -> (e: ProviderLoadEstimate)
    requires
        messages_tokens(request.messages@) <= u32::MAX,
    ensures
        e.prompt_tokens == messages_tokens(request.messages@),
        e.max_completion_tokens == request.max_tokens,
{
    ProviderLoadEstimate { prompt_tokens: estimate_tokens_for_messages(request.messages.as_slice()), max_completion_tokens: request.max_tokens }
}

/// How a streamed response ended.
#[derive(Debug, Clone, Copy, PartialEq, Eq, Structural)]
pub enum StreamOutcome {
    Completed,
    MidStreamFailure,
    IdleTimeout,
    Incomplete,
    Cancelled,
}

pub open spec fn stream_outcome_name(o: StreamOutcome) -> Seq<char> {
    match o {
        StreamOutcome::Completed => "completed"@,
        StreamOutcome::MidStreamFailure => "mid_stream_failure"@,
        StreamOutcome::IdleTimeout => "idle_timeout"@,
        StreamOutcome::Incomplete => "incomplete"@,
        StreamOutcome::Cancelled => "cancelled"@,
    }
}

impl StreamOutcome {
    /// Stable lowercase name of the outcome.
    pub fn as_str(self) -> (s: &'static str)
        ensures
            s@ == stream_outcome_name(self),
    {
        match self {
            StreamOutcome::Completed => "completed",
            StreamOutcome::MidStreamFailure => "mid_stream_failure",
            StreamOutcome::IdleTimeout => "idle_timeout",
            StreamOutcome::Incomplete => "incomplete",
            StreamOutcome::Cancelled => "cancelled",
        }
    }
}

/// How many latency, time-to-first-token and stream duration samples are kept.
pub const MAX_LATENCY_SAMPLES: usize = 1_024;

/// How many recent error categories are kept per provider.
pub const MAX_ERROR_SAMPLES: usize = 1_024;

/// The count under `k`, zero where there is none.
pub open spec fn count_of(m: Map<Seq<char>, u64>, k: Seq<char>) -> u64 {
    if m.contains_key(k) { m[k] } else { 0 }
}

/// `m` with `by` added (saturating) to the count under `k`.
pub open spec fn counted(m: Map<Seq<char>, u64>, k: Seq<char>, by: u64) -> Map<Seq<char>, u64> {
    m.insert(k, sat_add(count_of(m, k), by))
}

pub open spec fn sat_add_wide(a: u128, b: u64) -> u128 {
    if a + b > u128::MAX { u128::MAX } else { (a + b) as u128 }
}

/// `m` with `by` added (saturating) to the total under `k`.
pub open spec fn totalled(m: Map<Seq<char>, u128>, k: Seq<char>, by: u64) -> Map<Seq<char>, u128> {
    m.insert(k, sat_add_wide(if m.contains_key(k) { m[k] } else { 0 }, by))
}

/// The row under `k` of a two-level count table, empty where there is none.
pub open spec fn row_of(m: Map<Seq<char>, Map<Seq<char>, u64>>, k: Seq<char>) -> Map<Seq<char>, u64> {
    if m.contains_key(k) { m[k] } else { Map::empty() }
}

/// A two-level count table with one more under `outer`, `inner`.
pub open spec fn counted2(m: Map<Seq<char>, Map<Seq<char>, u64>>, outer: Seq<char>, inner: Seq<char>) -> Map<
    Seq<char>,
    Map<Seq<char>, u64>,
> {
    m.insert(outer, counted(row_of(m, outer), inner, 1))
}

/// A sample window after `x` arrives: the oldest sample leaves once the window
/// holds `cap` of them.
pub open spec fn windowed<T>(s: Seq<T>, x: T, cap: nat) -> Seq<T> {
    if s.len() >= cap { s.drop_first().push(x) } else { s.push(x) }
}

/// The samples under `k`, none where there are none.
pub open spec fn samples_of<T>(m: Map<Seq<char>, Seq<T>>, k: Seq<char>) -> Seq<T> {
    if m.contains_key(k) { m[k] } else { Seq::empty() }
}

/// A per-key sample table after `x` arrives under `k`.
pub open spec fn sampled<T>(m: Map<Seq<char>, Seq<T>>, k: Seq<char>, x: T, cap: nat) -> Map<Seq<char>, Seq<T>> {
    m.insert(k, windowed(samples_of(m, k), x, cap))
}

/// The subtraction of `by` from the count under `k`, dropping the entry at zero.
pub open spec fn released(m: Map<Seq<char>, u64>, k: Seq<char>, by: u64) -> Map<Seq<char>, u64> {
    if !m.contains_key(k) {
        m
    } else if m[k] <= by {
        m.remove(k)
    } else {
        m.insert(k, (m[k] - by) as u64)
    }
}

/// The abstract state of the metrics registry.
pub struct MetricsModel {
    pub total_requests: u64,
    pub successful_requests: u64,
    pub failed_requests: u64,
    pub in_flight_requests: u64,
    pub total_provider_attempts: u64,
    pub fallback_attempts: u64,
    pub estimated_prompt_tokens: u64,
    pub estimated_completion_tokens: u64,
    pub estimated_total_tokens: u64,
    pub total_latency_ms: u128,
    pub requests_by_provider: Map<Seq<char>, u64>,
    pub successes_by_provider: Map<Seq<char>, u64>,
    pub errors_by_provider: Map<Seq<char>, u64>,
    pub fallback_attempts_by_provider: Map<Seq<char>, u64>,
    pub request_errors_by_category: Map<Seq<char>, u64>,
    pub provider_errors_by_provider_and_category: Map<Seq<char>, Map<Seq<char>, u64>>,
    pub provider_error_samples: Map<Seq<char>, Seq<ProviderErrorCategory>>,
    pub admission_rejections_by_reason: Map<Seq<char>, u64>,
    pub provider_latency_samples_ms: Map<Seq<char>, Seq<u64>>,
    pub provider_ttft_samples_ms: Map<Seq<char>, Seq<u64>>,
    pub provider_total_latency_ms: Map<Seq<char>, u128>,
    pub in_flight_requests_by_provider: Map<Seq<char>, u64>,
    pub provider_queue_pressure_units: Map<Seq<char>, u64>,
    pub routing_decisions_by_policy_and_reason: Map<Seq<char>, Map<Seq<char>, u64>>,
    pub prefix_fingerprints_by_outcome: Map<Seq<char>, u64>,
    pub latency_samples_ms: Seq<u64>,
    pub cache_lookups_by_outcome: Map<Seq<char>, u64>,
    pub stream_outcomes_by_outcome: Map<Seq<char>, u64>,
    pub stream_duration_samples_ms: Seq<u64>,
}

/// The registry after one provider attempt: counted against its provider,
/// its latency sampled, and its success, error category and fallback recorded.
pub open spec fn attempt_step(m: MetricsModel, a: ProviderAttempt) -> MetricsModel {
    attempt_step_of(m, a.provider_name@, a.latency_ms, a.success, a.is_fallback, a.error_category)
}

/// `attempt_step` for an attempt given by its parts.
pub open spec fn attempt_step_of(
    m: MetricsModel,
    p: Seq<char>,
    latency_ms: u64,
    success: bool,
    is_fallback: bool,
    error_category: Option<ProviderErrorCategory>,
) -> MetricsModel {
    let base = MetricsModel {
        total_provider_attempts: sat_add(m.total_provider_attempts, 1),
        requests_by_provider: counted(m.requests_by_provider, p, 1),
        provider_total_latency_ms: totalled(m.provider_total_latency_ms, p, latency_ms),
        provider_latency_samples_ms: sampled(m.provider_latency_samples_ms, p, latency_ms, MAX_LATENCY_SAMPLES as nat),
        ..m
    };
    let outcome = if success {
        MetricsModel { successes_by_provider: counted(base.successes_by_provider, p, 1), ..base }
    } else {
        let errored = MetricsModel { errors_by_provider: counted(base.errors_by_provider, p, 1), ..base };
        match error_category {
            Some(c) => MetricsModel {
                provider_error_samples: sampled(errored.provider_error_samples, p, c, MAX_ERROR_SAMPLES as nat),
                provider_errors_by_provider_and_category: counted2(
                    errored.provider_errors_by_provider_and_category,
                    p,
                    crate::routing::fallback::category_name(c),
                ),
                ..errored
            },
            None => errored,
        }
    };
    if is_fallback {
        MetricsModel {
            fallback_attempts: sat_add(outcome.fallback_attempts, 1),
            fallback_attempts_by_provider: counted(outcome.fallback_attempts_by_provider, p, 1),
            ..outcome
        }
    } else {
        outcome
    }
}

/// The registry after a sequence of provider attempts, in order.
pub open spec fn attempts_step(m: MetricsModel, attempts: Seq<ProviderAttempt>) -> MetricsModel
    decreases attempts.len(),
{
    if attempts.len() == 0 {
        m
    } else {
        attempt_step(attempts_step(m, attempts.drop_last()), attempts.last())
    }
}

/// The registry after a finished request's latency is recorded.
pub open spec fn latency_step(m: MetricsModel, latency_ms: u64) -> MetricsModel {
    MetricsModel {
        total_latency_ms: sat_add_wide(m.total_latency_ms, latency_ms),
        latency_samples_ms: windowed(m.latency_samples_ms, latency_ms, MAX_LATENCY_SAMPLES as nat),
        ..m
    }
}

/// The registry after a successful request.
pub open spec fn success_step(m: MetricsModel, usage: TokenUsage, latency_ms: u64, attempts: Seq<ProviderAttempt>) -> MetricsModel {
    attempts_step(latency_step(success_counted(m, usage), latency_ms), attempts)
}

/// The request counters and token estimates after a successful request.
pub open spec fn success_counted(m: MetricsModel, usage: TokenUsage) -> MetricsModel {
    MetricsModel {
        total_requests: sat_add(m.total_requests, 1),
        successful_requests: sat_add(m.successful_requests, 1),
        estimated_prompt_tokens: sat_add(m.estimated_prompt_tokens, usage.prompt_tokens as u64),
        estimated_completion_tokens: sat_add(m.estimated_completion_tokens, usage.completion_tokens as u64),
        estimated_total_tokens: sat_add(m.estimated_total_tokens, usage.total_tokens as u64),
        ..m
    }
}

/// The registry after a failed request, with the category of its error where
/// one is known.
pub open spec fn failure_step(
    m: MetricsModel,
    latency_ms: u64,
    attempts: Seq<ProviderAttempt>,
    category: Option<Seq<char>>,
) -> MetricsModel {
    attempts_step(latency_step(failure_counted(m, category), latency_ms), attempts)
}

/// The request counters after a failed request.
pub open spec fn failure_counted(m: MetricsModel, category: Option<Seq<char>>) -> MetricsModel {
    MetricsModel {
        total_requests: sat_add(m.total_requests, 1),
        failed_requests: sat_add(m.failed_requests, 1),
        request_errors_by_category: match category {
            Some(c) => counted(m.request_errors_by_category, c, 1),
            None => m.request_errors_by_category,
        },
        ..m
    }
}

proof fn lemma_attempts_keep_request_counts(m: MetricsModel, attempts: Seq<ProviderAttempt>)
    ensures
        attempts_step(m, attempts).total_requests == m.total_requests,
        attempts_step(m, attempts).successful_requests == m.successful_requests,
        attempts_step(m, attempts).failed_requests == m.failed_requests,
    decreases attempts.len(),
{
    if attempts.len() > 0 {
        lemma_attempts_keep_request_counts(m, attempts.drop_last());
    }
}

/// Every finished request is counted once, as a success or as a failure: the
/// total stays the sum of the two (below the saturation point).
pub proof fn law_requests_are_successes_plus_failures(
    m: MetricsModel,
    usage: TokenUsage,
    latency_ms: u64,
    attempts: Seq<ProviderAttempt>,
    category: Option<Seq<char>>,
)
    requires
        m.total_requests == m.successful_requests + m.failed_requests,
        m.total_requests < u64::MAX,
    ensures
        success_step(m, usage, latency_ms, attempts).total_requests == success_step(m, usage, latency_ms, attempts).successful_requests
            + success_step(m, usage, latency_ms, attempts).failed_requests,
        success_step(m, usage, latency_ms, attempts).total_requests == m.total_requests + 1,
        failure_step(m, latency_ms, attempts, category).total_requests == failure_step(m, latency_ms, attempts, category).successful_requests
            + failure_step(m, latency_ms, attempts, category).failed_requests,
        failure_step(m, latency_ms, attempts, category).total_requests == m.total_requests + 1,
{
    lemma_attempts_keep_request_counts(latency_step(success_counted(m, usage), latency_ms), attempts);
    lemma_attempts_keep_request_counts(latency_step(failure_counted(m, category), latency_ms), attempts);
}

/// The order of latency samples.
pub open spec fn sample_leq() -> spec_fn(u64, u64) -> bool {
    |a: u64, b: u64| a <= b
}

proof fn lemma_sample_leq_total()
    ensures
        vstd::relations::total_ordering(sample_leq()),
{
    let leq = sample_leq();
    assert(vstd::relations::reflexive(leq));
    assert(vstd::relations::antisymmetric(leq));
    assert(vstd::relations::transitive(leq));
    assert(vstd::relations::strongly_connected(leq));
}

/// The samples in ascending order (for nearest-rank percentiles).
pub fn sorted_samples(samples: &[u64]) -> (r: Vec<u64>)
    ensures
        r@ == samples@.sort_by(sample_leq()),
{
    let n = samples.len();
    let mut r: Vec<u64> = Vec::new();
    let mut k: usize = 0;
    assert(samples@.take(0) =~= Seq::<u64>::empty());
    while k < n
        invariant
            n == samples@.len(),
            k <= n,
            vstd::relations::sorted_by(r@, sample_leq()),
            r@.to_multiset() == samples@.take(k as int).to_multiset(),
        decreases n - k,
    {
        let x = samples[k];
        let mut pos: usize = 0;
        while pos < r.len() && r[pos] <= x
            invariant
                pos <= r.len(),
                forall|i: int| 0 <= i < pos ==> #[trigger] r@[i] <= x,
            decreases r.len() - pos,
        {
            pos = pos + 1;
        }
        let ghost before = r@;
        proof {
            if pos < before.len() {
                assert forall|i: int| pos <= i < before.len() implies x < #[trigger] before[i] by {
                    if i > pos {
                        assert(sample_leq()(before[pos as int], before[i]));
                    }
                }
            }
        }
        r.insert(pos, x);
        proof {
            assert(r@ == before.insert(pos as int, x));
            vstd::seq_lib::to_multiset_insert(before, pos as int, x);
            assert(samples@.take(k as int + 1) =~= samples@.take(k as int).push(x));
            vstd::seq_lib::to_multiset_build(samples@.take(k as int), x);
            assert forall|i: int, j: int| 0 <= i < j < r@.len() implies #[trigger] sample_leq()(r@[i], r@[j]) by {
                if j < pos {
                    assert(sample_leq()(before[i], before[j]));
                } else if j == pos {
                } else if i < pos {
                    assert(r@[j] == before[j - 1]);
                } else if i == pos {
                    assert(r@[j] == before[j - 1]);
                } else {
                    assert(sample_leq()(before[i - 1], before[j - 1]));
                }
            }
        }
        k = k + 1;
    }
    proof {
        assert(samples@.take(n as int) =~= samples@);
        lemma_sample_leq_total();
        samples@.lemma_sort_by_ensures(sample_leq());
        vstd::seq_lib::lemma_sorted_unique(r@, samples@.sort_by(sample_leq()), sample_leq());
    }
    r
}

/// How many times each error category occurs among `samples`.
pub open spec fn tally(samples: Seq<ProviderErrorCategory>) -> Map<Seq<char>, u64>
    decreases samples.len(),
{
    if samples.len() == 0 {
        Map::empty()
    } else {
        counted(tally(samples.drop_last()), crate::routing::fallback::category_name(samples.last()), 1)
    }
}

/// The recent errors of one provider, counted by category.
pub fn tally_error_categories(samples: &[ProviderErrorCategory]) -> (r: StrMap<u64>)
    ensures
        r.wf(),
        r@ == tally(samples@),
{
    let mut r: StrMap<u64> = StrMap::new();
    let n = samples.len();
    let mut i: usize = 0;
    while i < n
        invariant
            n == samples@.len(),
            i <= n,
            r.wf(),
            r@ == tally(samples@.take(i as int)),
        decreases n - i,
    {
        assert(samples@.take(i as int + 1).drop_last() =~= samples@.take(i as int));
        count_in(&mut r, samples[i].as_str(), 1);
        i = i + 1;
    }
    assert(samples@.take(n as int) =~= samples@);
    r
}

/// The view of a two-level count table.
pub open spec fn table2(m: StrMap<StrMap<u64>>) -> Map<Seq<char>, Map<Seq<char>, u64>> {
    m@.map_values(|row: StrMap<u64>| row@)
}

/// A two-level count table whose rows are well formed.
pub open spec fn table2_wf(m: StrMap<StrMap<u64>>) -> bool {
    m.wf() && forall|k: Seq<char>| #[trigger] m@.contains_key(k) ==> m@[k].wf()
}

/// The view of a per-key sample table.
pub open spec fn sample_table<T>(m: StrMap<Vec<T>>) -> Map<Seq<char>, Seq<T>> {
    m@.map_values(|v: Vec<T>| v@)
}

/// Every window of a sample table holds at most `cap` samples.
pub open spec fn sample_table_bounded<T>(m: Map<Seq<char>, Seq<T>>, cap: nat) -> bool {
    forall|k: Seq<char>| #[trigger] m.contains_key(k) ==> m[k].len() <= cap
}

/// The registry after a call to provider `p` with `units` of queue pressure starts.
pub open spec fn provider_call_begun(m: MetricsModel, p: Seq<char>, units: u64) -> MetricsModel {
    MetricsModel {
        in_flight_requests_by_provider: counted(m.in_flight_requests_by_provider, p, 1),
        provider_queue_pressure_units: counted(m.provider_queue_pressure_units, p, units),
        ..m
    }
}

/// The registry after a call to provider `p` with `units` of queue pressure ends.
pub open spec fn provider_call_ended(m: MetricsModel, p: Seq<char>, units: u64) -> MetricsModel {
    MetricsModel {
        in_flight_requests_by_provider: released(m.in_flight_requests_by_provider, p, 1),
        provider_queue_pressure_units: released(m.provider_queue_pressure_units, p, units),
        ..m
    }
}

/// A load table holds no zero entries.
pub open spec fn no_zero_counts(m: Map<Seq<char>, u64>) -> bool {
    forall|k: Seq<char>| #[trigger] m.contains_key(k) ==> m[k] > 0
}

proof fn lemma_release_undoes_count(m: Map<Seq<char>, u64>, k: Seq<char>, units: u64)
    requires
        no_zero_counts(m),
        count_of(m, k) + units <= u64::MAX,
    ensures
        released(counted(m, k, units), k, units) == m,
{
    if m.contains_key(k) {
        assert(released(counted(m, k, units), k, units) =~= m);
    } else {
        assert(released(counted(m, k, units), k, units) =~= m);
    }
}

/// Ending a provider call undoes starting it: the in-flight count and queue
/// pressure of every provider are back where they were (while the counts
/// stay below the saturation point).
pub proof fn law_provider_call_end_undoes_begin(m: MetricsModel, p: Seq<char>, units: u64)
    requires
        no_zero_counts(m.in_flight_requests_by_provider),
        no_zero_counts(m.provider_queue_pressure_units),
        count_of(m.in_flight_requests_by_provider, p) < u64::MAX,
        count_of(m.provider_queue_pressure_units, p) + units <= u64::MAX,
    ensures
        provider_call_ended(provider_call_begun(m, p, units), p, units) == m,
{
    lemma_release_undoes_count(m.in_flight_requests_by_provider, p, 1);
    lemma_release_undoes_count(m.provider_queue_pressure_units, p, units);
}

/// The window after each of `xs` arrives in turn.
pub open spec fn windowed_all<T>(s: Seq<T>, xs: Seq<T>, cap: nat) -> Seq<T>
    decreases xs.len(),
{
    if xs.len() == 0 {
        s
    } else {
        windowed(windowed_all(s, xs.drop_last(), cap), xs.last(), cap)
    }
}

/// A sample window keeps exactly the most recent `cap` samples: after any
/// arrivals it is the tail of everything that arrived, at most `cap` long.
pub proof fn law_window_keeps_most_recent<T>(s: Seq<T>, xs: Seq<T>, cap: nat)
    requires
        s.len() <= cap,
        cap > 0,
    ensures
        windowed_all(s, xs, cap) == (s + xs).skip(
            if (s + xs).len() > cap { (s + xs).len() - cap } else { 0 },
        ),
        windowed_all(s, xs, cap).len() <= cap,
    decreases xs.len(),
{
    if xs.len() == 0 {
        assert(s + xs =~= s);
        assert(s.skip(0) =~= s);
    } else {
        let ys = xs.drop_last();
        let x = xs.last();
        law_window_keeps_most_recent(s, ys, cap);
        let t = s + ys;
        let d: int = if t.len() > cap { t.len() - cap } else { 0 };
        let w = windowed_all(s, ys, cap);
        assert(w == t.skip(d));
        assert(s + xs =~= t.push(x));
        if w.len() >= cap {
            assert(w.drop_first().push(x) =~= t.push(x).skip(d + 1));
        } else {
            assert(d == 0);
            assert(w.push(x) =~= t.push(x).skip(0));
        }
    }
}

/// Adds `by` (saturating) to the count under `key`.
pub(crate) fn count_in(m: &mut StrMap<u64>, key: &str, by: u64)
    requires
        old(m).wf(),
    ensures
        final(m).wf(),
        final(m)@ == counted(old(m)@, key@, by),
{
    let cur: u64 = match m.get(key) {
        Some(v) => *v,
        None => 0,
    };
    m.insert(key.to_string(), cur.saturating_add(by));
}

/// Adds `by` (saturating) to the total under `key`.
pub(crate) fn total_in(m: &mut StrMap<u128>, key: &str, by: u64)
    requires
        old(m).wf(),
    ensures
        final(m).wf(),
        final(m)@ == totalled(old(m)@, key@, by),
{
    let cur: u128 = match m.get(key) {
        Some(v) => *v,
        None => 0,
    };
    m.insert(key.to_string(), cur.saturating_add(by as u128));
}

/// Counts one more under `outer`, `inner` of a two-level table.
fn count_in2(m: &mut StrMap<StrMap<u64>>, outer: &str, inner: &str)
    requires
        table2_wf(*old(m)),
    ensures
        table2_wf(*final(m)),
        table2(*final(m)) == counted2(table2(*old(m)), outer@, inner@),
{
    let mut row = match m.remove(outer) {
        Some(r) => r,
        None => StrMap::new(),
    };
    assert(row@ == row_of(table2(*old(m)), outer@));
    count_in(&mut row, inner, 1);
    let ghost row_view = row@;
    m.insert(outer.to_string(), row);
    assert(table2(*m) =~= counted2(table2(*old(m)), outer@, inner@));
}

/// Appends `x` to a window of at most `cap` samples, dropping the oldest one
/// when it is full.
fn push_window<T>(v: &mut Vec<T>, x: T, cap: usize)
    requires
        old(v).len() <= cap,
        cap > 0,
    ensures
        final(v)@ == windowed(old(v)@, x, cap as nat),
        final(v).len() <= cap,
{
    if v.len() == cap {
        v.remove(0);
        assert(v@ =~= old(v)@.drop_first());
    }
    v.push(x);
}

/// Appends `x` to the window under `key` of a sample table.
fn sample_in<T>(m: &mut StrMap<Vec<T>>, key: &str, x: T, cap: usize)
    requires
        old(m).wf(),
        sample_table_bounded(sample_table(*old(m)), cap as nat),
        cap > 0,
    ensures
        final(m).wf(),
        sample_table(*final(m)) == sampled(sample_table(*old(m)), key@, x, cap as nat),
        sample_table_bounded(sample_table(*final(m)), cap as nat),
{
    let mut window = match m.remove(key) {
        Some(w) => w,
        None => Vec::new(),
    };
    assert(window@ == samples_of(sample_table(*old(m)), key@));
    push_window(&mut window, x, cap);
    m.insert(key.to_string(), window);
    assert(sample_table(*m) =~= sampled(sample_table(*old(m)), key@, x, cap as nat));
}

/// The gateway's metrics: request and attempt counters, token estimates,
/// per-provider counts, in-flight load and bounded sample windows.
pub struct MetricsRegistry {
    pub total_requests: u64,
    pub successful_requests: u64,
    pub failed_requests: u64,
    pub in_flight_requests: u64,
    pub total_provider_attempts: u64,
    pub fallback_attempts: u64,
    pub estimated_prompt_tokens: u64,
    pub estimated_completion_tokens: u64,
    pub estimated_total_tokens: u64,
    pub total_latency_ms: u128,
    pub requests_by_provider: StrMap<u64>,
    pub successes_by_provider: StrMap<u64>,
    pub errors_by_provider: StrMap<u64>,
    pub fallback_attempts_by_provider: StrMap<u64>,
    pub request_errors_by_category: StrMap<u64>,
    pub provider_errors_by_provider_and_category: StrMap<StrMap<u64>>,
    pub provider_error_samples: StrMap<Vec<ProviderErrorCategory>>,
    pub admission_rejections_by_reason: StrMap<u64>,
    pub provider_latency_samples_ms: StrMap<Vec<u64>>,
    pub provider_ttft_samples_ms: StrMap<Vec<u64>>,
    pub provider_total_latency_ms: StrMap<u128>,
    pub in_flight_requests_by_provider: StrMap<u64>,
    pub provider_queue_pressure_units: StrMap<u64>,
    pub routing_decisions_by_policy_and_reason: StrMap<StrMap<u64>>,
    pub prefix_fingerprints_by_outcome: StrMap<u64>,
    pub latency_samples_ms: Vec<u64>,
    pub cache_lookups_by_outcome: StrMap<u64>,
    pub stream_outcomes_by_outcome: StrMap<u64>,
    pub stream_duration_samples_ms: Vec<u64>,
}

impl View for MetricsRegistry {
    type V = MetricsModel;

    open spec fn view(&self) -> MetricsModel {
        MetricsModel {
            total_requests: self.total_requests,
            successful_requests: self.successful_requests,
            failed_requests: self.failed_requests,
            in_flight_requests: self.in_flight_requests,
            total_provider_attempts: self.total_provider_attempts,
            fallback_attempts: self.fallback_attempts,
            estimated_prompt_tokens: self.estimated_prompt_tokens,
            estimated_completion_tokens: self.estimated_completion_tokens,
            estimated_total_tokens: self.estimated_total_tokens,
            total_latency_ms: self.total_latency_ms,
            requests_by_provider: self.requests_by_provider@,
            successes_by_provider: self.successes_by_provider@,
            errors_by_provider: self.errors_by_provider@,
            fallback_attempts_by_provider: self.fallback_attempts_by_provider@,
            request_errors_by_category: self.request_errors_by_category@,
            provider_errors_by_provider_and_category: table2(self.provider_errors_by_provider_and_category),
            provider_error_samples: sample_table(self.provider_error_samples),
            admission_rejections_by_reason: self.admission_rejections_by_reason@,
            provider_latency_samples_ms: sample_table(self.provider_latency_samples_ms),
            provider_ttft_samples_ms: sample_table(self.provider_ttft_samples_ms),
            provider_total_latency_ms: self.provider_total_latency_ms@,
            in_flight_requests_by_provider: self.in_flight_requests_by_provider@,
            provider_queue_pressure_units: self.provider_queue_pressure_units@,
            routing_decisions_by_policy_and_reason: table2(self.routing_decisions_by_policy_and_reason),
            prefix_fingerprints_by_outcome: self.prefix_fingerprints_by_outcome@,
            latency_samples_ms: self.latency_samples_ms@,
            cache_lookups_by_outcome: self.cache_lookups_by_outcome@,
            stream_outcomes_by_outcome: self.stream_outcomes_by_outcome@,
            stream_duration_samples_ms: self.stream_duration_samples_ms@,
        }
    }
}

/// The registry before anything is recorded.
pub open spec fn empty_metrics() -> MetricsModel {
    MetricsModel {
        total_requests: 0,
        successful_requests: 0,
        failed_requests: 0,
        in_flight_requests: 0,
        total_provider_attempts: 0,
        fallback_attempts: 0,
        estimated_prompt_tokens: 0,
        estimated_completion_tokens: 0,
        estimated_total_tokens: 0,
        total_latency_ms: 0,
        requests_by_provider: Map::empty(),
        successes_by_provider: Map::empty(),
        errors_by_provider: Map::empty(),
        fallback_attempts_by_provider: Map::empty(),
        request_errors_by_category: Map::empty(),
        provider_errors_by_provider_and_category: Map::empty(),
        provider_error_samples: Map::empty(),
        admission_rejections_by_reason: Map::empty(),
        provider_latency_samples_ms: Map::empty(),
        provider_ttft_samples_ms: Map::empty(),
        provider_total_latency_ms: Map::empty(),
        in_flight_requests_by_provider: Map::empty(),
        provider_queue_pressure_units: Map::empty(),
        routing_decisions_by_policy_and_reason: Map::empty(),
        prefix_fingerprints_by_outcome: Map::empty(),
        latency_samples_ms: Seq::empty(),
        cache_lookups_by_outcome: Map::empty(),
        stream_outcomes_by_outcome: Map::empty(),
        stream_duration_samples_ms: Seq::empty(),
    }
}

impl Default for MetricsRegistry {
    fn default() -> (r: Self)
        ensures
            r.wf(),
            r@ == empty_metrics(),
    {
        MetricsRegistry::new()
    }
}

impl MetricsRegistry {
    /// Every table is well formed and every sample window within its bound.
    pub open spec fn wf(&self) -> bool {
        &&& self.requests_by_provider.wf()
        &&& self.successes_by_provider.wf()
        &&& self.errors_by_provider.wf()
        &&& self.fallback_attempts_by_provider.wf()
        &&& self.request_errors_by_category.wf()
        &&& table2_wf(self.provider_errors_by_provider_and_category)
        &&& self.provider_error_samples.wf()
        &&& sample_table_bounded(sample_table(self.provider_error_samples), MAX_ERROR_SAMPLES as nat)
        &&& self.admission_rejections_by_reason.wf()
        &&& self.provider_latency_samples_ms.wf()
        &&& sample_table_bounded(sample_table(self.provider_latency_samples_ms), MAX_LATENCY_SAMPLES as nat)
        &&& self.provider_ttft_samples_ms.wf()
        &&& sample_table_bounded(sample_table(self.provider_ttft_samples_ms), MAX_LATENCY_SAMPLES as nat)
        &&& self.provider_total_latency_ms.wf()
        &&& self.in_flight_requests_by_provider.wf()
        &&& self.provider_queue_pressure_units.wf()
        &&& table2_wf(self.routing_decisions_by_policy_and_reason)
        &&& self.prefix_fingerprints_by_outcome.wf()
        &&& self.latency_samples_ms.len() <= MAX_LATENCY_SAMPLES
        &&& self.cache_lookups_by_outcome.wf()
        &&& self.stream_outcomes_by_outcome.wf()
        &&& self.stream_duration_samples_ms.len() <= MAX_LATENCY_SAMPLES
    }

    /// An empty registry.
    pub fn new() -> (r: Self)
        ensures
            r.wf(),
            r@ == empty_metrics(),
    {
        let r = MetricsRegistry {
            total_requests: 0,
            successful_requests: 0,
            failed_requests: 0,
            in_flight_requests: 0,
            total_provider_attempts: 0,
            fallback_attempts: 0,
            estimated_prompt_tokens: 0,
            estimated_completion_tokens: 0,
            estimated_total_tokens: 0,
            total_latency_ms: 0,
            requests_by_provider: StrMap::new(),
            successes_by_provider: StrMap::new(),
            errors_by_provider: StrMap::new(),
            fallback_attempts_by_provider: StrMap::new(),
            request_errors_by_category: StrMap::new(),
            provider_errors_by_provider_and_category: StrMap::new(),
            provider_error_samples: StrMap::new(),
            admission_rejections_by_reason: StrMap::new(),
            provider_latency_samples_ms: StrMap::new(),
            provider_ttft_samples_ms: StrMap::new(),
            provider_total_latency_ms: StrMap::new(),
            in_flight_requests_by_provider: StrMap::new(),
            provider_queue_pressure_units: StrMap::new(),
            routing_decisions_by_policy_and_reason: StrMap::new(),
            prefix_fingerprints_by_outcome: StrMap::new(),
            latency_samples_ms: Vec::new(),
            cache_lookups_by_outcome: StrMap::new(),
            stream_outcomes_by_outcome: StrMap::new(),
            stream_duration_samples_ms: Vec::new(),
        };
        assert(table2(r.provider_errors_by_provider_and_category) =~= Map::empty());
        assert(table2(r.routing_decisions_by_policy_and_reason) =~= Map::empty());
        assert(sample_table(r.provider_error_samples) =~= Map::empty());
        assert(sample_table(r.provider_latency_samples_ms) =~= Map::empty());
        assert(sample_table(r.provider_ttft_samples_ms) =~= Map::empty());
        assert(r@ =~= empty_metrics());
        r
    }

    /// A request starts.
    pub fn begin_request(&mut self)
        requires
            old(self).wf(),
        ensures
            final(self).wf(),
            final(self)@ == (MetricsModel { in_flight_requests: sat_add(old(self)@.in_flight_requests, 1), ..old(self)@ }),
    {
        self.in_flight_requests = self.in_flight_requests.saturating_add(1);
    }

    /// A request ends.
    pub fn end_request(&mut self)
        requires
            old(self).wf(),
        ensures
            final(self).wf(),
            final(self)@ == (MetricsModel {
                in_flight_requests: if old(self)@.in_flight_requests == 0 { 0 } else { (old(self)@.in_flight_requests - 1) as u64 },
                ..old(self)@
            }),
    {
        self.in_flight_requests = self.in_flight_requests.saturating_sub(1);
    }

    /// A call to `provider_name` starts, adding `queue_pressure_units` of load.
    pub fn begin_provider_request(&mut self, provider_name: &str, queue_pressure_units: u64)
        requires
            old(self).wf(),
        ensures
            final(self).wf(),
            final(self)@ == provider_call_begun(old(self)@, provider_name@, queue_pressure_units),
    {
        count_in(&mut self.in_flight_requests_by_provider, provider_name, 1);
        count_in(&mut self.provider_queue_pressure_units, provider_name, queue_pressure_units);
    }

    /// A call to `provider_name` ends, releasing its `queue_pressure_units`.
    pub fn end_provider_request(&mut self, provider_name: &str, queue_pressure_units: u64)
        requires
            old(self).wf(),
        ensures
            final(self).wf(),
            final(self)@ == provider_call_ended(old(self)@, provider_name@, queue_pressure_units),
    {
        decrement_or_remove(&mut self.in_flight_requests_by_provider, provider_name, 1);
        decrement_or_remove(&mut self.provider_queue_pressure_units, provider_name, queue_pressure_units);
    }

    /// The time to the first token of a streamed response from `provider_name`.
    pub fn record_provider_ttft(&mut self, provider_name: &str, ttft_ms: u64)
        requires
            old(self).wf(),
        ensures
            final(self).wf(),
            final(self)@ == (MetricsModel {
                provider_ttft_samples_ms: sampled(
                    old(self)@.provider_ttft_samples_ms,
                    provider_name@,
                    ttft_ms,
                    MAX_LATENCY_SAMPLES as nat,
                ),
                ..old(self)@
            }),
    {
        sample_in(&mut self.provider_ttft_samples_ms, provider_name, ttft_ms, MAX_LATENCY_SAMPLES);
    }

    /// A routing decision under `policy` for `reason`.
    pub fn record_routing_decision(&mut self, policy: &str, reason: &str)
        requires
            old(self).wf(),
        ensures
            final(self).wf(),
            final(self)@ == (MetricsModel {
                routing_decisions_by_policy_and_reason: counted2(
                    old(self)@.routing_decisions_by_policy_and_reason,
                    policy@,
                    reason@,
                ),
                ..old(self)@
            }),
    {
        count_in2(&mut self.routing_decisions_by_policy_and_reason, policy, reason);
    }

    /// A prefix fingerprint with the given outcome.
    pub fn record_prefix_fingerprint(&mut self, outcome: &str)
        requires
            old(self).wf(),
        ensures
            final(self).wf(),
            final(self)@ == (MetricsModel {
                prefix_fingerprints_by_outcome: counted(old(self)@.prefix_fingerprints_by_outcome, outcome@, 1),
                ..old(self)@
            }),
    {
        count_in(&mut self.prefix_fingerprints_by_outcome, outcome, 1);
    }

    /// A request refused by admission control for `reason`.
    pub fn record_admission_rejection(&mut self, reason: &str)
        requires
            old(self).wf(),
        ensures
            final(self).wf(),
            final(self)@ == (MetricsModel {
                admission_rejections_by_reason: counted(old(self)@.admission_rejections_by_reason, reason@, 1),
                ..old(self)@
            }),
    {
        count_in(&mut self.admission_rejections_by_reason, reason, 1);
    }

    /// A response cache lookup with the given outcome.
    pub fn record_cache_lookup(&mut self, outcome: &str)
        requires
            old(self).wf(),
        ensures
            final(self).wf(),
            final(self)@ == (MetricsModel {
                cache_lookups_by_outcome: counted(old(self)@.cache_lookups_by_outcome, outcome@, 1),
                ..old(self)@
            }),
    {
        count_in(&mut self.cache_lookups_by_outcome, outcome, 1);
    }

    /// A stream that ended with `outcome` after `duration_ms`.
    pub fn record_stream_outcome(&mut self, outcome: &str, duration_ms: u64)
        requires
            old(self).wf(),
        ensures
            final(self).wf(),
            final(self)@ == (MetricsModel {
                stream_outcomes_by_outcome: counted(old(self)@.stream_outcomes_by_outcome, outcome@, 1),
                stream_duration_samples_ms: windowed(
                    old(self)@.stream_duration_samples_ms,
                    duration_ms,
                    MAX_LATENCY_SAMPLES as nat,
                ),
                ..old(self)@
            }),
    {
        count_in(&mut self.stream_outcomes_by_outcome, outcome, 1);
        push_window(&mut self.stream_duration_samples_ms, duration_ms, MAX_LATENCY_SAMPLES);
    }

    fn record_latency_sample(&mut self, latency_ms: u64)
        requires
            old(self).wf(),
        ensures
            final(self).wf(),
            final(self)@ == latency_step(old(self)@, latency_ms),
    {
        self.total_latency_ms = self.total_latency_ms.saturating_add(latency_ms as u128);
        push_window(&mut self.latency_samples_ms, latency_ms, MAX_LATENCY_SAMPLES);
    }

    fn record_provider_attempt(&mut self, attempt: &ProviderAttempt)
        requires
            old(self).wf(),
        ensures
            final(self).wf(),
            final(self)@ == attempt_step(old(self)@, *attempt),
    {
        let name = attempt.provider_name.as_str();
        self.total_provider_attempts = self.total_provider_attempts.saturating_add(1);
        count_in(&mut self.requests_by_provider, name, 1);
        total_in(&mut self.provider_total_latency_ms, name, attempt.latency_ms);
        sample_in(&mut self.provider_latency_samples_ms, name, attempt.latency_ms, MAX_LATENCY_SAMPLES);
        if attempt.success {
            count_in(&mut self.successes_by_provider, name, 1);
        } else {
            count_in(&mut self.errors_by_provider, name, 1);
            if let Some(category) = attempt.error_category {
                sample_in(&mut self.provider_error_samples, name, category, MAX_ERROR_SAMPLES);
                count_in2(&mut self.provider_errors_by_provider_and_category, name, category.as_str());
            }
        }
        if attempt.is_fallback {
            self.fallback_attempts = self.fallback_attempts.saturating_add(1);
            count_in(&mut self.fallback_attempts_by_provider, name, 1);
        }
    }

    fn record_provider_attempts(&mut self, attempts: &[ProviderAttempt])
        requires
            old(self).wf(),
        ensures
            final(self).wf(),
            final(self)@ == attempts_step(old(self)@, attempts@),
    {
        let n = attempts.len();
        let mut i: usize = 0;
        while i < n
            invariant
                n == attempts.len(),
                i <= n,
                self.wf(),
                self@ == attempts_step(old(self)@, attempts@.take(i as int)),
            decreases n - i,
        {
            self.record_provider_attempt(&attempts[i]);
            assert(attempts@.take(i as int + 1).drop_last() =~= attempts@.take(i as int));
            i = i + 1;
        }
        assert(attempts@.take(n as int) =~= attempts@);
    }

    /// A request that succeeded after the given provider attempts.
    pub fn record_chat_success(
        &mut self,
        provider_name: &str,
        usage: &TokenUsage,
        latency_ms: u64,
        attempts: &[ProviderAttempt],
    )
        requires
            old(self).wf(),
        ensures
            final(self).wf(),
            final(self)@ == success_step(old(self)@, *usage, latency_ms, attempts@),
    {
        self.total_requests = self.total_requests.saturating_add(1);
        self.successful_requests = self.successful_requests.saturating_add(1);
        self.estimated_prompt_tokens = self.estimated_prompt_tokens.saturating_add(usage.prompt_tokens as u64);
        self.estimated_completion_tokens = self.estimated_completion_tokens.saturating_add(
            usage.completion_tokens as u64,
        );
        self.estimated_total_tokens = self.estimated_total_tokens.saturating_add(usage.total_tokens as u64);
        self.record_latency_sample(latency_ms);
        self.record_provider_attempts(attempts);
    }

    /// A request that failed after the given provider attempts.
    pub fn record_chat_failure(&mut self, latency_ms: u64, attempts: &[ProviderAttempt])
        requires
            old(self).wf(),
        ensures
            final(self).wf(),
            final(self)@ == failure_step(old(self)@, latency_ms, attempts@, None),
    {
        self.record_chat_failure_with_category(latency_ms, attempts, None);
    }

    /// A request that failed after the given provider attempts, counted under
    /// its error category where one is given.
    pub fn record_chat_failure_with_category(
        &mut self,
        latency_ms: u64,
        attempts: &[ProviderAttempt],
        error_category: Option<&str>,
    )
        requires
            old(self).wf(),
        ensures
            final(self).wf(),
            final(self)@ == failure_step(
                old(self)@,
                latency_ms,
                attempts@,
                match error_category {
                    Some(c) => Some(c@),
                    None => None,
                },
            ),
    {
        self.total_requests = self.total_requests.saturating_add(1);
        self.failed_requests = self.failed_requests.saturating_add(1);
        if let Some(category) = error_category {
            count_in(&mut self.request_errors_by_category, category, 1);
        }
        self.record_latency_sample(latency_ms);
        self.record_provider_attempts(attempts);
    }

    /// A single successful call to `provider_name`.
    pub fn record_success(&mut self, provider_name: &str, usage: &TokenUsage, latency_ms: u64)
        requires
            old(self).wf(),
        ensures
            final(self).wf(),
            final(self)@ == attempt_step_of(
                latency_step(success_counted(old(self)@, *usage), latency_ms),
                provider_name@,
                latency_ms,
                true,
                false,
                None,
            ),
    {
        let attempts = [ProviderAttempt {
            provider_name: provider_name.to_string(),
            attempt_order: 1,
            latency_ms,
            success: true,
            is_fallback: false,
            error_category: None,
        }];
        self.record_chat_success(provider_name, usage, latency_ms, &attempts);
        proof {
            reveal_with_fuel(attempts_step, 2);
            assert(attempts@.drop_last() =~= Seq::<ProviderAttempt>::empty());
        }
    }

    /// A single failed call to `provider_name`.
    pub fn record_failure(&mut self, provider_name: &str, latency_ms: u64)
        requires
            old(self).wf(),
        ensures
            final(self).wf(),
            final(self)@ == attempt_step_of(
                latency_step(failure_counted(old(self)@, None), latency_ms),
                provider_name@,
                latency_ms,
                false,
                false,
                None,
            ),
    {
        let attempts = [ProviderAttempt {
            provider_name: provider_name.to_string(),
            attempt_order: 1,
            latency_ms,
            success: false,
            is_fallback: false,
            error_category: None,
        }];
        self.record_chat_failure(latency_ms, &attempts);
        proof {
            reveal_with_fuel(attempts_step, 2);
            assert(attempts@.drop_last() =~= Seq::<ProviderAttempt>::empty());
        }
    }
}

} // verus!
