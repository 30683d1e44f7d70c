//! Fallback across providers: which errors move on to the next provider,
//! how long to back off between retries, and the decision loop that walks the
//! candidate list while the caller performs the provider calls.
use vstd::prelude::*;
use vstd::utf8::encode_utf8;

use crate::providers::anthropic::spec_status_error;
use crate::providers::provider::ProviderError;
use crate::routing::admission::{
    count_of, release_slots, AdmissionController, AdmissionCounters, AdmissionGuard, AdmissionLimits, AdmissionRejection,
    AdmissionRejectionReason,
};
use crate::routing::resilience::{
    allow_step, circuit_or_fresh, failure_step, fresh_circuit, CircuitBreakerPolicy, CircuitState, ProviderCircuitState,
    ResilienceRegistry, RetryPolicy,
};

verus! {

/// What to do after a provider error.
#[derive(Debug, Clone, Copy, PartialEq, Eq, Structural)]
pub enum RetryDecision {
    TryNextProvider,
    Stop,
}

/// Category of a failed provider attempt, used in metrics and logs.
#[derive(Debug, Clone, Copy, PartialEq, Eq, Structural)]
pub enum ProviderErrorCategory {
    Timeout,
    RateLimited,
    AuthenticationFailed,
    ProviderUnavailable,
    ProviderBadResponse,
}

pub open spec fn category_name(c: ProviderErrorCategory) -> Seq<char> {
    match c {
        ProviderErrorCategory::Timeout => "timeout"@,
        ProviderErrorCategory::RateLimited => "rate_limited"@,
        ProviderErrorCategory::AuthenticationFailed => "authentication_failed"@,
        ProviderErrorCategory::ProviderUnavailable => "provider_unavailable"@,
        ProviderErrorCategory::ProviderBadResponse => "provider_bad_response"@,
    }
}

impl ProviderErrorCategory {
    /// Stable snake_case name.
    pub fn as_str(self) -> (s: &'static str)
        ensures
            s@ == category_name(self),
    {
        match self {
            ProviderErrorCategory::Timeout => "timeout",
            ProviderErrorCategory::RateLimited => "rate_limited",
            ProviderErrorCategory::AuthenticationFailed => "authentication_failed",
            ProviderErrorCategory::ProviderUnavailable => "provider_unavailable",
            ProviderErrorCategory::ProviderBadResponse => "provider_bad_response",
        }
    }
}

/// Timeouts, rate limits and unavailability are worth another provider;
/// authentication failures and bad responses are not.
pub open spec fn spec_fallback_decision(e: ProviderError) -> RetryDecision {
    match e {
        ProviderError::Timeout | ProviderError::RateLimited | ProviderError::ProviderUnavailable => RetryDecision::TryNextProvider,
        ProviderError::AuthenticationFailed | ProviderError::ProviderBadResponse => RetryDecision::Stop,
    }
}

/// A failed call moves on to the next provider exactly when it timed out, was
/// rate limited or found the provider unavailable; an authentication failure
/// or a bad response ends the walk at once. So every upstream answer of
/// 408, 429 or 5xx moves on, and 401 and 403 stop.
pub proof fn law_transient_errors_move_on(e: ProviderError, status: u16)
    ensures
        (spec_fallback_decision(e) == RetryDecision::TryNextProvider) <==> (e == ProviderError::Timeout || e
            == ProviderError::RateLimited || e == ProviderError::ProviderUnavailable),
        (spec_fallback_decision(e) == RetryDecision::Stop) <==> (e == ProviderError::AuthenticationFailed || e
            == ProviderError::ProviderBadResponse),
        (500 <= status <= 599 || status == 408 || status == 429) ==> spec_fallback_decision(spec_status_error(status))
            == RetryDecision::TryNextProvider,
        (status == 401 || status == 403) ==> spec_fallback_decision(spec_status_error(status)) == RetryDecision::Stop,
{
}

pub open spec fn spec_error_category(e: ProviderError) -> ProviderErrorCategory {
    match e {
        ProviderError::Timeout => ProviderErrorCategory::Timeout,
        ProviderError::RateLimited => ProviderErrorCategory::RateLimited,
        ProviderError::AuthenticationFailed => ProviderErrorCategory::AuthenticationFailed,
        ProviderError::ProviderUnavailable => ProviderErrorCategory::ProviderUnavailable,
        ProviderError::ProviderBadResponse => ProviderErrorCategory::ProviderBadResponse,
    }
}

/// Whether an error moves on to the next provider.
pub fn fallback_decision(error: &ProviderError) -> (d: RetryDecision)
    ensures
        d == spec_fallback_decision(*error),
{
    match error {
        ProviderError::Timeout | ProviderError::RateLimited | ProviderError::ProviderUnavailable => RetryDecision::TryNextProvider,
        ProviderError::AuthenticationFailed | ProviderError::ProviderBadResponse => RetryDecision::Stop,
    }
}

/// The category of a provider error.
pub fn provider_error_category(error: &ProviderError) -> (c: ProviderErrorCategory)
    ensures
        c == spec_error_category(*error),
{
    match error {
        ProviderError::Timeout => ProviderErrorCategory::Timeout,
        ProviderError::RateLimited => ProviderErrorCategory::RateLimited,
        ProviderError::AuthenticationFailed => ProviderErrorCategory::AuthenticationFailed,
        ProviderError::ProviderUnavailable => ProviderErrorCategory::ProviderUnavailable,
        ProviderError::ProviderBadResponse => ProviderErrorCategory::ProviderBadResponse,
    }
}

/// One call made to a provider while serving a request.
#[derive(Debug, Clone)]
pub struct ProviderAttempt {
    pub provider_name: String,
    pub attempt_order: u32,
    pub latency_ms: u64,
    pub success: bool,
    pub is_fallback: bool,
    pub error_category: Option<ProviderErrorCategory>,
}

/// Why serving a request through the providers failed.
#[derive(Debug, Clone)]
pub enum FallbackError {
    NoProviderAvailable,
    AdmissionRejected(AdmissionRejection),
    ProviderFailed { error: ProviderError, attempts: Vec<ProviderAttempt> },
}

pub open spec fn sat_add(a: u64, b: u64) -> u64 {
    if a + b > u64::MAX { u64::MAX } else { (a + b) as u64 }
}

pub open spec fn sat_mul(a: u64, b: u64) -> u64 {
    if a * b > u64::MAX { u64::MAX } else { (a * b) as u64 }
}

/// `2^e`, saturating at `u64::MAX`.
pub open spec fn sat_pow2(e: nat) -> u64
    decreases e,
{
    if e == 0 { 1 } else { sat_mul(sat_pow2((e - 1) as nat), 2) }
}

/// Saturating sum of the bytes.
pub open spec fn byte_sum(b: Seq<u8>) -> u64
    decreases b.len(),
{
    if b.len() == 0 { 0 } else { sat_add(byte_sum(b.drop_last()), b.last() as u64) }
}

/// Jitter derived from the provider name and retry number, at most `jitter_ms`.
pub open spec fn spec_jitter(name_bytes: Seq<u8>, retry_attempt: u32, jitter_ms: u64) -> u64 {
    if jitter_ms == 0 {
        0
    } else {
        (sat_add(byte_sum(name_bytes), (retry_attempt * 17) as u64) % ((jitter_ms + 1) as u64)) as u64
    }
}

/// Exponential backoff from `initial_backoff_ms`, capped at
/// `max(max_backoff_ms, initial_backoff_ms)`, plus jitter.
pub open spec fn spec_backoff(p: RetryPolicy, retry_attempt: u32, name_bytes: Seq<u8>) -> u64 {
    let exp: nat = if retry_attempt >= 1 { (retry_attempt - 1) as nat } else { 0 };
    let base = sat_mul(p.initial_backoff_ms, sat_pow2(exp));
    let cap = if p.max_backoff_ms >= p.initial_backoff_ms { p.max_backoff_ms } else { p.initial_backoff_ms };
    let capped = if base <= cap { base } else { cap };
    sat_add(capped, spec_jitter(name_bytes, retry_attempt, p.jitter_ms))
}

/// The deterministic jitter for a retry of `provider_name`.
pub fn deterministic_jitter_ms(provider_name: &str, retry_attempt: u32, jitter_ms: u64) -> (j: u64)
    requires
        jitter_ms < u64::MAX,
    ensures
        j == spec_jitter(encode_utf8(provider_name@), retry_attempt, jitter_ms),
        j <= jitter_ms,
{
    if jitter_ms == 0 {
        return 0;
    }
    let bytes = provider_name.as_bytes();
    let n = bytes.len();
    let mut sum: u64 = 0;
    for i in 0..n
        invariant
            n == bytes@.len(),
            sum == byte_sum(bytes@.take(i as int)),
    {
        proof {
            assert(bytes@.take(i + 1).drop_last() =~= bytes@.take(i as int));
        }
        sum = sum.saturating_add(bytes[i] as u64);
    }
    assert(bytes@.take(n as int) =~= bytes@);
    let extra: u64 = retry_attempt as u64 * 17;
    let r = sum.saturating_add(extra) % (jitter_ms + 1);
    r
}

/// Milliseconds to wait before retry number `retry_attempt` of `provider_name`.
pub fn retry_backoff_ms(policy: RetryPolicy, retry_attempt: u32, provider_name: &str) -> (ms: u64)
    requires
        policy.jitter_ms < u64::MAX,
    ensures
        ms == spec_backoff(policy, retry_attempt, encode_utf8(provider_name@)),
{
    let exp: u32 = retry_attempt.saturating_sub(1);
    let mut pow: u64 = 1;
    let mut i: u32 = 0;
    while i < exp
        invariant
            i <= exp,
            pow == sat_pow2(i as nat),
        decreases exp - i,
    {
        pow = match pow.checked_mul(2) {
            Some(v) => v,
            None => 0xffff_ffff_ffff_ffffu64,
        };
        i = i + 1;
    }
    let base = match policy.initial_backoff_ms.checked_mul(pow) {
        Some(v) => v,
        None => 0xffff_ffff_ffff_ffffu64,
    };
    let cap = if policy.max_backoff_ms >= policy.initial_backoff_ms {
        policy.max_backoff_ms
    } else {
        policy.initial_backoff_ms
    };
    let capped = if base <= cap { base } else { cap };
    let jitter = deterministic_jitter_ms(provider_name, retry_attempt, policy.jitter_ms);
    capped.saturating_add(jitter)
}

/// A retry never waits longer than the backoff cap plus the jitter budget.
pub proof fn law_backoff_is_bounded(p: RetryPolicy, retry_attempt: u32, name_bytes: Seq<u8>)
    requires
        p.jitter_ms < u64::MAX,
    ensures
        spec_backoff(p, retry_attempt, name_bytes) <= sat_add(
            if p.max_backoff_ms >= p.initial_backoff_ms { p.max_backoff_ms } else { p.initial_backoff_ms },
            p.jitter_ms,
        ),
        spec_jitter(name_bytes, retry_attempt, p.jitter_ms) <= p.jitter_ms,
{
}

/// The first retry waits the initial backoff plus jitter (when it is under the cap).
pub proof fn law_first_retry_uses_initial_backoff(p: RetryPolicy, name_bytes: Seq<u8>)
    requires
        p.jitter_ms < u64::MAX,
        p.initial_backoff_ms <= p.max_backoff_ms,
    ensures
        spec_backoff(p, 1, name_bytes) == sat_add(p.initial_backoff_ms, spec_jitter(name_bytes, 1, p.jitter_ms)),
{
    assert(sat_pow2(0) == 1);
    assert(p.initial_backoff_ms * 1 == p.initial_backoff_ms);
    assert(sat_mul(p.initial_backoff_ms, sat_pow2(0)) == p.initial_backoff_ms);
}

/// What the caller does next while serving a request.
pub enum FallbackStep {
    /// Wait `sleep_ms`, then call the candidate at `candidate_index` and report the outcome.
    Call { candidate_index: usize, sleep_ms: u64 },
    /// A provider answered; `guard` holds its admission slot for as long as the answer is used.
    Succeeded { candidate_index: usize, provider_name: String, attempts: Vec<ProviderAttempt>, guard: AdmissionGuard },
    /// Serving the request failed.
    Failed(FallbackError),
}

/// The state of one request's walk over its candidate providers.
pub struct FallbackRun {
    candidates: Vec<String>,
    index: usize,
    retry_attempt: u32,
    retry_policy: RetryPolicy,
    attempt_order: u32,
    attempts: Vec<ProviderAttempt>,
    admission_rejection: Option<AdmissionRejection>,
    guard: Option<AdmissionGuard>,
    routing_reasons: Vec<&'static str>,
}

pub open spec fn sat_inc32(x: u32) -> u32 {
    if x < u32::MAX { (x + 1) as u32 } else { u32::MAX }
}

impl FallbackRun {
    /// The candidate provider names, in routing order.
    pub closed spec fn candidates(&self) -> Seq<String> {
        self.candidates@
    }

    /// Index of the candidate being tried.
    pub closed spec fn index(&self) -> int {
        self.index as int
    }

    /// Order number of the last attempt made.
    pub closed spec fn last_attempt_order(&self) -> u32 {
        self.attempt_order
    }

    /// Retries made so far on the current candidate.
    pub closed spec fn retries(&self) -> u32 {
        self.retry_attempt
    }

    /// Retry policy of the current candidate.
    pub closed spec fn policy(&self) -> RetryPolicy {
        self.retry_policy
    }

    /// Attempts made so far, in order.
    pub closed spec fn attempt_log(&self) -> Seq<ProviderAttempt> {
        self.attempts@
    }

    /// The routing decisions recorded so far, in order.
    pub closed spec fn reasons(&self) -> Seq<Seq<char>> {
        self.routing_reasons@.map_values(|s: &'static str| s@)
    }

    /// The last admission refusal met while skipping candidates.
    pub closed spec fn refusal(&self) -> Option<AdmissionRejection> {
        self.admission_rejection
    }

    /// Whether an admission slot is held for the current candidate.
    pub closed spec fn holds_slot(&self) -> bool {
        self.guard is Some
    }

    /// The held slot guard.
    pub closed spec fn slot(&self) -> AdmissionGuard {
        self.guard->0
    }

    /// The retries on the current candidate never exceed its budget.
    pub closed spec fn wf(&self) -> bool {
        &&& self.retry_attempt <= self.retry_policy.max_retries
        &&& self.retry_policy.jitter_ms < u64::MAX
        &&& self.index <= self.candidates@.len()
        &&& self.guard is Some ==> self.index < self.candidates@.len() && self.guard->0.is_active()
    }

    /// A walk over `candidates` that has not started.
    pub fn new(candidates: Vec<String>) -> (r: Self)
        ensures
            r.wf(),
            r.candidates() == candidates@,
            r.attempt_log().len() == 0,
            r.refusal() is None,
            !r.holds_slot(),
            r.index() == 0,
            r.reasons().len() == 0,
            r.last_attempt_order() == 0,
    {
        FallbackRun {
            candidates,
            index: 0,
            retry_attempt: 0,
            retry_policy: RetryPolicy { max_retries: 0, initial_backoff_ms: 0, max_backoff_ms: 0, jitter_ms: 0 },
            attempt_order: 0,
            attempts: Vec::new(),
            admission_rejection: None,
            guard: None,
            routing_reasons: Vec::new(),
        }
    }

    /// Routing decisions recorded so far: `circuit_open` for each candidate
    /// skipped because its breaker refused the call, `fallback` when a candidate
    /// other than the first is called, `selected` when a call succeeds.
    pub fn routing_reasons(&self) -> (r: &Vec<&'static str>)
        ensures
            r@.len() == self.reasons().len(),
            forall|i: int| 0 <= i < r@.len() ==> (#[trigger] r@[i])@ == self.reasons()[i],
    {
        &self.routing_reasons
    }

    /// The order number the next attempt will carry.
    pub fn next_attempt_order(&self) -> (n: u32)
        ensures
            n == sat_inc32(self.last_attempt_order()),
    {
        self.attempt_order.saturating_add(1)
    }

    /// Whether the current candidate is a fallback (not the first choice).
    pub fn is_fallback(&self) -> (b: bool)
        ensures
            b == (self.index() > 0),
    {
        self.index > 0
    }

    /// Retries made on the current candidate.
    pub fn retry_attempt(&self) -> (n: u32)
        ensures
            n == self.retries(),
    {
        self.retry_attempt
    }

    /// Starts the walk at the first candidate that the breaker and admission control let through.
    pub fn start(&mut self, resilience: &mut ResilienceRegistry, admission: &mut AdmissionController) -> (step: FallbackStep)
        requires
            old(self).wf(),
            old(self).index() == 0,
            !old(self).holds_slot(),
            old(resilience).wf(),
            old(resilience).jitter_bounded(),
            old(admission).wf(),
        ensures
            final(self).wf(),
            final(resilience).wf(),
            final(resilience).jitter_bounded(),
            final(resilience).policies() == old(resilience).policies(),
            final(resilience).default_policy() == old(resilience).default_policy(),
            final(admission).wf(),
            final(self).candidates() == old(self).candidates(),
            final(self).attempt_log() == old(self).attempt_log(),
            final(self).last_attempt_order() == old(self).last_attempt_order(),
            step_shape(step, *final(self), 0, old(self).refusal()),
            reasons_recorded(old(self).reasons(), final(self).reasons(), step, old(self).candidates().len() as nat),
            final(admission).limits() == old(admission).limits(),
            step matches FallbackStep::Call { candidate_index, .. } ==> final(self).policy()
                == final(resilience).spec_policy_for(old(self).candidates()[candidate_index as int]@).retry,
            refusal_outcome(
                old(self).candidates(),
                0,
                *old(admission).limits(),
                old(admission).counters(),
                old(self).refusal(),
                step,
            ),
            walk_outcome(
                old(self).candidates(),
                0,
                *final(resilience),
                old(resilience).circuits(),
                final(resilience).circuits(),
                old(admission).limits().provider_limits(),
                old(admission).counters(),
                final(admission).counters(),
                *final(self),
                step,
            ),
    {
        self.advance(0, resilience, admission)
    }

    fn advance(&mut self, from: usize, resilience: &mut ResilienceRegistry, admission: &mut AdmissionController) -> (step: FallbackStep)
        requires
            old(self).wf(),
            from <= old(self).candidates().len(),
            !old(self).holds_slot(),
            old(resilience).wf(),
            old(resilience).jitter_bounded(),
            old(admission).wf(),
        ensures
            final(self).wf(),
            final(resilience).wf(),
            final(admission).wf(),
            final(self).candidates() == old(self).candidates(),
            final(self).attempt_log() == old(self).attempt_log(),
            final(resilience).policies() == old(resilience).policies(),
            final(resilience).default_policy() == old(resilience).default_policy(),
            final(self).last_attempt_order() == old(self).last_attempt_order(),
            step_shape(step, *final(self), from as int, old(self).refusal()),
            reasons_recorded(old(self).reasons(), final(self).reasons(), step, (old(self).candidates().len() - from) as nat),
            final(admission).limits() == old(admission).limits(),
            step matches FallbackStep::Call { candidate_index, .. } ==> final(self).policy()
                == final(resilience).spec_policy_for(old(self).candidates()[candidate_index as int]@).retry,
            refusal_outcome(
                old(self).candidates(),
                from as int,
                *old(admission).limits(),
                old(admission).counters(),
                old(self).refusal(),
                step,
            ),
            walk_outcome(
                old(self).candidates(),
                from as int,
                *final(resilience),
                old(resilience).circuits(),
                final(resilience).circuits(),
                old(admission).limits().provider_limits(),
                old(admission).counters(),
                final(admission).counters(),
                *final(self),
                step,
            ),
    {
        let n = self.candidates.len();
        let mut j = from;
        let ghost mut skipped: nat = 0;
        let ghost circ0 = resilience.circuits();
        let ghost cnt0 = admission.counters();
        let ghost lim = admission.limits().provider_limits();
        while j < n
            invariant
                n == self.candidates@.len(),
                from <= j <= n,
                self.wf(),
                !self.holds_slot(),
                resilience.wf(),
                resilience.jitter_bounded(),
                admission.wf(),
                self.candidates@ == old(self).candidates@,
                self.attempts@ == old(self).attempts@,
                self.attempt_order == old(self).attempt_order,
                resilience.policies() == old(resilience).policies(),
                resilience.default_policy() == old(resilience).default_policy(),
                old(self).refusal() is Some ==> self.refusal() is Some,
                skipped <= j - from,
                self.reasons() == old(self).reasons() + circuit_opens(skipped),
                circ0 == old(resilience).circuits(),
                cnt0 == old(admission).counters(),
                lim == old(admission).limits().provider_limits(),
                admission.limits() == old(admission).limits(),
                admission.counters() == cnt0,
                forall|k: Seq<char>| closed_in(circ0, k) ==> #[trigger] closed_in(resilience.circuits(), k),
                forall|k: Seq<char>|
                    (forall|i: int| from <= i < j ==> self.candidates@[i]@ != k) ==> #[trigger] circuit_or_fresh(
                        resilience.circuits(),
                        k,
                    ) == circuit_or_fresh(circ0, k),
                forall|i: int|
                    from <= i < j ==> !(closed_in(circ0, #[trigger] self.candidates@[i]@) && room_in(lim, cnt0.providers, self.candidates@[i]@)),
                self.refusal() matches Some(r) ==> refusal_met(
                    self.candidates@,
                    from as int,
                    *old(admission).limits(),
                    cnt0,
                    old(self).refusal(),
                    r,
                ),
                self.refusal() is None ==> resilience.circuits() == circ0 && forall|i: int|
                    from <= i < j ==> breaker_refuses(
                        circuit_or_fresh(circ0, #[trigger] self.candidates@[i]@),
                        resilience.spec_policy_for(self.candidates@[i]@).breaker,
                    ),
            decreases n - j,
        {
            let ghost circ_before = resilience.circuits();
            let ghost name = self.candidates@[j as int]@;
            let allowed = resilience.allow_provider_call(self.candidates[j].as_str());
            proof {
                let c = circuit_or_fresh(circ_before, name);
                let p = resilience.spec_policy_for(name).breaker;
                let now = choose|now: u64| #![trigger allow_step(c, p, now)] allowed == allow_step(c, p, now).1
                    && resilience.circuits() == circ_before.insert(name, allow_step(c, p, now).0);
                assert(allowed == allow_step(c, p, now).1);
                if !allowed {
                    assert(circ_before.contains_key(name));
                    assert(resilience.circuits() =~= circ_before);
                    assert(breaker_refuses(c, p));
                    assert(!closed_in(circ_before, name));
                }
                assert forall|k: Seq<char>| closed_in(circ0, k) implies #[trigger] closed_in(resilience.circuits(), k) by {
                    assert(closed_in(circ_before, k));
                }
                assert forall|k: Seq<char>|
                    (forall|i: int| from <= i < j + 1 ==> self.candidates@[i]@ != k) implies #[trigger] circuit_or_fresh(
                        resilience.circuits(),
                        k,
                    ) == circuit_or_fresh(circ0, k) by {
                    assert(self.candidates@[j as int]@ != k);
                    assert(forall|i: int| from <= i < j ==> self.candidates@[i]@ != k);
                    assert(circuit_or_fresh(circ_before, k) == circuit_or_fresh(circ0, k));
                    assert(name != k);
                    assert(resilience.circuits().contains_key(k) == circ_before.contains_key(k));
                    assert(circuit_or_fresh(resilience.circuits(), k) == circuit_or_fresh(circ_before, k));
                }
            }
            if !allowed {
                let ghost before = self.reasons();
                self.routing_reasons.push("circuit_open");
                proof {
                    assert(self.reasons() =~= before.push("circuit_open"@));
                    assert(circuit_opens(skipped + 1) =~= circuit_opens(skipped).push("circuit_open"@));
                    assert(self.reasons() =~= old(self).reasons() + circuit_opens(skipped + 1));
                    skipped = skipped + 1;
                }
                j = j + 1;
                continue;
            }
            match admission.try_acquire_provider(self.candidates[j].as_str()) {
                Err(rejection) => {
                    proof {
                        assert(!room_in(lim, cnt0.providers, self.candidates@[j as int]@));
                    }
                    self.admission_rejection = Some(rejection);
                    j = j + 1;
                },
                Ok(g) => {
                    let policy = resilience.policy_for(self.candidates[j].as_str());
                    self.index = j;
                    self.retry_attempt = 0;
                    self.retry_policy = policy.retry;
                    self.guard = Some(g);
                    let ghost before = self.reasons();
                    if j > 0 {
                        self.routing_reasons.push("fallback");
                        assert(self.reasons() =~= before.push("fallback"@));
                    }
                    let step = FallbackStep::Call { candidate_index: j, sleep_ms: 0 };
                    assert(self.reasons() =~= old(self).reasons() + circuit_opens(skipped) + fallback_mark(step));
                    proof {
                        lemma_reasons_recorded(old(self).reasons(), self.reasons(), step, (n - from) as nat, skipped);
                    }
                    return step;
                },
            }
        }
        self.index = n;
        let step = match self.admission_rejection {
            Some(r) => FallbackStep::Failed(FallbackError::AdmissionRejected(r)),
            None => FallbackStep::Failed(FallbackError::NoProviderAvailable),
        };
        assert(self.reasons() =~= old(self).reasons() + circuit_opens(skipped) + fallback_mark(step));
        proof {
            lemma_reasons_recorded(old(self).reasons(), self.reasons(), step, (n - from) as nat, skipped);
        }
        step
    }

    /// Reports that the call to the current candidate failed with `error` after `latency_ms`.
    pub fn on_failure(
        &mut self,
        error: ProviderError,
        latency_ms: u64,
        resilience: &mut ResilienceRegistry,
        admission: &mut AdmissionController,
    ) -> (step: FallbackStep)
        requires
            old(self).wf(),
            old(self).holds_slot(),
            old(resilience).wf(),
            old(resilience).jitter_bounded(),
            old(admission).wf(),
        ensures
            final(self).wf(),
            final(resilience).wf(),
            final(resilience).jitter_bounded(),
            final(admission).wf(),
            final(self).candidates() == old(self).candidates(),
            ({
                let name = old(self).candidates()[old(self).index()];
                if spec_fallback_decision(error) == RetryDecision::Stop {
                    &&& step matches FallbackStep::Failed(FallbackError::ProviderFailed { error: e, attempts })
                        && e == error && failure_logged(attempts@, *old(self), name, latency_ms, error)
                    &&& final(admission).counters() == release_slots(old(admission).counters(), old(self).slot().held())
                    &&& final(resilience).circuits() == old(resilience).circuits()
                    &&& final(self).reasons() == old(self).reasons()
                } else if old(self).retries() < old(self).policy().max_retries {
                    &&& step == (FallbackStep::Call {
                        candidate_index: old(self).index() as usize,
                        sleep_ms: spec_backoff(old(self).policy(), (old(self).retries() + 1) as u32, encode_utf8(name@)),
                    })
                    &&& failure_logged(final(self).attempt_log(), *old(self), name, latency_ms, error)
                    &&& final(self).index() == old(self).index()
                    &&& final(self).retries() == old(self).retries() + 1
                    &&& final(self).last_attempt_order() == sat_inc32(old(self).last_attempt_order())
                    &&& final(self).holds_slot() && final(self).slot() == old(self).slot()
                    &&& final(admission).counters() == old(admission).counters()
                    &&& final(resilience).circuits() == old(resilience).circuits()
                    &&& final(self).reasons() == old(self).reasons()
                } else if old(self).index() + 1 < old(self).candidates().len() {
                    &&& step_shape(step, *final(self), old(self).index() + 1, old(self).refusal())
                    &&& failure_logged(final(self).attempt_log(), *old(self), name, latency_ms, error)
                    &&& reasons_recorded(
                        old(self).reasons(),
                        final(self).reasons(),
                        step,
                        (old(self).candidates().len() - old(self).index() - 1) as nat,
                    )
                    &&& final(admission).limits() == old(admission).limits()
                    &&& final(self).last_attempt_order() == sat_inc32(old(self).last_attempt_order())
                    &&& refusal_outcome(
                        old(self).candidates(),
                        old(self).index() + 1,
                        *old(admission).limits(),
                        release_slots(old(admission).counters(), old(self).slot().held()),
                        old(self).refusal(),
                        step,
                    )
                    &&& (step matches FallbackStep::Call { candidate_index, .. } ==> final(self).policy()
                        == final(resilience).spec_policy_for(old(self).candidates()[candidate_index as int]@).retry)
                    &&& exists|now: u64|
                        #![trigger failure_step(circuit_or_fresh(old(resilience).circuits(), name@), old(resilience).spec_policy_for(name@).breaker, now)]
                        walk_outcome(
                            old(self).candidates(),
                            old(self).index() + 1,
                            *final(resilience),
                            old(resilience).circuits().insert(
                                name@,
                                failure_step(
                                    circuit_or_fresh(old(resilience).circuits(), name@),
                                    old(resilience).spec_policy_for(name@).breaker,
                                    now,
                                ),
                            ),
                            final(resilience).circuits(),
                            old(admission).limits().provider_limits(),
                            release_slots(old(admission).counters(), old(self).slot().held()),
                            final(admission).counters(),
                            *final(self),
                            step,
                        )
                } else {
                    &&& step matches FallbackStep::Failed(FallbackError::ProviderFailed { error: e, attempts })
                        && e == error && failure_logged(attempts@, *old(self), name, latency_ms, error)
                    &&& final(self).reasons() == old(self).reasons()
                    &&& final(admission).counters() == release_slots(old(admission).counters(), old(self).slot().held())
                    &&& exists|now: u64| #![trigger failure_step(circuit_or_fresh(old(resilience).circuits(), name@), old(resilience).spec_policy_for(name@).breaker, now)]
                        final(resilience).circuits() == old(resilience).circuits().insert(
                            name@,
                            failure_step(circuit_or_fresh(old(resilience).circuits(), name@), old(resilience).spec_policy_for(name@).breaker, now),
                        )
                }
            }),
    {
        let name = self.candidates[self.index].clone();
        self.attempt_order = self.attempt_order.saturating_add(1);
        let category = provider_error_category(&error);
        self.attempts.push(
            ProviderAttempt {
                provider_name: name.clone(),
                attempt_order: self.attempt_order,
                latency_ms,
                success: false,
                is_fallback: self.index > 0,
                error_category: Some(category),
            },
        );
        proof {
            assert(self.attempts@.drop_last() =~= old(self).attempts@);
        }
        if fallback_decision(&error) == RetryDecision::TryNextProvider {
            if self.retry_attempt < self.retry_policy.max_retries {
                self.retry_attempt = self.retry_attempt + 1;
                let ms = retry_backoff_ms(self.retry_policy, self.retry_attempt, name.as_str());
                return FallbackStep::Call { candidate_index: self.index, sleep_ms: ms };
            }
            let cur = self.index;
            let n = self.candidates.len();
            let ghost circ_before = resilience.circuits();
            let ghost c = circuit_or_fresh(circ_before, name@);
            let ghost p = resilience.spec_policy_for(name@).breaker;
            resilience.record_failure(name.as_str());
            let ghost now = choose|now: u64| #![trigger failure_step(c, p, now)]
                resilience.circuits() == circ_before.insert(name@, failure_step(c, p, now));
            self.release_slot(admission);
            if cur + 1 < n {
                let next = cur + 1;
                let step = self.advance(next, resilience, admission);
                proof {
                    assert(walk_outcome(
                        old(self).candidates(),
                        old(self).index() + 1,
                        *resilience,
                        circ_before.insert(name@, failure_step(c, p, now)),
                        resilience.circuits(),
                        old(admission).limits().provider_limits(),
                        release_slots(old(admission).counters(), old(self).slot().held()),
                        admission.counters(),
                        *self,
                        step,
                    ));
                }
                return step;
            }
            let mut attempts: Vec<ProviderAttempt> = Vec::new();
            std::mem::swap(&mut attempts, &mut self.attempts);
            FallbackStep::Failed(FallbackError::ProviderFailed { error, attempts })
        } else {
            self.release_slot(admission);
            let mut attempts: Vec<ProviderAttempt> = Vec::new();
            std::mem::swap(&mut attempts, &mut self.attempts);
            FallbackStep::Failed(FallbackError::ProviderFailed { error, attempts })
        }
    }

    /// Reports that the stream of the current candidate ended before its first
    /// event: a bad response that moves on to the next candidate without retrying.
    pub fn on_empty_stream(
        &mut self,
        latency_ms: u64,
        resilience: &mut ResilienceRegistry,
        admission: &mut AdmissionController,
    ) -> (step: FallbackStep)
        requires
            old(self).wf(),
            old(self).holds_slot(),
            old(resilience).wf(),
            old(resilience).jitter_bounded(),
            old(admission).wf(),
        ensures
            final(self).wf(),
            final(resilience).wf(),
            final(resilience).jitter_bounded(),
            final(admission).wf(),
            final(self).candidates() == old(self).candidates(),
            ({
                let name = old(self).candidates()[old(self).index()];
                if old(self).index() + 1 < old(self).candidates().len() {
                    &&& step_shape(step, *final(self), old(self).index() + 1, old(self).refusal())
                    &&& failure_logged(final(self).attempt_log(), *old(self), name, latency_ms, ProviderError::ProviderBadResponse)
                    &&& reasons_recorded(
                        old(self).reasons(),
                        final(self).reasons(),
                        step,
                        (old(self).candidates().len() - old(self).index() - 1) as nat,
                    )
                    &&& final(admission).limits() == old(admission).limits()
                    &&& final(self).last_attempt_order() == sat_inc32(old(self).last_attempt_order())
                    &&& refusal_outcome(
                        old(self).candidates(),
                        old(self).index() + 1,
                        *old(admission).limits(),
                        release_slots(old(admission).counters(), old(self).slot().held()),
                        old(self).refusal(),
                        step,
                    )
                    &&& (step matches FallbackStep::Call { candidate_index, .. } ==> final(self).policy()
                        == final(resilience).spec_policy_for(old(self).candidates()[candidate_index as int]@).retry)
                    &&& walk_outcome(
                        old(self).candidates(),
                        old(self).index() + 1,
                        *final(resilience),
                        old(resilience).circuits(),
                        final(resilience).circuits(),
                        old(admission).limits().provider_limits(),
                        release_slots(old(admission).counters(), old(self).slot().held()),
                        final(admission).counters(),
                        *final(self),
                        step,
                    )
                } else {
                    &&& step matches FallbackStep::Failed(FallbackError::ProviderFailed { error: e, attempts })
                        && e == ProviderError::ProviderBadResponse
                        && failure_logged(attempts@, *old(self), name, latency_ms, ProviderError::ProviderBadResponse)
                    &&& final(self).reasons() == old(self).reasons()
                    &&& final(admission).counters() == release_slots(old(admission).counters(), old(self).slot().held())
                    &&& final(resilience).circuits() == old(resilience).circuits()
                }
            }),
    {
        let name = self.candidates[self.index].clone();
        self.attempt_order = self.attempt_order.saturating_add(1);
        self.attempts.push(
            ProviderAttempt {
                provider_name: name,
                attempt_order: self.attempt_order,
                latency_ms,
                success: false,
                is_fallback: self.index > 0,
                error_category: Some(ProviderErrorCategory::ProviderBadResponse),
            },
        );
        proof {
            assert(self.attempts@.drop_last() =~= old(self).attempts@);
        }
        let cur = self.index;
        let n = self.candidates.len();
        self.release_slot(admission);
        if cur + 1 < n {
            let next = cur + 1;
            return self.advance(next, resilience, admission);
        }
        let mut attempts: Vec<ProviderAttempt> = Vec::new();
        std::mem::swap(&mut attempts, &mut self.attempts);
        FallbackStep::Failed(FallbackError::ProviderFailed { error: ProviderError::ProviderBadResponse, attempts })
    }

    fn release_slot(&mut self, admission: &mut AdmissionController)
        requires
            old(self).wf(),
            old(admission).wf(),
        ensures
            final(self).wf(),
            final(admission).wf(),
            !final(self).holds_slot(),
            final(admission).limits() == old(admission).limits(),
            final(self).candidates() == old(self).candidates(),
            final(self).index() == old(self).index(),
            final(self).retries() == old(self).retries(),
            final(self).policy() == old(self).policy(),
            final(self).attempt_log() == old(self).attempt_log(),
            final(self).refusal() == old(self).refusal(),
            final(self).last_attempt_order() == old(self).last_attempt_order(),
            final(self).reasons() == old(self).reasons(),
            old(self).holds_slot() ==> final(admission).counters() == release_slots(
                old(admission).counters(),
                old(self).slot().held(),
            ),
            !old(self).holds_slot() ==> final(admission).counters() == old(admission).counters(),
    {
        match self.guard.take() {
            Some(mut g) => {
                g.finish(admission);
            },
            None => {},
        }
    }

    /// Reports that the call to the current candidate succeeded after `latency_ms`.
    pub fn on_success(&mut self, latency_ms: u64, resilience: &mut ResilienceRegistry) -> (step: FallbackStep)
        requires
            old(self).wf(),
            old(self).holds_slot(),
            old(self).index() < old(self).candidates().len(),
            old(resilience).wf(),
        ensures
            final(resilience).wf(),
            final(resilience).circuits() == old(resilience).circuits().insert(
                old(self).candidates()[old(self).index()]@,
                fresh_circuit(),
            ),
            step matches FallbackStep::Succeeded { candidate_index, provider_name, attempts, guard }
                && candidate_index == old(self).index()
                && provider_name == old(self).candidates()[old(self).index()]
                && guard == old(self).slot()
                && attempts@.len() == old(self).attempt_log().len() + 1
                && attempts@.drop_last() == old(self).attempt_log()
                && attempts@.last().success
                && attempts@.last().provider_name == provider_name
                && attempts@.last().latency_ms == latency_ms
                && attempts@.last().is_fallback == (candidate_index > 0)
                && attempts@.last().error_category is None
                && attempts@.last().attempt_order == sat_inc32(old(self).last_attempt_order()),
            final(self).reasons() == old(self).reasons().push("selected"@),
    {
        let name = self.candidates[self.index].clone();
        self.attempt_order = self.attempt_order.saturating_add(1);
        self.attempts.push(
            ProviderAttempt {
                provider_name: name.clone(),
                attempt_order: self.attempt_order,
                latency_ms,
                success: true,
                is_fallback: self.index > 0,
                error_category: None,
            },
        );
        resilience.record_success(name.as_str());
        self.routing_reasons.push("selected");
        assert(self.reasons() =~= old(self).reasons().push("selected"@));
        let guard = match self.guard.take() {
            Some(g) => g,
            None => AdmissionGuard::empty(),
        };
        let mut attempts: Vec<ProviderAttempt> = Vec::new();
        std::mem::swap(&mut attempts, &mut self.attempts);
        proof {
            assert(attempts@.drop_last() =~= old(self).attempts@);
        }
        FallbackStep::Succeeded { candidate_index: self.index, provider_name: name, attempts, guard }
    }
}

/// The circuit of `name` is closed in `circuits`.
pub open spec fn closed_in(circuits: Map<Seq<char>, ProviderCircuitState>, name: Seq<char>) -> bool {
    circuit_or_fresh(circuits, name).state == CircuitState::Closed
}

/// `name` can take an admission slot: it has no in-flight limit, or its count is under it.
pub open spec fn room_in(limits: Map<Seq<char>, u64>, providers: Map<Seq<char>, u64>, name: Seq<char>) -> bool {
    limits.contains_key(name) ==> count_of(providers, name) < limits[name]
}

/// The breaker refuses a call in state `c` at some clock reading.
pub open spec fn breaker_refuses(c: ProviderCircuitState, p: CircuitBreakerPolicy) -> bool {
    exists|now: u64| #![trigger allow_step(c, p, now)] !allow_step(c, p, now).1
}

/// One past the last candidate a walk reached: the one it calls, or all of them.
pub open spec fn walk_end(names: Seq<String>, step: FallbackStep) -> int {
    match step {
        FallbackStep::Call { candidate_index, .. } => candidate_index + 1,
        _ => names.len() as int,
    }
}

/// What a walk over `names` from `from` did, given the breaker circuits and
/// admission counters it started from (`before`, `counters_before`) and left
/// (`after`, `counters_after`): no candidate whose circuit was closed and which
/// had admission room is passed over; it gives up with `NoProviderAvailable`
/// only when every remaining candidate's breaker refused it, and then changes
/// nothing; the admission counters change only by the slot of the candidate
/// called; circuits of providers it did not reach are unchanged, and a closed
/// circuit stays closed.
pub open spec fn walk_outcome(
    names: Seq<String>,
    from: int,
    registry: ResilienceRegistry,
    before: Map<Seq<char>, ProviderCircuitState>,
    after: Map<Seq<char>, ProviderCircuitState>,
    limits: Map<Seq<char>, u64>,
    counters_before: AdmissionCounters,
    counters_after: AdmissionCounters,
    run: FallbackRun,
    step: FallbackStep,
) -> bool {
    &&& forall|k: Seq<char>|
        (forall|i: int| from <= i < walk_end(names, step) ==> names[i]@ != k) ==> #[trigger] circuit_or_fresh(after, k)
            == circuit_or_fresh(before, k)
    &&& forall|k: Seq<char>| closed_in(before, k) ==> #[trigger] closed_in(after, k)
    &&& match step {
        FallbackStep::Call { candidate_index, .. } => {
            &&& forall|i: int|
                from <= i < candidate_index ==> !(closed_in(before, #[trigger] names[i]@) && room_in(
                    limits,
                    counters_before.providers,
                    names[i]@,
                ))
            &&& release_slots(counters_after, run.slot().held()) == counters_before
        },
        FallbackStep::Failed(FallbackError::NoProviderAvailable) => {
            &&& after == before
            &&& counters_after == counters_before
            &&& forall|i: int|
                from <= i < names.len() ==> breaker_refuses(
                    circuit_or_fresh(before, #[trigger] names[i]@),
                    registry.spec_policy_for(names[i]@).breaker,
                )
        },
        _ => {
            &&& counters_after == counters_before
            &&& forall|i: int|
                from <= i < names.len() ==> !(closed_in(before, #[trigger] names[i]@) && room_in(
                    limits,
                    counters_before.providers,
                    names[i]@,
                ))
        },
    }
}

/// The retry delay an admission refusal under `limits` carries.
pub open spec fn retry_after_of(limits: AdmissionLimits) -> u64 {
    if limits.retry_after_seconds >= 1 {
        limits.retry_after_seconds
    } else {
        1
    }
}

/// Refusal `r` was met by a walk over `names` from `from`: it is the refusal
/// carried in (`earlier`), or the one `try_acquire_provider` gives for a
/// candidate of this walk that had no admission room.
pub open spec fn refusal_met(
    names: Seq<String>,
    from: int,
    limits: AdmissionLimits,
    counters_before: AdmissionCounters,
    earlier: Option<AdmissionRejection>,
    r: AdmissionRejection,
) -> bool {
    ||| earlier == Some(r)
    ||| {
        &&& r.reason == AdmissionRejectionReason::ProviderInFlightLimit
        &&& r.retry_after_seconds == retry_after_of(limits)
        &&& exists|i: int|
            from <= i < names.len() && !room_in(limits.provider_limits(), counters_before.providers, #[trigger] names[i]@)
    }
}

/// A walk answers with an admission refusal only when it met one: never one
/// that admission did not give.
pub open spec fn refusal_outcome(
    names: Seq<String>,
    from: int,
    limits: AdmissionLimits,
    counters_before: AdmissionCounters,
    earlier: Option<AdmissionRejection>,
    step: FallbackStep,
) -> bool {
    step matches FallbackStep::Failed(FallbackError::AdmissionRejected(r)) ==> refusal_met(
        names,
        from,
        limits,
        counters_before,
        earlier,
        r,
    )
}

/// `n` breaker refusals in a row.
pub open spec fn circuit_opens(n: nat) -> Seq<Seq<char>> {
    Seq::new(n, |i: int| "circuit_open"@)
}

/// The mark a step leaves: `fallback` when it calls a candidate other than the first.
pub open spec fn fallback_mark(step: FallbackStep) -> Seq<Seq<char>> {
    match step {
        FallbackStep::Call { candidate_index, .. } => if candidate_index > 0 { seq!["fallback"@] } else { Seq::empty() },
        _ => Seq::empty(),
    }
}

/// The decisions recorded while looking for a candidate among the `remaining`
/// ones: a `circuit_open` for each one skipped by its breaker (at most
/// `remaining`), then the step's `fallback` mark.
pub open spec fn reasons_recorded(before: Seq<Seq<char>>, after: Seq<Seq<char>>, step: FallbackStep, remaining: nat) -> bool {
    exists|skipped: nat| skipped <= remaining && #[trigger] circuit_opens(skipped) + fallback_mark(step) =~= after.subrange(before.len() as int, after.len() as int)
        && after.len() >= before.len() && after.subrange(0, before.len() as int) == before
}

proof fn lemma_reasons_recorded(before: Seq<Seq<char>>, after: Seq<Seq<char>>, step: FallbackStep, remaining: nat, skipped: nat)
    requires
        after == before + circuit_opens(skipped) + fallback_mark(step),
        skipped <= remaining,
    ensures
        reasons_recorded(before, after, step, remaining),
{
    assert(after.subrange(0, before.len() as int) =~= before);
    assert(circuit_opens(skipped) + fallback_mark(step) =~= after.subrange(before.len() as int, after.len() as int));
}

/// `log` is `run`'s attempt log followed by a failed attempt of `name`.
pub open spec fn failure_logged(log: Seq<ProviderAttempt>, run: FallbackRun, name: String, latency_ms: u64, error: ProviderError) -> bool {
    &&& log.len() == run.attempt_log().len() + 1
    &&& log.drop_last() == run.attempt_log()
    &&& !log.last().success
    &&& log.last().provider_name == name
    &&& log.last().latency_ms == latency_ms
    &&& log.last().is_fallback == (run.index() > 0)
    &&& log.last().error_category == Some(spec_error_category(error))
    &&& log.last().attempt_order == sat_inc32(run.last_attempt_order())
}

/// The shape of a step produced when looking for a candidate from `from`:
/// a call to a later candidate holding its admission slot with no retries yet,
/// or a failure that is an admission refusal exactly when one was met.
pub open spec fn step_shape(step: FallbackStep, run: FallbackRun, from: int, earlier_refusal: Option<AdmissionRejection>) -> bool {
    match step {
        FallbackStep::Call { candidate_index, sleep_ms } => {
            &&& from <= candidate_index < run.candidates().len()
            &&& run.index() == candidate_index
            &&& run.retries() == 0
            &&& sleep_ms == 0
            &&& run.holds_slot()
        },
        FallbackStep::Failed(FallbackError::AdmissionRejected(r)) => run.refusal() == Some(r) && !run.holds_slot(),
        FallbackStep::Failed(FallbackError::NoProviderAvailable) => run.refusal() is None && earlier_refusal is None && !run.holds_slot(),
        _ => false,
    }
}

} // verus!
