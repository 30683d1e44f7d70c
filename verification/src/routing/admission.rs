//! Admission control: in-flight limits per gateway, pool and provider, and
//! estimated-token budgets per request.
use uuid::Uuid;
use vstd::prelude::*;

use crate::config::{AdmissionConfig, ModelPoolConfig, ProviderConfig};
use crate::error::AppError;
use crate::models::chat::ChatCompletionRequest;
use crate::strmap::StrMap;
use crate::telemetry::token_estimator::{estimate_tokens_for_messages, messages_tokens};

verus! {

/// Why admission control refused a request.
#[derive(Debug, Clone, Copy, PartialEq, Eq, Structural)]
pub enum AdmissionRejectionReason {
    GlobalInFlightLimit,
    PoolInFlightLimit,
    ProviderInFlightLimit,
    MaxEstimatedPromptTokens,
    MaxEstimatedTotalTokens,
}

pub open spec fn reason_name(r: AdmissionRejectionReason) -> Seq<char> {
    match r {
        AdmissionRejectionReason::GlobalInFlightLimit => "global_in_flight_limit"@,
        AdmissionRejectionReason::PoolInFlightLimit => "pool_in_flight_limit"@,
        AdmissionRejectionReason::ProviderInFlightLimit => "provider_in_flight_limit"@,
        AdmissionRejectionReason::MaxEstimatedPromptTokens => "max_estimated_prompt_tokens"@,
        AdmissionRejectionReason::MaxEstimatedTotalTokens => "max_estimated_total_tokens"@,
    }
}

pub open spec fn reason_public_message(r: AdmissionRejectionReason) -> Seq<char> {
    match r {
        AdmissionRejectionReason::GlobalInFlightLimit => "gateway global in-flight limit exceeded"@,
        AdmissionRejectionReason::PoolInFlightLimit => "model pool in-flight limit exceeded"@,
        AdmissionRejectionReason::ProviderInFlightLimit => "provider in-flight limit exceeded"@,
        AdmissionRejectionReason::MaxEstimatedPromptTokens => "estimated prompt token limit exceeded"@,
        AdmissionRejectionReason::MaxEstimatedTotalTokens => "estimated total token limit exceeded"@,
    }
}

impl AdmissionRejectionReason {
    /// Stable snake_case name, used as a metrics label.
    pub fn as_str(self) -> (s: &'static str)
        ensures
            s@ == reason_name(self),
    {
        match self {
            AdmissionRejectionReason::GlobalInFlightLimit => "global_in_flight_limit",
            AdmissionRejectionReason::PoolInFlightLimit => "pool_in_flight_limit",
            AdmissionRejectionReason::ProviderInFlightLimit => "provider_in_flight_limit",
            AdmissionRejectionReason::MaxEstimatedPromptTokens => "max_estimated_prompt_tokens",
            AdmissionRejectionReason::MaxEstimatedTotalTokens => "max_estimated_total_tokens",
        }
    }

    /// Message shown to the refused caller.
    pub fn public_message(self) -> (s: &'static str)
        ensures
            s@ == reason_public_message(self),
    {
        match self {
            AdmissionRejectionReason::GlobalInFlightLimit => "gateway global in-flight limit exceeded",
            AdmissionRejectionReason::PoolInFlightLimit => "model pool in-flight limit exceeded",
            AdmissionRejectionReason::ProviderInFlightLimit => "provider in-flight limit exceeded",
            AdmissionRejectionReason::MaxEstimatedPromptTokens => "estimated prompt token limit exceeded",
            AdmissionRejectionReason::MaxEstimatedTotalTokens => "estimated total token limit exceeded",
        }
    }
}

/// Message of the invalid-request error for a rejection found before routing.
pub fn admission_invalid_request_message(reason: AdmissionRejectionReason) -> (s: &'static str)
    ensures
        s@ == match reason {
            AdmissionRejectionReason::MaxEstimatedPromptTokens => "estimated prompt token limit exceeded"@,
            AdmissionRejectionReason::MaxEstimatedTotalTokens => "estimated total token limit exceeded"@,
            _ => "request rejected by admission control"@,
        },
{
    match reason {
        AdmissionRejectionReason::MaxEstimatedPromptTokens => "estimated prompt token limit exceeded",
        AdmissionRejectionReason::MaxEstimatedTotalTokens => "estimated total token limit exceeded",
        AdmissionRejectionReason::GlobalInFlightLimit | AdmissionRejectionReason::PoolInFlightLimit
        | AdmissionRejectionReason::ProviderInFlightLimit => "request rejected by admission control",
    }
}

/// A refusal, with the delay the caller should wait.
#[derive(Debug, Clone, Copy, PartialEq, Eq, Structural)]
pub struct AdmissionRejection {
    pub reason: AdmissionRejectionReason,
    pub retry_after_seconds: u64,
}

impl AdmissionRejection {
    /// The caller-facing error.
    pub fn into_app_error(self, request_id: Option<Uuid>) -> (e: AppError)
        ensures
            e matches AppError::AdmissionRejected { message, request_id: rid, retry_after_seconds }
                && message@ == reason_public_message(self.reason) && rid == request_id
                && retry_after_seconds == self.retry_after_seconds,
    {
        AppError::AdmissionRejected {
            message: self.reason.public_message().to_string(),
            request_id,
            retry_after_seconds: self.retry_after_seconds,
        }
    }
}

/// The configured admission limits.
pub struct AdmissionLimits {
    pub max_global_in_flight: Option<u64>,
    pub max_estimated_prompt_tokens: Option<u32>,
    pub max_estimated_total_tokens: Option<u32>,
    pub retry_after_seconds: u64,
    pub pool_max_in_flight: StrMap<u64>,
    pub provider_max_in_flight: StrMap<u64>,
}

/// The pools (or providers) with an in-flight limit, the last entry of a name winning.
pub open spec fn pool_limits_of(pools: Seq<ModelPoolConfig>) -> Map<Seq<char>, u64>
    decreases pools.len(),
{
    if pools.len() == 0 {
        Map::empty()
    } else {
        let rest = pool_limits_of(pools.drop_last());
        match pools.last().max_in_flight {
            Some(limit) => rest.insert(pools.last().name@, limit),
            None => rest,
        }
    }
}

pub open spec fn provider_limits_of(providers: Seq<ProviderConfig>) -> Map<Seq<char>, u64>
    decreases providers.len(),
{
    if providers.len() == 0 {
        Map::empty()
    } else {
        let rest = provider_limits_of(providers.drop_last());
        match providers.last().max_in_flight {
            Some(limit) => rest.insert(providers.last().name@, limit),
            None => rest,
        }
    }
}

impl AdmissionLimits {
    pub closed spec fn wf(&self) -> bool {
        self.pool_max_in_flight.wf() && self.provider_max_in_flight.wf()
    }

    /// In-flight limits by pool name.
    pub closed spec fn pool_limits(&self) -> Map<Seq<char>, u64> {
        self.pool_max_in_flight@
    }

    /// In-flight limits by provider name.
    pub closed spec fn provider_limits(&self) -> Map<Seq<char>, u64> {
        self.provider_max_in_flight@
    }

    /// No limits at all.
    pub fn unlimited(retry_after_seconds: u64) -> (l: Self)
        ensures
            l.wf(),
            l.max_global_in_flight is None,
            l.max_estimated_prompt_tokens is None,
            l.max_estimated_total_tokens is None,
            l.retry_after_seconds == retry_after_seconds,
            l.pool_limits() == Map::<Seq<char>, u64>::empty(),
            l.provider_limits() == Map::<Seq<char>, u64>::empty(),
    {
        AdmissionLimits {
            max_global_in_flight: None,
            max_estimated_prompt_tokens: None,
            max_estimated_total_tokens: None,
            retry_after_seconds,
            pool_max_in_flight: StrMap::new(),
            provider_max_in_flight: StrMap::new(),
        }
    }

    /// Limits from the admission settings, the providers and the model pools.
    pub fn from_config(
        admission: &AdmissionConfig,
        providers: &[ProviderConfig],
        model_pools: &[ModelPoolConfig],
    ) -> (l: Self)
        ensures
            l.wf(),
            l.max_global_in_flight == admission.max_global_in_flight,
            l.max_estimated_prompt_tokens == admission.max_estimated_prompt_tokens,
            l.max_estimated_total_tokens == admission.max_estimated_total_tokens,
            l.retry_after_seconds == admission.retry_after_seconds,
            l.pool_limits() == pool_limits_of(model_pools@),
            l.provider_limits() == provider_limits_of(providers@),
    {
        let mut pool_max_in_flight: StrMap<u64> = StrMap::new();
        let np = model_pools.len();
        for i in 0..np
            invariant
                np == model_pools@.len(),
                pool_max_in_flight.wf(),
                pool_max_in_flight@ == pool_limits_of(model_pools@.take(i as int)),
        {
            proof {
                assert(model_pools@.take(i + 1).drop_last() =~= model_pools@.take(i as int));
            }
            if let Some(limit) = model_pools[i].max_in_flight {
                pool_max_in_flight.insert(model_pools[i].name.clone(), limit);
            }
        }
        assert(model_pools@.take(np as int) =~= model_pools@);
        let mut provider_max_in_flight: StrMap<u64> = StrMap::new();
        let nv = providers.len();
        for i in 0..nv
            invariant
                nv == providers@.len(),
                provider_max_in_flight.wf(),
                provider_max_in_flight@ == provider_limits_of(providers@.take(i as int)),
        {
            proof {
                assert(providers@.take(i + 1).drop_last() =~= providers@.take(i as int));
            }
            if let Some(limit) = providers[i].max_in_flight {
                provider_max_in_flight.insert(providers[i].name.clone(), limit);
            }
        }
        assert(providers@.take(nv as int) =~= providers@);
        AdmissionLimits {
            max_global_in_flight: admission.max_global_in_flight,
            max_estimated_prompt_tokens: admission.max_estimated_prompt_tokens,
            max_estimated_total_tokens: admission.max_estimated_total_tokens,
            retry_after_seconds: admission.retry_after_seconds,
            pool_max_in_flight,
            provider_max_in_flight,
        }
    }

    /// The advertised retry delay, at least one second.
    pub fn retry_after_seconds(&self) -> (s: u64)
        ensures
            s == if self.retry_after_seconds >= 1 { self.retry_after_seconds } else { 1 },
    {
        if self.retry_after_seconds >= 1 {
            self.retry_after_seconds
        } else {
            1
        }
    }
}

/// A unit of in-flight capacity held by an admitted request.
#[derive(Debug, Clone)]
pub enum AdmissionSlot {
    Global,
    Pool(String),
    Provider(String),
}

/// A call to `provider` may take a slot: it has no in-flight limit, or its
/// count is under the limit.
pub open spec fn provider_has_room(c: AdmissionController, provider: Seq<char>) -> bool {
    c.limits().provider_limits().contains_key(provider) ==> count_of(c.counters().providers, provider)
        < c.limits().provider_limits()[provider]
}

/// The in-flight counters: gateway-wide, by pool and by provider.
pub struct AdmissionCounters {
    pub global: u64,
    pub pools: Map<Seq<char>, u64>,
    pub providers: Map<Seq<char>, u64>,
}

/// Decrements `k` (saturating), dropping the entry when it reaches zero.
pub open spec fn dec_or_remove(m: Map<Seq<char>, u64>, k: Seq<char>, amount: u64) -> Map<Seq<char>, u64> {
    if m.contains_key(k) {
        let v = if m[k] >= amount { (m[k] - amount) as u64 } else { 0u64 };
        if v == 0 {
            m.remove(k)
        } else {
            m.insert(k, v)
        }
    } else {
        m
    }
}

/// The counters after the given slots are given back, in order.
pub open spec fn release_slots(c: AdmissionCounters, slots: Seq<AdmissionSlot>) -> AdmissionCounters
    decreases slots.len(),
{
    if slots.len() == 0 {
        c
    } else {
        let prev = release_slots(c, slots.drop_last());
        match slots.last() {
            AdmissionSlot::Global => AdmissionCounters {
                global: if prev.global >= 1 { (prev.global - 1) as u64 } else { 0 },
                ..prev
            },
            AdmissionSlot::Pool(p) => AdmissionCounters { pools: dec_or_remove(prev.pools, p@, 1), ..prev },
            AdmissionSlot::Provider(p) => AdmissionCounters {
                providers: dec_or_remove(prev.providers, p@, 1),
                ..prev
            },
        }
    }
}

/// The count stored under `k`, zero when absent.
pub open spec fn count_of(m: Map<Seq<char>, u64>, k: Seq<char>) -> u64 {
    if m.contains_key(k) { m[k] } else { 0 }
}

/// Why the token budget refuses a request, if it does: its estimated prompt is
/// over the prompt limit, or prompt plus `max_tokens` (saturating) is over the
/// total limit.
pub open spec fn token_budget_rejection(limits: AdmissionLimits, request: ChatCompletionRequest) -> Option<AdmissionRejectionReason> {
    let prompt = messages_tokens(request.messages@);
    let extra: int = match request.max_tokens {
        Some(m) => m as int,
        None => 0,
    };
    let total = if prompt + extra > u32::MAX { u32::MAX as int } else { prompt + extra };
    if limits.max_estimated_prompt_tokens matches Some(l) && prompt > l {
        Some(AdmissionRejectionReason::MaxEstimatedPromptTokens)
    } else if limits.max_estimated_total_tokens matches Some(l) && total > l {
        Some(AdmissionRejectionReason::MaxEstimatedTotalTokens)
    } else {
        None
    }
}

/// In-flight bookkeeping against the configured limits.
pub struct AdmissionController {
    limits: AdmissionLimits,
    global_in_flight: u64,
    pool_in_flight: StrMap<u64>,
    provider_in_flight: StrMap<u64>,
}

/// Capacity held by an admitted request; `finish` gives it back once.
#[derive(Debug)]
pub struct AdmissionGuard {
    slots: Vec<AdmissionSlot>,
    active: bool,
}

impl AdmissionGuard {
    /// The slots held.
    pub closed spec fn held(&self) -> Seq<AdmissionSlot> {
        self.slots@
    }

    /// Whether the slots are still held.
    pub closed spec fn is_active(&self) -> bool {
        self.active
    }

    fn new(slots: Vec<AdmissionSlot>) -> (g: Self)
        ensures
            g.held() == slots@,
            g.is_active(),
    {
        AdmissionGuard { slots, active: true }
    }

    /// A guard that holds nothing.
    pub fn empty() -> (g: Self)
        ensures
            g.held().len() == 0,
            g.is_active(),
    {
        AdmissionGuard { slots: Vec::new(), active: true }
    }

    /// Gives the held slots back to `controller`, the first time only.
    pub fn finish(&mut self, controller: &mut AdmissionController)
        requires
            old(controller).wf(),
        ensures
            final(controller).wf(),
            final(controller).limits() == old(controller).limits(),
            !final(self).is_active(),
            final(self).held() == old(self).held(),
            old(self).is_active() ==> final(controller).counters() == release_slots(
                old(controller).counters(),
                old(self).held(),
            ),
            !old(self).is_active() ==> final(controller).counters() == old(controller).counters(),
    {
        if self.active {
            controller.release(&self.slots);
            self.active = false;
        }
    }
}

/// Every stored count is positive and no count exceeds its limit.
pub open spec fn within_limits(c: AdmissionCounters, pool_limits: Map<Seq<char>, u64>, provider_limits: Map<Seq<char>, u64>, global_limit: Option<u64>) -> bool {
    &&& (forall|k: Seq<char>| #[trigger] c.pools.contains_key(k) ==> c.pools[k] > 0)
    &&& (forall|k: Seq<char>| #[trigger] c.providers.contains_key(k) ==> c.providers[k] > 0)
    &&& (forall|k: Seq<char>| #[trigger] c.pools.contains_key(k) && pool_limits.contains_key(k) ==> c.pools[k] <= pool_limits[k])
    &&& (forall|k: Seq<char>| #[trigger] c.providers.contains_key(k) && provider_limits.contains_key(k) ==> c.providers[k] <= provider_limits[k])
    &&& (global_limit matches Some(g) ==> c.global <= g)
}

impl AdmissionController {
    pub closed spec fn wf(&self) -> bool {
        &&& self.limits.wf()
        &&& self.pool_in_flight.wf()
        &&& self.provider_in_flight.wf()
        &&& (forall|k: Seq<char>| #[trigger] self.pool_in_flight@.contains_key(k) ==> self.pool_in_flight@[k] > 0)
        &&& (forall|k: Seq<char>| #[trigger] self.provider_in_flight@.contains_key(k) ==> self.provider_in_flight@[k] > 0)
        &&& (forall|k: Seq<char>| #[trigger] self.pool_in_flight@.contains_key(k) && self.limits.pool_max_in_flight@.contains_key(k)
            ==> self.pool_in_flight@[k] <= self.limits.pool_max_in_flight@[k])
        &&& (forall|k: Seq<char>| #[trigger] self.provider_in_flight@.contains_key(k) && self.limits.provider_max_in_flight@.contains_key(k)
            ==> self.provider_in_flight@[k] <= self.limits.provider_max_in_flight@[k])
        &&& (self.limits.max_global_in_flight matches Some(g) ==> self.global_in_flight <= g)
    }

    /// The configured limits.
    pub closed spec fn limits(&self) -> &AdmissionLimits {
        &self.limits
    }

    /// The in-flight counters.
    pub closed spec fn counters(&self) -> AdmissionCounters {
        AdmissionCounters {
            global: self.global_in_flight,
            pools: self.pool_in_flight@,
            providers: self.provider_in_flight@,
        }
    }

    /// A controller with nothing in flight.
    pub fn new(limits: AdmissionLimits) -> (c: Self)
        requires
            limits.wf(),
        ensures
            c.wf(),
            c.limits() == limits,
            c.counters().global == 0,
            c.counters().pools == Map::<Seq<char>, u64>::empty(),
            c.counters().providers == Map::<Seq<char>, u64>::empty(),
    {
        AdmissionController {
            limits,
            global_in_flight: 0,
            pool_in_flight: StrMap::new(),
            provider_in_flight: StrMap::new(),
        }
    }

    /// A controller without limits, advertising a one-second retry delay.
    pub fn disabled() -> (c: Self)
        ensures
            c.wf(),
            c.limits().max_global_in_flight is None,
            c.limits().max_estimated_prompt_tokens is None,
            c.limits().max_estimated_total_tokens is None,
            c.limits().retry_after_seconds == 1,
            c.limits().pool_limits() == Map::<Seq<char>, u64>::empty(),
            c.limits().provider_limits() == Map::<Seq<char>, u64>::empty(),
            c.counters().global == 0,
            c.counters().pools == Map::<Seq<char>, u64>::empty(),
            c.counters().providers == Map::<Seq<char>, u64>::empty(),
    {
        AdmissionController::new(AdmissionLimits::unlimited(1))
    }

    fn rejection(&self, reason: AdmissionRejectionReason) -> (r: AdmissionRejection)
        ensures
            r.reason == reason,
            r.retry_after_seconds == if self.limits.retry_after_seconds >= 1 {
                self.limits.retry_after_seconds
            } else {
                1
            },
    {
        AdmissionRejection { reason, retry_after_seconds: self.limits.retry_after_seconds() }
    }

    /// Refuses requests whose estimated prompt, or prompt plus `max_tokens`, is over budget.
    pub fn check_token_budget(&self, request: &ChatCompletionRequest) -> (r: Result<(), AdmissionRejectionReason>)
        requires
            messages_tokens(request.messages@) <= u32::MAX,
        ensures
            match token_budget_rejection(*self.limits(), *request) {
                Some(reason) => r == Err::<(), _>(reason),
                None => r is Ok,
            },
    {
        let prompt_tokens = estimate_tokens_for_messages(request.messages.as_slice());
        if let Some(limit) = self.limits.max_estimated_prompt_tokens {
            if prompt_tokens > limit {
                return Err(AdmissionRejectionReason::MaxEstimatedPromptTokens);
            }
        }
        let extra = match request.max_tokens {
            Some(m) => m,
            None => 0,
        };
        let total_tokens = prompt_tokens.saturating_add(extra);
        if let Some(limit) = self.limits.max_estimated_total_tokens {
            if total_tokens > limit {
                return Err(AdmissionRejectionReason::MaxEstimatedTotalTokens);
            }
        }
        Ok(())
    }

    /// Takes a global slot (when a global limit is set) and a pool slot (when
    /// `pool_name` has a limit), or refuses when either is full.
    pub fn try_acquire_request(&mut self, pool_name: Option<&str>) -> (r: Result<AdmissionGuard, AdmissionRejection>)
        requires
            old(self).wf(),
        ensures
            final(self).wf(),
            final(self).limits() == old(self).limits(),
            match r {
                Err(rej) => {
                    &&& final(self).counters() == old(self).counters()
                    &&& rej.retry_after_seconds == if old(self).limits().retry_after_seconds >= 1 {
                        old(self).limits().retry_after_seconds
                    } else {
                        1
                    }
                    &&& if old(self).limits().max_global_in_flight matches Some(l) && old(self).counters().global >= l {
                        rej.reason == AdmissionRejectionReason::GlobalInFlightLimit
                    } else {
                        &&& rej.reason == AdmissionRejectionReason::PoolInFlightLimit
                        &&& pool_name matches Some(p) && old(self).limits().pool_limits().contains_key(p@)
                            && count_of(old(self).counters().pools, p@) >= old(self).limits().pool_limits()[p@]
                    }
                },
                Ok(g) => {
                    &&& g.is_active()
                    &&& !(old(self).limits().max_global_in_flight matches Some(l) && old(self).counters().global >= l)
                    &&& (pool_name matches Some(p) ==> (old(self).limits().pool_limits().contains_key(p@)
                        ==> count_of(old(self).counters().pools, p@) < old(self).limits().pool_limits()[p@]))
                    &&& final(self).counters().global == if old(self).limits().max_global_in_flight is Some {
                        (old(self).counters().global + 1) as u64
                    } else {
                        old(self).counters().global
                    }
                    &&& final(self).counters() == request_admitted(
                        old(self).counters(),
                        *old(self).limits(),
                        match pool_name {
                            Some(p) => Some(p@),
                            None => None,
                        },
                    )
                    &&& final(self).counters().providers == old(self).counters().providers
                    &&& final(self).counters().pools == match pool_name {
                        Some(p) => if old(self).limits().pool_limits().contains_key(p@) {
                            old(self).counters().pools.insert(p@, (count_of(old(self).counters().pools, p@) + 1) as u64)
                        } else {
                            old(self).counters().pools
                        },
                        None => old(self).counters().pools,
                    }
                    &&& release_slots(final(self).counters(), g.held()) == old(self).counters()
                },
            },
    {
        if let Some(limit) = self.limits.max_global_in_flight {
            if self.global_in_flight >= limit {
                return Err(self.rejection(AdmissionRejectionReason::GlobalInFlightLimit));
            }
        }
        let mut pool_limited = false;
        if let Some(p) = pool_name {
            if let Some(limit) = self.limits.pool_max_in_flight.get(p) {
                let current = match self.pool_in_flight.get(p) {
                    Some(c) => *c,
                    None => 0,
                };
                if current >= *limit {
                    return Err(self.rejection(AdmissionRejectionReason::PoolInFlightLimit));
                }
                pool_limited = true;
            }
        }
        let ghost before = self.counters();
        let mut slots: Vec<AdmissionSlot> = Vec::new();
        let global_limited = self.limits.max_global_in_flight.is_some();
        if global_limited {
            self.global_in_flight = self.global_in_flight + 1;
            slots.push(AdmissionSlot::Global);
        }
        let mut pool_key: Option<String> = None;
        if let Some(p) = pool_name {
            if pool_limited {
                let current = match self.pool_in_flight.get(p) {
                    Some(c) => *c,
                    None => 0,
                };
                self.pool_in_flight.insert(p.to_string(), current + 1);
                let ps = p.to_string();
                pool_key = Some(ps.clone());
                slots.push(AdmissionSlot::Pool(ps));
            }
        }
        proof {
            assert(slots@ =~= (if global_limited { seq![AdmissionSlot::Global] } else { Seq::<AdmissionSlot>::empty() })
                + (match pool_key { Some(k) => seq![AdmissionSlot::Pool(k)], None => Seq::<AdmissionSlot>::empty() }));
        }
        let g = AdmissionGuard::new(slots);
        proof {
            lemma_release_request(before, self.counters(), g.held(), global_limited, pool_key);
        }
        Ok(g)
    }

    /// Takes a slot of `provider_name` when it has a limit, or refuses when it is full.
    pub fn try_acquire_provider(&mut self, provider_name: &str) -> (r: Result<AdmissionGuard, AdmissionRejection>)
        requires
            old(self).wf(),
        ensures
            final(self).wf(),
            final(self).limits() == old(self).limits(),
            match r {
                Err(rej) => {
                    &&& final(self).counters() == old(self).counters()
                    &&& rej.reason == AdmissionRejectionReason::ProviderInFlightLimit
                    &&& rej.retry_after_seconds == if old(self).limits().retry_after_seconds >= 1 {
                        old(self).limits().retry_after_seconds
                    } else {
                        1
                    }
                    &&& old(self).limits().provider_limits().contains_key(provider_name@)
                    &&& count_of(old(self).counters().providers, provider_name@)
                        >= old(self).limits().provider_limits()[provider_name@]
                },
                Ok(g) => {
                    &&& g.is_active()
                    &&& provider_has_room(*old(self), provider_name@)
                    &&& if old(self).limits().provider_limits().contains_key(provider_name@) {
                        g.held().len() == 1 && (g.held()[0] matches AdmissionSlot::Provider(p) && p@ == provider_name@)
                    } else {
                        g.held().len() == 0
                    }
                    &&& final(self).counters() == provider_admitted(old(self).counters(), *old(self).limits(), provider_name@)
                    &&& final(self).counters().global == old(self).counters().global
                    &&& final(self).counters().pools == old(self).counters().pools
                    &&& final(self).counters().providers == if old(self).limits().provider_limits().contains_key(provider_name@) {
                        old(self).counters().providers.insert(
                            provider_name@,
                            (count_of(old(self).counters().providers, provider_name@) + 1) as u64,
                        )
                    } else {
                        old(self).counters().providers
                    }
                    &&& release_slots(final(self).counters(), g.held()) == old(self).counters()
                },
            },
    {
        let limit = match self.limits.provider_max_in_flight.get(provider_name) {
            Some(l) => *l,
            None => {
                let g = AdmissionGuard::new(Vec::new());
                return Ok(g);
            },
        };
        let current = match self.provider_in_flight.get(provider_name) {
            Some(c) => *c,
            None => 0,
        };
        if current >= limit {
            return Err(self.rejection(AdmissionRejectionReason::ProviderInFlightLimit));
        }
        let ghost before = self.counters();
        self.provider_in_flight.insert(provider_name.to_string(), current + 1);
        let mut slots: Vec<AdmissionSlot> = Vec::new();
        slots.push(AdmissionSlot::Provider(provider_name.to_string()));
        let g = AdmissionGuard::new(slots);
        proof {
            reveal_with_fuel(release_slots, 2);
            let s = g.held();
            assert(s.drop_last() =~= Seq::<AdmissionSlot>::empty());
            lemma_inc_then_dec(before.providers, provider_name@);
            assert(release_slots(self.counters(), s).providers == before.providers);
            assert(release_slots(self.counters(), s) == before);
        }
        Ok(g)
    }

    fn release(&mut self, slots: &Vec<AdmissionSlot>)
        requires
            old(self).wf(),
        ensures
            final(self).wf(),
            final(self).limits() == old(self).limits(),
            final(self).counters() == release_slots(old(self).counters(), slots@),
    {
        let n = slots.len();
        let ghost start = self.counters();
        for i in 0..n
            invariant
                n == slots@.len(),
                self.wf(),
                self.limits() == old(self).limits(),
                start == old(self).counters(),
                self.counters() == release_slots(start, slots@.take(i as int)),
        {
            proof {
                assert(slots@.take(i + 1).drop_last() =~= slots@.take(i as int));
            }
            match &slots[i] {
                AdmissionSlot::Global => {
                    self.global_in_flight = self.global_in_flight.saturating_sub(1);
                },
                AdmissionSlot::Pool(p) => {
                    decrement_or_remove(&mut self.pool_in_flight, p.as_str(), 1);
                },
                AdmissionSlot::Provider(p) => {
                    decrement_or_remove(&mut self.provider_in_flight, p.as_str(), 1);
                },
            }
        }
        assert(slots@.take(n as int) =~= slots@);
    }
}

/// Lowers the count under `key` by `amount` (saturating), removing the entry at zero.
pub fn decrement_or_remove(values: &mut StrMap<u64>, key: &str, amount: u64)
    requires
        old(values).wf(),
    ensures
        final(values).wf(),
        final(values)@ == dec_or_remove(old(values)@, key@, amount),
{
    let cur = match values.get(key) {
        Some(v) => *v,
        None => {
            return ;
        },
    };
    let next = cur.saturating_sub(amount);
    if next == 0 {
        values.remove(key);
    } else {
        values.insert(key.to_string(), next);
    }
}

/// Admission control never lets more requests in flight than the configured
/// global, pool and provider limits allow: every controller that the
/// operations produce is within its limits.
pub proof fn law_admission_stays_within_limits(c: &AdmissionController)
    requires
        c.wf(),
    ensures
        within_limits(c.counters(), c.limits().pool_limits(), c.limits().provider_limits(), c.limits().max_global_in_flight),
{
}

/// The counters after a request for `pool` is admitted: one more in flight
/// when a global limit is set, and one more in the pool when it has a limit
/// (what `try_acquire_request` does when it succeeds).
pub open spec fn request_admitted(c: AdmissionCounters, limits: AdmissionLimits, pool: Option<Seq<char>>) -> AdmissionCounters {
    AdmissionCounters {
        global: if limits.max_global_in_flight is Some { (c.global + 1) as u64 } else { c.global },
        pools: match pool {
            Some(p) => if limits.pool_limits().contains_key(p) {
                c.pools.insert(p, (count_of(c.pools, p) + 1) as u64)
            } else {
                c.pools
            },
            None => c.pools,
        },
        providers: c.providers,
    }
}

/// The counters after requests for the given pools are admitted, in order.
pub open spec fn requests_admitted(c: AdmissionCounters, limits: AdmissionLimits, pools: Seq<Option<Seq<char>>>) -> AdmissionCounters
    decreases pools.len(),
{
    if pools.len() == 0 {
        c
    } else {
        request_admitted(requests_admitted(c, limits, pools.drop_last()), limits, pools.last())
    }
}

/// How many of the requests were for pool `q`.
pub open spec fn admitted_to(pools: Seq<Option<Seq<char>>>, q: Seq<char>) -> nat
    decreases pools.len(),
{
    if pools.len() == 0 {
        0
    } else {
        admitted_to(pools.drop_last(), q) + if pools.last() == Some(q) { 1nat } else { 0nat }
    }
}

/// Nothing in flight.
pub open spec fn no_counters() -> AdmissionCounters {
    AdmissionCounters { global: 0, pools: Map::empty(), providers: Map::empty() }
}

/// With requests admitted and none finished, the gateway-wide count is the
/// number of them (when a global limit is set) and a limited pool's count is
/// the number admitted to it; so, by `try_acquire_request`, the next request
/// is admitted exactly when fewer requests than the limits are in flight.
pub proof fn law_admitted_requests_are_counted(limits: AdmissionLimits, pools: Seq<Option<Seq<char>>>, q: Seq<char>)
    requires
        pools.len() < u64::MAX,
    ensures
        limits.max_global_in_flight is Some ==> requests_admitted(no_counters(), limits, pools).global == pools.len(),
        limits.pool_limits().contains_key(q) ==> count_of(requests_admitted(no_counters(), limits, pools).pools, q)
            == admitted_to(pools, q),
        requests_admitted(no_counters(), limits, pools).providers == no_counters().providers,
    decreases pools.len(),
{
    if pools.len() > 0 {
        law_admitted_requests_are_counted(limits, pools.drop_last(), q);
        lemma_admitted_to_bounded(pools.drop_last(), q);
    }
}

proof fn lemma_admitted_to_bounded(pools: Seq<Option<Seq<char>>>, q: Seq<char>)
    ensures
        admitted_to(pools, q) <= pools.len(),
    decreases pools.len(),
{
    if pools.len() > 0 {
        lemma_admitted_to_bounded(pools.drop_last(), q);
    }
}

/// The counters after a call to `provider` is admitted: one more in flight for
/// it when it has a limit (what `try_acquire_provider` does when it succeeds).
pub open spec fn provider_admitted(c: AdmissionCounters, limits: AdmissionLimits, provider: Seq<char>) -> AdmissionCounters {
    if limits.provider_limits().contains_key(provider) {
        AdmissionCounters { providers: c.providers.insert(provider, (count_of(c.providers, provider) + 1) as u64), ..c }
    } else {
        c
    }
}

/// The counters after calls to the given providers are admitted, in order.
pub open spec fn providers_admitted(c: AdmissionCounters, limits: AdmissionLimits, providers: Seq<Seq<char>>) -> AdmissionCounters
    decreases providers.len(),
{
    if providers.len() == 0 {
        c
    } else {
        provider_admitted(providers_admitted(c, limits, providers.drop_last()), limits, providers.last())
    }
}

/// How many of the calls were to `q`.
pub open spec fn calls_to(providers: Seq<Seq<char>>, q: Seq<char>) -> nat
    decreases providers.len(),
{
    if providers.len() == 0 {
        0
    } else {
        calls_to(providers.drop_last(), q) + if providers.last() == q { 1nat } else { 0nat }
    }
}

/// With provider calls admitted and none finished, a limited provider's count
/// is the number of calls admitted to it, and nothing else changes; so, by
/// `try_acquire_provider`, the next call to it is admitted exactly when fewer
/// than its limit are in flight, and a provider without a limit always is.
pub proof fn law_admitted_provider_calls_are_counted(limits: AdmissionLimits, providers: Seq<Seq<char>>, q: Seq<char>)
    requires
        providers.len() < u64::MAX,
    ensures
        limits.provider_limits().contains_key(q) ==> count_of(providers_admitted(no_counters(), limits, providers).providers, q)
            == calls_to(providers, q),
        providers_admitted(no_counters(), limits, providers).global == 0,
        providers_admitted(no_counters(), limits, providers).pools == no_counters().pools,
    decreases providers.len(),
{
    if providers.len() > 0 {
        law_admitted_provider_calls_are_counted(limits, providers.drop_last(), q);
        lemma_calls_to_bounded(providers.drop_last(), q);
    }
}

proof fn lemma_calls_to_bounded(providers: Seq<Seq<char>>, q: Seq<char>)
    ensures
        calls_to(providers, q) <= providers.len(),
    decreases providers.len(),
{
    if providers.len() > 0 {
        lemma_calls_to_bounded(providers.drop_last(), q);
    }
}

/// A controller without limits (as `disabled` makes it, and it keeps its
/// limits) refuses nothing: no request reaches a global or pool limit and every
/// provider has room, whatever is in flight.
pub proof fn law_unlimited_admission_never_refuses(c: AdmissionController, pool: Option<Seq<char>>, provider: Seq<char>)
    requires
        c.limits().max_global_in_flight is None,
        c.limits().pool_limits() == Map::<Seq<char>, u64>::empty(),
        c.limits().provider_limits() == Map::<Seq<char>, u64>::empty(),
    ensures
        !(c.limits().max_global_in_flight matches Some(l) && c.counters().global >= l),
        pool matches Some(p) ==> !c.limits().pool_limits().contains_key(p),
        provider_has_room(c, provider),
{
}

pub proof fn lemma_release_keeps_pools(c: AdmissionCounters, slots: Seq<AdmissionSlot>)
    requires
        forall|i: int| 0 <= i < slots.len() ==> slots[i] is Global,
    ensures
        release_slots(c, slots).pools == c.pools,
        release_slots(c, slots).providers == c.providers,
    decreases slots.len(),
{
    if slots.len() > 0 {
        lemma_release_keeps_pools(c, slots.drop_last());
    }
}

/// Taking one more unit of `k` and giving it back leaves the map as it was.
pub proof fn lemma_inc_then_dec(m: Map<Seq<char>, u64>, k: Seq<char>)
    requires
        forall|j: Seq<char>| #[trigger] m.contains_key(j) ==> m[j] > 0,
        count_of(m, k) < u64::MAX,
    ensures
        dec_or_remove(m.insert(k, (count_of(m, k) + 1) as u64), k, 1) == m,
{
    let m2 = m.insert(k, (count_of(m, k) + 1) as u64);
    if m.contains_key(k) {
        assert(dec_or_remove(m2, k, 1) =~= m);
    } else {
        assert(dec_or_remove(m2, k, 1) =~= m);
    }
}

proof fn lemma_release_request(
    before: AdmissionCounters,
    after: AdmissionCounters,
    s: Seq<AdmissionSlot>,
    global_added: bool,
    pool: Option<String>,
)
    requires
        forall|j: Seq<char>| #[trigger] before.pools.contains_key(j) ==> before.pools[j] > 0,
        after.providers == before.providers,
        global_added ==> before.global < u64::MAX && after.global == before.global + 1,
        !global_added ==> after.global == before.global,
        pool matches Some(p) ==> count_of(before.pools, p@) < u64::MAX && after.pools == before.pools.insert(
            p@,
            (count_of(before.pools, p@) + 1) as u64,
        ),
        pool is None ==> after.pools == before.pools,
        s == (if global_added { seq![AdmissionSlot::Global] } else { Seq::<AdmissionSlot>::empty() })
            + (match pool { Some(p) => seq![AdmissionSlot::Pool(p)], None => Seq::<AdmissionSlot>::empty() }),
    ensures
        release_slots(after, s) == before,
{
    reveal_with_fuel(release_slots, 3);
    let g_part = if global_added { seq![AdmissionSlot::Global] } else { Seq::<AdmissionSlot>::empty() };
    let r1 = release_slots(after, g_part);
    if global_added {
        assert(g_part.drop_last() =~= Seq::<AdmissionSlot>::empty());
    }
    assert(r1.global == before.global);
    assert(r1.pools == after.pools);
    assert(r1.providers == after.providers);
    match pool {
        Some(p) => {
            assert(s.drop_last() =~= g_part);
            lemma_inc_then_dec(before.pools, p@);
            assert(release_slots(after, s).pools == before.pools);
            assert(release_slots(after, s) == before);
        },
        None => {
            assert(s =~= g_part);
            assert(r1.pools == before.pools);
            assert(r1 == before);
        },
    }
}

} // verus!
