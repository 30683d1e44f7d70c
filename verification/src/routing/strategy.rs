//! Provider selection: which configured providers may serve a request, and in
//! which order they are tried.
//!
//! A candidate list is a list of positions in the configured provider list. What
//! the router reads of each provider (its name and priority, whether it serves the
//! requested model, its cost and latency ranks, its load) is carried by a
//! `CandidateEntry`.
use vstd::prelude::*;

use crate::config::{PrefixAffinityConfig, RoutingPolicy};
use crate::hashing::{sha256, sha256_digest};
use crate::routing::model_pools::{ModelPool, ModelPoolIndex};
use crate::routing::prefix_affinity::{lookup_outcome, value_of, without_key, PrefixAffinityIndex};
use crate::routing::prefix_fingerprint::{PrefixFingerprintConfidence, PrefixFingerprintResult};
use crate::routing::ranking::{key_lt, rank_lt, sort_ranked, Ranked};
use crate::routing::resilience::{circuit_or_fresh, CircuitState, ResilienceRegistry};
use crate::strmap::StrMap;
use crate::text::{lemma_lt_total, lemma_lt_transitive, seq_lt, str_eq_chars, vec_contains_str, view_set};

verus! {

/// What routing reads of one configured provider.
///
/// `cost_rank` and `latency_rank` order providers by cost and by latency score:
/// a lower rank is better and equal values share a rank. The load figures come
/// from the metrics snapshot and are zero without one; `queue_pressure` is rounded
/// up to a whole number.
#[derive(Debug, Clone)]
pub struct CandidateEntry {
    pub name: String,
    pub priority: u32,
    pub supports_requested_model: bool,
    pub cost_rank: u64,
    pub latency_rank: u64,
    pub in_flight: u64,
    pub queue_pressure: u64,
    pub recent_errors: u64,
    pub has_p95_latency: bool,
    pub has_avg_latency: bool,
}

/// The view of an optional model name.
pub open spec fn opt_view(o: Option<&str>) -> Option<Seq<char>> {
    match o {
        Some(s) => Some(s@),
        None => None,
    }
}

/// The pool serving the requested model, if a model was requested and a pool serves it.
pub open spec fn requested_pool(pools: ModelPoolIndex, requested: Option<Seq<char>>) -> Option<ModelPool> {
    match requested {
        Some(m) => pools.pool_spec(m),
        None => None,
    }
}

/// A provider serves the request: it is a member of the model's pool, or, when no
/// pool serves the model, it supports the model itself.
pub open spec fn serves(e: CandidateEntry, pool: Option<ModelPool>) -> bool {
    match pool {
        Some(p) => view_set(p.members@).contains(e.name@),
        None => e.supports_requested_model,
    }
}

/// The key a policy orders by before priority and name.
pub open spec fn policy_key(e: CandidateEntry, policy: RoutingPolicy) -> u64 {
    match policy {
        RoutingPolicy::Cost => e.cost_rank,
        RoutingPolicy::Latency => e.latency_rank,
        _ => 0,
    }
}

/// Provider `a` is tried before provider `b` under `policy`: by the policy's key,
/// then priority, then name, then configuration order.
pub open spec fn policy_before(entries: Seq<CandidateEntry>, policy: RoutingPolicy, a: int, b: int) -> bool {
    key_lt(
        policy_key(entries[a], policy),
        entries[a].priority as u64,
        entries[a].name@,
        a,
        policy_key(entries[b], policy),
        entries[b].priority as u64,
        entries[b].name@,
        b,
    )
}

/// `r` lists exactly the providers that serve the request, in `policy` order.
pub open spec fn policy_order(entries: Seq<CandidateEntry>, pool: Option<ModelPool>, policy: RoutingPolicy, r: Seq<usize>) -> bool {
    &&& forall|i: usize| #[trigger] r.contains(i) <==> ((i as int) < entries.len() && serves(entries[i as int], pool))
    &&& forall|a: int, b: int| #![trigger r[a], r[b]] 0 <= a < b < r.len() ==> policy_before(entries, policy, r[a] as int, r[b] as int)
}

/// The pool's own policy when it has one, otherwise the configured policy.
pub open spec fn effective_policy(pool: Option<ModelPool>, policy: RoutingPolicy) -> RoutingPolicy {
    match pool {
        Some(p) => match p.routing_policy {
            Some(x) => x,
            None => policy,
        },
        None => policy,
    }
}

/// The model an alias stands for, or the requested name when it is no alias.
pub open spec fn resolved_model(aliases: Map<Seq<char>, String>, requested: Seq<char>) -> Seq<char> {
    if aliases.contains_key(requested) {
        aliases[requested]@
    } else {
        requested
    }
}

/// Resolves a configured model alias.
pub fn resolve_model_alias(aliases: &StrMap<String>, requested_model: &str) -> (r: String)
    requires
        aliases.wf(),
    ensures
        r@ == resolved_model(aliases@, requested_model@),
{
    match aliases.get(requested_model) {
        Some(target) => target.clone(),
        None => requested_model.to_string(),
    }
}

/// The routing policy that applies to a request.
pub fn effective_routing_policy(requested_model: Option<&str>, routing_policy: RoutingPolicy, model_pools: &ModelPoolIndex) -> (p: RoutingPolicy)
    requires
        model_pools.wf(),
    ensures
        p == effective_policy(requested_pool(*model_pools, opt_view(requested_model)), routing_policy),
{
    match requested_model {
        Some(model) => match model_pools.pool_for_public_model(model) {
            Some(pool) => match pool.routing_policy {
                Some(p) => p,
                None => routing_policy,
            },
            None => routing_policy,
        },
        None => routing_policy,
    }
}

/// Name of the reason a policy gives for its first candidate.
pub open spec fn decision_reason(policy: RoutingPolicy, selected: Option<CandidateEntry>) -> Seq<char> {
    match policy {
        RoutingPolicy::Priority => "priority"@,
        RoutingPolicy::Cost => "lowest_cost"@,
        RoutingPolicy::PrefixAffinity => "fallback"@,
        RoutingPolicy::Latency => match selected {
            None => "no_provider"@,
            Some(e) => if e.has_p95_latency {
                "recent_latency_p95"@
            } else if e.has_avg_latency {
                "average_latency"@
            } else {
                "no_latency_data"@
            },
        },
    }
}

/// Why `policy` put `selected` first.
pub fn routing_decision_reason(routing_policy: RoutingPolicy, selected: Option<&CandidateEntry>) -> (s: &'static str)
    ensures
        s@ == decision_reason(
            routing_policy,
            match selected {
                Some(e) => Some(*e),
                None => None,
            },
        ),
{
    match routing_policy {
        RoutingPolicy::Priority => "priority",
        RoutingPolicy::Cost => "lowest_cost",
        RoutingPolicy::PrefixAffinity => "fallback",
        RoutingPolicy::Latency => match selected {
            None => "no_provider",
            Some(e) => if e.has_p95_latency {
                "recent_latency_p95"
            } else if e.has_avg_latency {
                "average_latency"
            } else {
                "no_latency_data"
            },
        },
    }
}

/// The ranked entry of provider `i` for `policy`.
pub open spec fn ranked_for_policy(entries: Seq<CandidateEntry>, policy: RoutingPolicy, pool: Option<ModelPool>, x: Ranked) -> bool {
    &&& (x.position as int) < entries.len()
    &&& x.primary == policy_key(entries[x.position as int], policy)
    &&& x.secondary == entries[x.position as int].priority as u64
    &&& x.name@ == entries[x.position as int].name@
    &&& serves(entries[x.position as int], pool)
}

/// The positions carried by ranked entries, in order.
fn positions_of(v: &Vec<Ranked>) -> (r: Vec<usize>)
    ensures
        r@.len() == v@.len(),
        forall|i: int| 0 <= i < r@.len() ==> r@[i] == (#[trigger] v@[i]).position,
{
    let n = v.len();
    let mut r: Vec<usize> = Vec::new();
    for i in 0..n
        invariant
            n == v@.len(),
            r@.len() == i,
            forall|j: int| 0 <= j < i ==> r@[j] == (#[trigger] v@[j]).position,
    {
        r.push(v[i].position);
    }
    r
}

/// Whether provider `e` serves the request given the model's pool.
fn serves_request(e: &CandidateEntry, pool: Option<&ModelPool>) -> (b: bool)
    ensures
        b == serves(
            *e,
            match pool {
                Some(p) => Some(*p),
                None => None,
            },
        ),
{
    match pool {
        Some(p) => vec_contains_str(&p.members, e.name.as_str()),
        None => e.supports_requested_model,
    }
}

fn policy_key_of(e: &CandidateEntry, policy: RoutingPolicy) -> (k: u64)
    ensures
        k == policy_key(*e, policy),
{
    match policy {
        RoutingPolicy::Cost => e.cost_rank,
        RoutingPolicy::Latency => e.latency_rank,
        _ => 0,
    }
}

/// The providers that serve the request, ordered for `routing_policy`; none when
/// no model was requested.
pub fn candidate_providers_for_policy(
    providers: &[CandidateEntry],
    requested_model: Option<&str>,
    routing_policy: RoutingPolicy,
    model_pools: &ModelPoolIndex,
) -> (r: Vec<usize>)
    requires
        model_pools.wf(),
    ensures
        requested_model is None ==> r@.len() == 0,
        requested_model is Some ==> policy_order(
            providers@,
            requested_pool(*model_pools, opt_view(requested_model)),
            routing_policy,
            r@,
        ),
{
    let model = match requested_model {
        Some(m) => m,
        None => return Vec::new(),
    };
    let pool = model_pools.pool_for_public_model(model);
    let ghost spool = requested_pool(*model_pools, opt_view(requested_model));
    proof {
        assert(spool == match pool {
            Some(p) => Some(*p),
            None => None::<ModelPool>,
        });
    }
    let ghost entries = providers@;
    let n = providers.len();
    let mut items: Vec<Ranked> = Vec::new();
    for i in 0..n
        invariant
            n == entries.len(),
            entries == providers@,
            spool == match pool {
                Some(p) => Some(*p),
                None => None::<ModelPool>,
            },
            forall|a: int| 0 <= a < items@.len() ==> (#[trigger] items@[a]).position < i && ranked_for_policy(entries, routing_policy, spool, items@[a]),
            forall|a: int, b: int| 0 <= a < b < items@.len() ==> (#[trigger] items@[a]).position < (#[trigger] items@[b]).position,
            forall|j: int| 0 <= j < i ==> (serves(#[trigger] entries[j], spool) <==> exists|a: int| 0 <= a < items@.len() && (#[trigger] items@[a]).position == j),
    {
        let e = &providers[i];
        if serves_request(e, pool) {
            let x = Ranked { primary: policy_key_of(e, routing_policy), secondary: e.priority as u64, name: e.name.clone(), position: i };
            let ghost before = items@;
            items.push(x);
            proof {
                assert(items@[before.len() as int] == x);
                assert forall|j: int| 0 <= j < i + 1 implies (serves(#[trigger] entries[j], spool) <==> exists|a: int| 0 <= a < items@.len() && (#[trigger] items@[a]).position == j) by {
                    if j < i {
                        if serves(entries[j], spool) {
                            let a = choose|a: int| 0 <= a < before.len() && (#[trigger] before[a]).position == j;
                            assert(items@[a] == before[a]);
                        }
                        if exists|a: int| 0 <= a < items@.len() && (#[trigger] items@[a]).position == j {
                            let a = choose|a: int| 0 <= a < items@.len() && (#[trigger] items@[a]).position == j;
                            if a < before.len() {
                                assert(items@[a] == before[a]);
                            }
                        }
                    } else {
                        assert(items@[before.len() as int].position == j);
                    }
                }
            }
        } else {
            proof {
                assert forall|j: int| 0 <= j < i + 1 implies (serves(#[trigger] entries[j], spool) <==> exists|a: int| 0 <= a < items@.len() && (#[trigger] items@[a]).position == j) by {
                    if j == i {
                        if exists|a: int| 0 <= a < items@.len() && (#[trigger] items@[a]).position == j {
                            let a = choose|a: int| 0 <= a < items@.len() && (#[trigger] items@[a]).position == j;
                            assert(items@[a].position < i);
                        }
                    }
                }
            }
        }
    }
    let ghost unsorted = items@;
    let sorted = sort_ranked(items);
    let r = positions_of(&sorted);
    proof {
        assert forall|a: int| 0 <= a < sorted@.len() implies ranked_for_policy(entries, routing_policy, spool, #[trigger] sorted@[a]) by {
            assert(sorted@.contains(sorted@[a]));
            assert(unsorted.contains(sorted@[a]));
        }
        assert forall|i: usize| #[trigger] r@.contains(i) <==> ((i as int) < entries.len() && serves(entries[i as int], spool)) by {
            if r@.contains(i) {
                let a = choose|a: int| 0 <= a < r@.len() && r@[a] == i;
                assert(ranked_for_policy(entries, routing_policy, spool, sorted@[a]));
            }
            if (i as int) < entries.len() && serves(entries[i as int], spool) {
                let a = choose|a: int| 0 <= a < unsorted.len() && (#[trigger] unsorted[a]).position == i;
                assert(unsorted.contains(unsorted[a]));
                assert(sorted@.contains(unsorted[a]));
                let b = choose|b: int| 0 <= b < sorted@.len() && sorted@[b] == unsorted[a];
                assert(r@[b] == i);
            }
        }
        assert forall|a: int, b: int| #![trigger r@[a], r@[b]] 0 <= a < b < r@.len() implies policy_before(entries, routing_policy, r@[a] as int, r@[b] as int) by {
            assert(rank_lt(sorted@[a], sorted@[b]));
            assert(ranked_for_policy(entries, routing_policy, spool, sorted@[a]));
            assert(ranked_for_policy(entries, routing_policy, spool, sorted@[b]));
        }
    }
    r
}

/// The providers to try for a request, in order.
pub fn candidate_providers(
    providers: &[CandidateEntry],
    requested_model: Option<&str>,
    routing_policy: RoutingPolicy,
    model_pools: &ModelPoolIndex,
) -> (r: Vec<usize>)
    requires
        model_pools.wf(),
    ensures
        requested_model is None ==> r@.len() == 0,
        requested_model is Some ==> policy_order(
            providers@,
            requested_pool(*model_pools, opt_view(requested_model)),
            effective_policy(requested_pool(*model_pools, opt_view(requested_model)), routing_policy),
            r@,
        ),
{
    let effective = effective_routing_policy(requested_model, routing_policy, model_pools);
    candidate_providers_for_policy(providers, requested_model, effective, model_pools)
}

/// The provider that priority routing would try first.
pub fn select_provider(providers: &[CandidateEntry], requested_model: Option<&str>, model_pools: &ModelPoolIndex) -> (r: Option<usize>)
    requires
        model_pools.wf(),
    ensures
        requested_model is None ==> r is None,
        requested_model is Some ==> exists|order: Seq<usize>| #[trigger] policy_order(
            providers@,
            requested_pool(*model_pools, opt_view(requested_model)),
            effective_policy(requested_pool(*model_pools, opt_view(requested_model)), RoutingPolicy::Priority),
            order,
        ) && r == (if order.len() > 0 { Some(order[0]) } else { None }),
{
    let c = candidate_providers(providers, requested_model, RoutingPolicy::Priority, model_pools);
    if c.len() > 0 {
        Some(c[0])
    } else {
        None
    }
}

/// All candidate positions point into the provider list.
pub open spec fn valid_candidates(entries: Seq<CandidateEntry>, c: Seq<usize>) -> bool {
    forall|i: int| 0 <= i < c.len() ==> (#[trigger] c[i] as int) < entries.len()
}

/// The provider's circuit breaker is open.
pub open spec fn is_open(e: CandidateEntry, resilience: Option<&ResilienceRegistry>) -> bool {
    match resilience {
        Some(r) => circuit_or_fresh(r.circuits(), e.name@).state == CircuitState::Open,
        None => false,
    }
}

pub open spec fn registry_ok(resilience: Option<&ResilienceRegistry>) -> bool {
    match resilience {
        Some(r) => r.wf(),
        None => true,
    }
}

/// Whether the provider's circuit breaker is open.
pub fn is_open_circuit(e: &CandidateEntry, resilience: Option<&ResilienceRegistry>) -> (b: bool)
    requires
        registry_ok(resilience),
    ensures
        b == is_open(*e, resilience),
{
    match resilience {
        Some(r) => match r.circuit_state(e.name.as_str()) {
            CircuitState::Open => true,
            _ => false,
        },
        None => false,
    }
}

/// The candidates whose breaker is not open, in order.
pub open spec fn healthy_of(entries: Seq<CandidateEntry>, resilience: Option<&ResilienceRegistry>, c: Seq<usize>) -> Seq<usize>
    decreases c.len(),
{
    if c.len() == 0 {
        Seq::empty()
    } else {
        let prev = healthy_of(entries, resilience, c.drop_last());
        if is_open(entries[c.last() as int], resilience) {
            prev
        } else {
            prev.push(c.last())
        }
    }
}

proof fn lemma_healthy_valid(entries: Seq<CandidateEntry>, resilience: Option<&ResilienceRegistry>, c: Seq<usize>)
    requires
        valid_candidates(entries, c),
    ensures
        valid_candidates(entries, healthy_of(entries, resilience, c)),
        healthy_of(entries, resilience, c).len() <= c.len(),
        forall|i: int| 0 <= i < healthy_of(entries, resilience, c).len() ==> c.contains(#[trigger] healthy_of(entries, resilience, c)[i]),
    decreases c.len(),
{
    if c.len() > 0 {
        lemma_healthy_valid(entries, resilience, c.drop_last());
        let prev = healthy_of(entries, resilience, c.drop_last());
        assert forall|i: int| 0 <= i < healthy_of(entries, resilience, c).len() implies c.contains(#[trigger] healthy_of(entries, resilience, c)[i]) by {
            if i < prev.len() {
                let x = prev[i];
                assert(c.drop_last().contains(x));
                let j = choose|j: int| 0 <= j < c.drop_last().len() && c.drop_last()[j] == x;
                assert(c[j] == x);
            } else {
                assert(c[c.len() - 1] == c.last());
            }
        }
    }
}

/// The candidates whose breaker is not open.
pub fn healthy_candidates(entries: &[CandidateEntry], c: &Vec<usize>, resilience: Option<&ResilienceRegistry>) -> (r: Vec<usize>)
    requires
        registry_ok(resilience),
        valid_candidates(entries@, c@),
    ensures
        r@ == healthy_of(entries@, resilience, c@),
{
    let n = c.len();
    let mut r: Vec<usize> = Vec::new();
    for i in 0..n
        invariant
            n == c@.len(),
            registry_ok(resilience),
            valid_candidates(entries@, c@),
            r@ == healthy_of(entries@, resilience, c@.take(i as int)),
    {
        proof {
            assert(c@.take(i + 1).drop_last() =~= c@.take(i as int));
            assert(c@.take(i + 1).last() == c@[i as int]);
        }
        let k = c[i];
        if !is_open_circuit(&entries[k], resilience) {
            r.push(k);
        }
    }
    proof {
        assert(c@.take(n as int) =~= c@);
    }
    r
}

/// Some candidate is named `name`.
pub open spec fn has_name(entries: Seq<CandidateEntry>, c: Seq<usize>, name: Seq<char>) -> bool {
    exists|i: int| 0 <= i < c.len() && #[trigger] entries[c[i] as int].name@ == name
}

/// Position of the first candidate in `c` named `name` (`c.len()` when there is none).
pub open spec fn first_position_of_name(entries: Seq<CandidateEntry>, c: Seq<usize>, name: Seq<char>) -> int
    decreases c.len(),
{
    if c.len() == 0 {
        0
    } else if entries[c[0] as int].name@ == name {
        0
    } else {
        1 + first_position_of_name(entries, c.drop_first(), name)
    }
}

proof fn lemma_first_position(entries: Seq<CandidateEntry>, c: Seq<usize>, name: Seq<char>, i: int)
    requires
        0 <= i <= c.len(),
        forall|j: int| 0 <= j < i ==> #[trigger] entries[c[j] as int].name@ != name,
        i < c.len() ==> entries[c[i] as int].name@ == name,
    ensures
        first_position_of_name(entries, c, name) == i,
    decreases i,
{
    if i > 0 {
        assert(entries[c[0] as int].name@ != name);
        assert forall|j: int| 0 <= j < i - 1 implies #[trigger] entries[c.drop_first()[j] as int].name@ != name by {
            assert(c.drop_first()[j] == c[j + 1]);
        }
        if i < c.len() {
            assert(c.drop_first()[i - 1] == c[i]);
        }
        lemma_first_position(entries, c.drop_first(), name, i - 1);
    }
}

/// Position of the first candidate named `name`.
pub fn first_with_name(entries: &[CandidateEntry], c: &Vec<usize>, name: &str) -> (r: Option<usize>)
    requires
        valid_candidates(entries@, c@),
    ensures
        r is None <==> !has_name(entries@, c@, name@),
        r matches Some(i) ==> i < c@.len() && i == first_position_of_name(entries@, c@, name@) && entries@[c@[i as int] as int].name@ == name@,
{
    let n = c.len();
    for i in 0..n
        invariant
            n == c@.len(),
            valid_candidates(entries@, c@),
            forall|j: int| 0 <= j < i ==> #[trigger] entries@[c@[j] as int].name@ != name@,
    {
        if str_eq_chars(entries[c[i]].name.as_str(), name) {
            proof {
                lemma_first_position(entries@, c@, name@, i as int);
            }
            return Some(i);
        }
    }
    None
}

/// The candidates named `name` (when `matching`) or not named `name`, in order.
pub open spec fn split_by_name(entries: Seq<CandidateEntry>, c: Seq<usize>, name: Seq<char>, matching: bool) -> Seq<usize>
    decreases c.len(),
{
    if c.len() == 0 {
        Seq::empty()
    } else {
        let prev = split_by_name(entries, c.drop_last(), name, matching);
        if (entries[c.last() as int].name@ == name) == matching {
            prev.push(c.last())
        } else {
            prev
        }
    }
}

/// The candidates named `name` first, the others after, each group in order.
pub open spec fn moved_to_front(entries: Seq<CandidateEntry>, c: Seq<usize>, name: Seq<char>) -> Seq<usize> {
    split_by_name(entries, c, name, true) + split_by_name(entries, c, name, false)
}

/// Moves the candidates named `provider_name` to the front, keeping the order otherwise.
pub fn move_provider_to_front(entries: &[CandidateEntry], candidates: Vec<usize>, provider_name: &str) -> (r: Vec<usize>)
    requires
        valid_candidates(entries@, candidates@),
    ensures
        r@ == moved_to_front(entries@, candidates@, provider_name@),
{
    let n = candidates.len();
    let mut preferred: Vec<usize> = Vec::new();
    let mut rest: Vec<usize> = Vec::new();
    for i in 0..n
        invariant
            n == candidates@.len(),
            valid_candidates(entries@, candidates@),
            preferred@ == split_by_name(entries@, candidates@.take(i as int), provider_name@, true),
            rest@ == split_by_name(entries@, candidates@.take(i as int), provider_name@, false),
    {
        proof {
            assert(candidates@.take(i + 1).drop_last() =~= candidates@.take(i as int));
            assert(candidates@.take(i + 1).last() == candidates@[i as int]);
        }
        let k = candidates[i];
        if str_eq_chars(entries[k].name.as_str(), provider_name) {
            preferred.push(k);
        } else {
            rest.push(k);
        }
    }
    proof {
        assert(candidates@.take(n as int) =~= candidates@);
    }
    preferred.append(&mut rest);
    preferred
}

/// The provider has failed recently.
pub fn provider_has_recent_errors(e: &CandidateEntry) -> (b: bool)
    ensures
        b == (e.recent_errors > 0),
{
    e.recent_errors > 0
}

pub open spec fn min_u64(a: u64, b: u64) -> u64 {
    if a <= b { a } else { b }
}

pub open spec fn max_u64(a: u64, b: u64) -> u64 {
    if a >= b { a } else { b }
}

/// Least in-flight count among the candidates (zero for none).
pub open spec fn min_in_flight(entries: Seq<CandidateEntry>, c: Seq<usize>) -> u64
    decreases c.len(),
{
    if c.len() == 0 {
        0
    } else if c.len() == 1 {
        entries[c[0] as int].in_flight
    } else {
        min_u64(min_in_flight(entries, c.drop_last()), entries[c.last() as int].in_flight)
    }
}

/// Least queue pressure among the candidates (zero for none).
pub open spec fn min_queue_pressure(entries: Seq<CandidateEntry>, c: Seq<usize>) -> u64
    decreases c.len(),
{
    if c.len() == 0 {
        0
    } else if c.len() == 1 {
        entries[c[0] as int].queue_pressure
    } else {
        min_u64(min_queue_pressure(entries, c.drop_last()), entries[c.last() as int].queue_pressure)
    }
}

pub open spec fn sat_add_u64(a: u64, b: u64) -> u64 {
    if a + b > u64::MAX { u64::MAX } else { (a + b) as u64 }
}

pub open spec fn sat_mul_u64(a: u64, b: u64) -> u64 {
    if a * b > u64::MAX { u64::MAX } else { (a * b) as u64 }
}

/// The current provider's load is within `threshold` of the least loaded candidate,
/// both in in-flight requests and in queue pressure.
pub open spec fn within_threshold(current: CandidateEntry, entries: Seq<CandidateEntry>, c: Seq<usize>, threshold: u64) -> bool {
    &&& current.in_flight <= sat_add_u64(min_in_flight(entries, c), threshold)
    &&& current.queue_pressure <= sat_add_u64(min_queue_pressure(entries, c), threshold)
}

proof fn lemma_min_load(entries: Seq<CandidateEntry>, c: Seq<usize>)
    requires
        c.len() > 0,
    ensures
        forall|k: int| 0 <= k < c.len() ==> min_in_flight(entries, c) <= #[trigger] entries[c[k] as int].in_flight,
        forall|k: int| 0 <= k < c.len() ==> min_queue_pressure(entries, c) <= #[trigger] entries[c[k] as int].queue_pressure,
        exists|k: int| 0 <= k < c.len() && min_in_flight(entries, c) == #[trigger] entries[c[k] as int].in_flight,
        exists|k: int| 0 <= k < c.len() && min_queue_pressure(entries, c) == #[trigger] entries[c[k] as int].queue_pressure,
    decreases c.len(),
{
    if c.len() == 1 {
        assert(entries[c[0] as int].in_flight == min_in_flight(entries, c));
        assert(entries[c[0] as int].queue_pressure == min_queue_pressure(entries, c));
    } else {
        let d = c.drop_last();
        lemma_min_load(entries, d);
        let n = c.len() - 1;
        assert forall|k: int| 0 <= k < c.len() implies min_in_flight(entries, c) <= #[trigger] entries[c[k] as int].in_flight by {
            if k < n {
                assert(c[k] == d[k]);
            }
        }
        assert forall|k: int| 0 <= k < c.len() implies min_queue_pressure(entries, c) <= #[trigger] entries[c[k] as int].queue_pressure by {
            if k < n {
                assert(c[k] == d[k]);
            }
        }
        let ki = choose|k: int| 0 <= k < d.len() && min_in_flight(entries, d) == #[trigger] entries[d[k] as int].in_flight;
        let kq = choose|k: int| 0 <= k < d.len() && min_queue_pressure(entries, d) == #[trigger] entries[d[k] as int].queue_pressure;
        assert(c[ki] == d[ki]);
        assert(c[kq] == d[kq]);
        if min_in_flight(entries, c) == entries[c[n] as int].in_flight {
            assert(min_in_flight(entries, c) == entries[c[n] as int].in_flight);
        } else {
            assert(min_in_flight(entries, c) == entries[c[ki] as int].in_flight);
        }
        if min_queue_pressure(entries, c) == entries[c[n] as int].queue_pressure {
            assert(min_queue_pressure(entries, c) == entries[c[n] as int].queue_pressure);
        } else {
            assert(min_queue_pressure(entries, c) == entries[c[kq] as int].queue_pressure);
        }
    }
}

/// The provider last seen with a prefix keeps it only while its load is within
/// `threshold` of every healthy candidate's, both in in-flight requests and in
/// queue pressure: one whose in-flight count or queue pressure is more than
/// `threshold` above any candidate's is never within the threshold (never a
/// `prefix_hit`).
pub proof fn law_affinity_needs_load_within_threshold(current: CandidateEntry, entries: Seq<CandidateEntry>, c: Seq<usize>, threshold: u64)
    requires
        c.len() > 0,
    ensures
        within_threshold(current, entries, c, threshold) <==> forall|k: int|
            0 <= k < c.len() ==> current.in_flight <= #[trigger] entries[c[k] as int].in_flight + threshold
                && current.queue_pressure <= entries[c[k] as int].queue_pressure + threshold,
{
    lemma_min_load(entries, c);
    if within_threshold(current, entries, c, threshold) {
        assert forall|k: int| 0 <= k < c.len() implies current.in_flight <= #[trigger] entries[c[k] as int].in_flight + threshold
            && current.queue_pressure <= entries[c[k] as int].queue_pressure + threshold by {
            assert(min_in_flight(entries, c) <= entries[c[k] as int].in_flight);
            assert(min_queue_pressure(entries, c) <= entries[c[k] as int].queue_pressure);
        }
    }
    if forall|k: int|
        0 <= k < c.len() ==> current.in_flight <= #[trigger] entries[c[k] as int].in_flight + threshold
            && current.queue_pressure <= entries[c[k] as int].queue_pressure + threshold {
        let ki = choose|k: int| 0 <= k < c.len() && min_in_flight(entries, c) == #[trigger] entries[c[k] as int].in_flight;
        let kq = choose|k: int| 0 <= k < c.len() && min_queue_pressure(entries, c) == #[trigger] entries[c[k] as int].queue_pressure;
        assert(current.in_flight <= entries[c[ki] as int].in_flight + threshold);
        assert(current.in_flight <= entries[c[kq] as int].in_flight + threshold);
        assert(current.queue_pressure <= entries[c[kq] as int].queue_pressure + threshold);
    }
}

fn saturating_add_u64(a: u64, b: u64) -> (r: u64)
    ensures
        r == sat_add_u64(a, b),
{
    if a > u64::MAX - b { u64::MAX } else { a + b }
}

fn saturating_mul_u64(a: u64, b: u64) -> (r: u64)
    ensures
        r == sat_mul_u64(a, b),
{
    if b == 0 {
        0
    } else if a > u64::MAX / b {
        proof {
            assert(a * b > u64::MAX) by (nonlinear_arith)
                requires
                    a > u64::MAX / b,
                    b > 0,
            ;
        }
        u64::MAX
    } else {
        proof {
            assert(a * b <= u64::MAX) by (nonlinear_arith)
                requires
                    a <= u64::MAX / b,
                    b > 0,
            ;
        }
        a * b
    }
}

/// Whether sending to `current` keeps the load within `threshold` of the least
/// loaded of `candidates`.
pub fn load_within_threshold(entries: &[CandidateEntry], current: &CandidateEntry, candidates: &Vec<usize>, threshold: u64) -> (b: bool)
    requires
        valid_candidates(entries@, candidates@),
    ensures
        b == within_threshold(*current, entries@, candidates@, threshold),
{
    let n = candidates.len();
    let mut min_flight: u64 = 0;
    let mut min_queue: u64 = 0;
    for i in 0..n
        invariant
            n == candidates@.len(),
            valid_candidates(entries@, candidates@),
            min_flight == min_in_flight(entries@, candidates@.take(i as int)),
            min_queue == min_queue_pressure(entries@, candidates@.take(i as int)),
    {
        proof {
            assert(candidates@.take(i + 1).drop_last() =~= candidates@.take(i as int));
            assert(candidates@.take(i + 1).last() == candidates@[i as int]);
            assert(candidates@.take(i + 1)[0] == candidates@[0]);
        }
        let e = &entries[candidates[i]];
        if i == 0 || e.in_flight < min_flight {
            min_flight = e.in_flight;
        }
        if i == 0 || e.queue_pressure < min_queue {
            min_queue = e.queue_pressure;
        }
    }
    proof {
        assert(candidates@.take(n as int) =~= candidates@);
    }
    current.in_flight <= saturating_add_u64(min_flight, threshold) && current.queue_pressure <= saturating_add_u64(min_queue, threshold)
}

/// Penalty added to the load of a provider whose breaker is open.
pub const OPEN_CIRCUIT_LOAD_PENALTY: u64 = 1_000_000;

/// Load added per recent error.
pub const RECENT_ERROR_LOAD_WEIGHT: u64 = 1_000;

/// A provider's load: the larger of in-flight requests and queue pressure, plus a
/// weight per recent error and a penalty when its breaker is open, saturating.
pub open spec fn load_score_of(e: CandidateEntry, resilience: Option<&ResilienceRegistry>) -> u64 {
    sat_add_u64(
        sat_add_u64(max_u64(e.in_flight, e.queue_pressure), sat_mul_u64(e.recent_errors, RECENT_ERROR_LOAD_WEIGHT)),
        if is_open(e, resilience) { OPEN_CIRCUIT_LOAD_PENALTY } else { 0 },
    )
}

/// The load score of a provider.
pub fn load_score(e: &CandidateEntry, resilience: Option<&ResilienceRegistry>) -> (s: u64)
    requires
        registry_ok(resilience),
    ensures
        s == load_score_of(*e, resilience),
{
    let penalty = if is_open_circuit(e, resilience) { OPEN_CIRCUIT_LOAD_PENALTY } else { 0 };
    let base = if e.in_flight >= e.queue_pressure { e.in_flight } else { e.queue_pressure };
    let errors = saturating_mul_u64(e.recent_errors, RECENT_ERROR_LOAD_WEIGHT);
    saturating_add_u64(saturating_add_u64(base, errors), penalty)
}

/// The picks `r[i] == c[p[i]]` of positions `p`.
fn pick_positions(c: &Vec<usize>, sorted: &Vec<Ranked>) -> (r: Vec<usize>)
    requires
        forall|i: int| 0 <= i < sorted@.len() ==> (#[trigger] sorted@[i]).position < c@.len(),
    ensures
        r@.len() == sorted@.len(),
        forall|i: int| 0 <= i < r@.len() ==> r@[i] == c@[(#[trigger] sorted@[i]).position as int],
{
    let n = sorted.len();
    let mut r: Vec<usize> = Vec::new();
    for i in 0..n
        invariant
            n == sorted@.len(),
            forall|i: int| 0 <= i < sorted@.len() ==> (#[trigger] sorted@[i]).position < c@.len(),
            r@.len() == i,
            forall|j: int| 0 <= j < i ==> r@[j] == c@[(#[trigger] sorted@[j]).position as int],
    {
        r.push(c[sorted[i].position]);
    }
    r
}

/// 1 for an open breaker, 0 otherwise.
pub open spec fn open_flag(e: CandidateEntry, resilience: Option<&ResilienceRegistry>) -> u64 {
    if is_open(e, resilience) { 1 } else { 0 }
}

/// Candidate at position `a` of `c` goes before the one at `b` when open breakers
/// go last: by breaker, then priority, then name, then position.
pub open spec fn open_last_before(entries: Seq<CandidateEntry>, resilience: Option<&ResilienceRegistry>, c: Seq<usize>, a: int, b: int) -> bool {
    key_lt(
        open_flag(entries[c[a] as int], resilience),
        entries[c[a] as int].priority as u64,
        entries[c[a] as int].name@,
        a,
        open_flag(entries[c[b] as int], resilience),
        entries[c[b] as int].priority as u64,
        entries[c[b] as int].name@,
        b,
    )
}

/// `p` lists positions of `c` in ascending `before` order.
pub open spec fn open_last_positions(entries: Seq<CandidateEntry>, resilience: Option<&ResilienceRegistry>, c: Seq<usize>, p: Seq<int>) -> bool {
    &&& p.len() == c.len()
    &&& forall|i: int| 0 <= i < p.len() ==> 0 <= #[trigger] p[i] < c.len()
    &&& forall|i: int, j: int| #![trigger p[i], p[j]] 0 <= i < j < p.len() ==> open_last_before(entries, resilience, c, p[i], p[j])
}

/// `r` is `c` with open breakers last, then by priority and name, ties in input order.
pub open spec fn open_last_order(entries: Seq<CandidateEntry>, resilience: Option<&ResilienceRegistry>, c: Seq<usize>, r: Seq<usize>) -> bool {
    exists|p: Seq<int>| #[trigger] open_last_positions(entries, resilience, c, p) && r == p.map_values(|k: int| c[k])
}

/// Moves candidates with an open breaker to the back.
pub fn order_open_circuits_last(entries: &[CandidateEntry], candidates: Vec<usize>, resilience: Option<&ResilienceRegistry>) -> (r: Vec<usize>)
    requires
        registry_ok(resilience),
        valid_candidates(entries@, candidates@),
    ensures
        open_last_order(entries@, resilience, candidates@, r@),
{
    let n = candidates.len();
    let mut items: Vec<Ranked> = Vec::new();
    for k in 0..n
        invariant
            n == candidates@.len(),
            registry_ok(resilience),
            valid_candidates(entries@, candidates@),
            items@.len() == k,
            forall|a: int| 0 <= a < k ==> (#[trigger] items@[a]).position == a && items@[a].primary == open_flag(entries@[candidates@[a] as int], resilience)
                && items@[a].secondary == entries@[candidates@[a] as int].priority as u64 && items@[a].name@ == entries@[candidates@[a] as int].name@,
    {
        let e = &entries[candidates[k]];
        let flag: u64 = if is_open_circuit(e, resilience) { 1 } else { 0 };
        items.push(Ranked { primary: flag, secondary: e.priority as u64, name: e.name.clone(), position: k });
    }
    let ghost unsorted = items@;
    let sorted = sort_ranked(items);
    proof {
        assert forall|a: int| 0 <= a < sorted@.len() implies (#[trigger] sorted@[a]).position < candidates@.len() && unsorted[sorted@[a].position as int] == sorted@[a] by {
            assert(sorted@.contains(sorted@[a]));
            assert(unsorted.contains(sorted@[a]));
        }
    }
    let r = pick_positions(&candidates, &sorted);
    proof {
        let p = sorted@.map_values(|x: Ranked| x.position as int);
        assert forall|i: int, j: int| #![trigger p[i], p[j]] 0 <= i < j < p.len() implies open_last_before(entries@, resilience, candidates@, p[i], p[j]) by {
            assert(rank_lt(sorted@[i], sorted@[j]));
            assert(unsorted[sorted@[i].position as int] == sorted@[i]);
            assert(unsorted[sorted@[j].position as int] == sorted@[j]);
        }
        assert(open_last_positions(entries@, resilience, candidates@, p));
        assert(r@ =~= p.map_values(|k: int| candidates@[k]));
    }
    r
}

/// Last position in `c` of a candidate named `name` (-1 when there is none).
pub open spec fn last_position_of_name(entries: Seq<CandidateEntry>, c: Seq<usize>, name: Seq<char>) -> int
    decreases c.len(),
{
    if c.len() == 0 {
        -1
    } else if entries[c.last() as int].name@ == name {
        c.len() - 1
    } else {
        last_position_of_name(entries, c.drop_last(), name)
    }
}

/// Candidate at position `a` of `c` goes before the one at `b` when ordered by
/// load: by load score, then by the candidate's baseline position (the last
/// position of its name), then name, then position.
pub open spec fn load_before(entries: Seq<CandidateEntry>, resilience: Option<&ResilienceRegistry>, c: Seq<usize>, a: int, b: int) -> bool {
    key_lt(
        load_score_of(entries[c[a] as int], resilience),
        last_position_of_name(entries, c, entries[c[a] as int].name@) as u64,
        entries[c[a] as int].name@,
        a,
        load_score_of(entries[c[b] as int], resilience),
        last_position_of_name(entries, c, entries[c[b] as int].name@) as u64,
        entries[c[b] as int].name@,
        b,
    )
}

pub open spec fn load_positions(entries: Seq<CandidateEntry>, resilience: Option<&ResilienceRegistry>, c: Seq<usize>, p: Seq<int>) -> bool {
    &&& p.len() == c.len()
    &&& forall|i: int| 0 <= i < p.len() ==> 0 <= #[trigger] p[i] < c.len()
    &&& forall|i: int, j: int| #![trigger p[i], p[j]] 0 <= i < j < p.len() ==> load_before(entries, resilience, c, p[i], p[j])
}

/// `r` is `c` ordered by load, then by baseline position.
pub open spec fn load_order(entries: Seq<CandidateEntry>, resilience: Option<&ResilienceRegistry>, c: Seq<usize>, r: Seq<usize>) -> bool {
    exists|p: Seq<int>| #[trigger] load_positions(entries, resilience, c, p) && r == p.map_values(|k: int| c[k])
}

/// Last position in `c` of a candidate named `name`.
fn last_position_with_name(entries: &[CandidateEntry], c: &Vec<usize>, name: &str) -> (r: usize)
    requires
        valid_candidates(entries@, c@),
        has_name(entries@, c@, name@),
    ensures
        r as int == last_position_of_name(entries@, c@, name@),
        r < c@.len(),
{
    let mut i = c.len();
    proof {
        assert(c@.take(i as int) =~= c@);
    }
    while i > 0
        invariant
            i <= c@.len(),
            valid_candidates(entries@, c@),
            last_position_of_name(entries@, c@, name@) == last_position_of_name(entries@, c@.take(i as int), name@),
            has_name(entries@, c@.take(i as int), name@),
        decreases i,
    {
        if str_eq_chars(entries[c[i - 1]].name.as_str(), name) {
            proof {
                assert(c@.take(i as int).last() == c@[i - 1]);
            }
            return i - 1;
        }
        proof {
            assert(c@.take(i as int).drop_last() =~= c@.take(i - 1));
            let w = choose|j: int| 0 <= j < c@.take(i as int).len() && #[trigger] entries@[c@.take(i as int)[j] as int].name@ == name@;
            assert(w != i - 1);
            assert(c@.take(i - 1)[w] == c@.take(i as int)[w]);
        }
        i = i - 1;
    }
    proof {
        let w = choose|j: int| 0 <= j < c@.take(0).len() && #[trigger] entries@[c@.take(0)[j] as int].name@ == name@;
    }
    0
}

/// Orders candidates by load, keeping the baseline order among equal loads.
pub fn order_by_load_then_baseline(entries: &[CandidateEntry], candidates: Vec<usize>, resilience: Option<&ResilienceRegistry>) -> (r: Vec<usize>)
    requires
        registry_ok(resilience),
        valid_candidates(entries@, candidates@),
    ensures
        load_order(entries@, resilience, candidates@, r@),
{
    let n = candidates.len();
    let mut items: Vec<Ranked> = Vec::new();
    for k in 0..n
        invariant
            n == candidates@.len(),
            registry_ok(resilience),
            valid_candidates(entries@, candidates@),
            items@.len() == k,
            forall|a: int| 0 <= a < k ==> (#[trigger] items@[a]).position == a && items@[a].primary == load_score_of(entries@[candidates@[a] as int], resilience)
                && items@[a].secondary == last_position_of_name(entries@, candidates@, entries@[candidates@[a] as int].name@) as u64
                && items@[a].name@ == entries@[candidates@[a] as int].name@,
    {
        let e = &entries[candidates[k]];
        proof {
            assert(entries@[candidates@[k as int] as int].name@ == e.name@);
        }
        let base = last_position_with_name(entries, &candidates, e.name.as_str());
        items.push(Ranked { primary: load_score(e, resilience), secondary: base as u64, name: e.name.clone(), position: k });
    }
    let ghost unsorted = items@;
    let sorted = sort_ranked(items);
    proof {
        assert forall|a: int| 0 <= a < sorted@.len() implies (#[trigger] sorted@[a]).position < candidates@.len() && unsorted[sorted@[a].position as int] == sorted@[a] by {
            assert(sorted@.contains(sorted@[a]));
            assert(unsorted.contains(sorted@[a]));
        }
    }
    let r = pick_positions(&candidates, &sorted);
    proof {
        let p = sorted@.map_values(|x: Ranked| x.position as int);
        assert forall|i: int, j: int| #![trigger p[i], p[j]] 0 <= i < j < p.len() implies load_before(entries@, resilience, candidates@, p[i], p[j]) by {
            assert(rank_lt(sorted@[i], sorted@[j]));
            assert(unsorted[sorted@[i].position as int] == sorted@[i]);
            assert(unsorted[sorted@[j].position as int] == sorted@[j]);
        }
        assert(load_positions(entries@, resilience, candidates@, p));
        assert(r@ =~= p.map_values(|k: int| candidates@[k]));
    }
    r
}

/// Lexicographic order on byte strings (the order of `[u8]`).
pub open spec fn bytes_lt(a: Seq<u8>, b: Seq<u8>) -> bool
    decreases a.len(),
{
    if a.len() == 0 {
        b.len() > 0
    } else if b.len() == 0 {
        false
    } else if a[0] != b[0] {
        a[0] < b[0]
    } else {
        bytes_lt(a.drop_first(), b.drop_first())
    }
}

proof fn lemma_bytes_irreflexive(a: Seq<u8>)
    ensures
        !bytes_lt(a, a),
    decreases a.len(),
{
    if a.len() > 0 {
        lemma_bytes_irreflexive(a.drop_first());
    }
}

proof fn lemma_bytes_transitive(a: Seq<u8>, b: Seq<u8>, c: Seq<u8>)
    requires
        bytes_lt(a, b),
        bytes_lt(b, c),
    ensures
        bytes_lt(a, c),
    decreases a.len(),
{
    if a.len() > 0 && b.len() > 0 && c.len() > 0 && a[0] == b[0] && b[0] == c[0] {
        lemma_bytes_transitive(a.drop_first(), b.drop_first(), c.drop_first());
    }
}

proof fn lemma_bytes_total(a: Seq<u8>, b: Seq<u8>)
    ensures
        a == b || bytes_lt(a, b) || bytes_lt(b, a),
    decreases a.len(),
{
    if a.len() > 0 && b.len() > 0 && a[0] == b[0] {
        lemma_bytes_total(a.drop_first(), b.drop_first());
        if a.drop_first() == b.drop_first() {
            assert(a =~= seq![a[0]] + a.drop_first());
            assert(b =~= seq![b[0]] + b.drop_first());
        }
    } else if a.len() == 0 && b.len() == 0 {
        assert(a =~= b);
    }
}

/// Whether byte string `a` sorts before `b`.
fn bytes_before(a: &[u8], b: &[u8]) -> (r: bool)
    ensures
        r == bytes_lt(a@, b@),
{
    let n = a.len();
    let m = b.len();
    let mut i: usize = 0;
    assert(a@.skip(0) =~= a@);
    assert(b@.skip(0) =~= b@);
    while i < n && i < m
        invariant
            n == a@.len(),
            m == b@.len(),
            i <= n,
            i <= m,
            bytes_lt(a@, b@) == bytes_lt(a@.skip(i as int), b@.skip(i as int)),
        decreases n - i,
    {
        if a[i] != b[i] {
            proof {
                assert(a@.skip(i as int)[0] == a@[i as int]);
                assert(b@.skip(i as int)[0] == b@[i as int]);
            }
            return a[i] < b[i];
        }
        proof {
            assert(a@.skip(i as int).drop_first() =~= a@.skip(i + 1));
            assert(b@.skip(i as int).drop_first() =~= b@.skip(i + 1));
        }
        i = i + 1;
    }
    proof {
        assert(a@.skip(i as int).len() == n - i);
    }
    i == n && i < m
}

/// The bytes hashed for a rendezvous score: fingerprint, a colon, provider name.
pub open spec fn rendezvous_input(fingerprint: Seq<char>, name: Seq<char>) -> Seq<u8> {
    vstd::utf8::encode_utf8(fingerprint) + seq![58u8] + vstd::utf8::encode_utf8(name)
}

/// The rendezvous score of a provider for a fingerprint.
pub open spec fn rendezvous_score_of(fingerprint: Seq<char>, name: Seq<char>) -> Seq<u8> {
    sha256_digest(rendezvous_input(fingerprint, name))
}

/// The SHA-256 digest of `fingerprint:provider_name`.
pub fn rendezvous_score(fingerprint: &str, provider_name: &str) -> (s: Vec<u8>)
    ensures
        s@ == rendezvous_score_of(fingerprint@, provider_name@),
{
    let a = fingerprint.as_bytes();
    let b = provider_name.as_bytes();
    let mut bytes: Vec<u8> = Vec::new();
    for i in 0..a.len()
        invariant
            bytes@ == a@.take(i as int),
    {
        bytes.push(a[i]);
        proof {
            assert(a@.take(i + 1) =~= a@.take(i as int).push(a@[i as int]));
        }
    }
    bytes.push(58u8);
    let ghost head = bytes@;
    for i in 0..b.len()
        invariant
            bytes@ == head + b@.take(i as int),
    {
        bytes.push(b[i]);
        proof {
            assert(b@.take(i + 1) =~= b@.take(i as int).push(b@[i as int]));
        }
    }
    proof {
        assert(a@.take(a@.len() as int) =~= a@);
        assert(b@.take(b@.len() as int) =~= b@);
        assert(bytes@ =~= rendezvous_input(fingerprint@, provider_name@));
    }
    sha256(bytes.as_slice())
}

/// Provider `a` beats provider `b`: a higher score, or an equal score and a smaller name.
pub open spec fn beats(sa: Seq<u8>, na: Seq<char>, sb: Seq<u8>, nb: Seq<char>) -> bool {
    bytes_lt(sb, sa) || (sa == sb && seq_lt(na, nb))
}

proof fn lemma_beats_transitive(sa: Seq<u8>, na: Seq<char>, sb: Seq<u8>, nb: Seq<char>, sc: Seq<u8>, nc: Seq<char>)
    requires
        beats(sa, na, sb, nb),
        beats(sb, nb, sc, nc),
    ensures
        beats(sa, na, sc, nc),
{
    if bytes_lt(sb, sa) && bytes_lt(sc, sb) {
        lemma_bytes_transitive(sc, sb, sa);
    }
    if sa == sb && sb == sc {
        lemma_bytes_irreflexive(sa);
        lemma_lt_transitive(na, nb, nc);
    }
}

proof fn lemma_beats_split(sa: Seq<u8>, na: Seq<char>, sb: Seq<u8>, nb: Seq<char>, sc: Seq<u8>, nc: Seq<char>)
    requires
        beats(sa, na, sc, nc),
    ensures
        beats(sa, na, sb, nb) || beats(sb, nb, sc, nc),
{
    lemma_bytes_total(sa, sb);
    lemma_lt_total(na, nb);
    if beats(sb, nb, sa, na) {
        lemma_beats_transitive(sb, nb, sa, na, sc, nc);
    }
}

/// Provider `a` beats provider `b` for `fingerprint` (entry positions).
pub open spec fn rendezvous_beats(fingerprint: Seq<char>, entries: Seq<CandidateEntry>, a: usize, b: usize) -> bool {
    beats(
        rendezvous_score_of(fingerprint, entries[a as int].name@),
        entries[a as int].name@,
        rendezvous_score_of(fingerprint, entries[b as int].name@),
        entries[b as int].name@,
    )
}

/// Position `k` of `h` holds the rendezvous winner: no earlier candidate beats it,
/// and it beats every later one (the last of the best).
pub open spec fn rendezvous_winner(fingerprint: Seq<char>, entries: Seq<CandidateEntry>, h: Seq<usize>, k: int) -> bool {
    &&& 0 <= k < h.len()
    &&& forall|j: int| 0 <= j < k ==> !rendezvous_beats(fingerprint, entries, #[trigger] h[j], h[k])
    &&& forall|j: int| k < j < h.len() ==> rendezvous_beats(fingerprint, entries, h[k], #[trigger] h[j])
}

/// Rendezvous (highest random weight) choice among `candidates` for `fingerprint`:
/// the position of the winner, none for no candidates.
pub fn rendezvous_provider(fingerprint: &str, entries: &[CandidateEntry], candidates: &Vec<usize>) -> (r: Option<usize>)
    requires
        valid_candidates(entries@, candidates@),
    ensures
        r is None <==> candidates@.len() == 0,
        r matches Some(k) ==> rendezvous_winner(fingerprint@, entries@, candidates@, k as int),
{
    let n = candidates.len();
    if n == 0 {
        return None;
    }
    let mut scores: Vec<Vec<u8>> = Vec::new();
    for i in 0..n
        invariant
            n == candidates@.len(),
            valid_candidates(entries@, candidates@),
            scores@.len() == i,
            forall|j: int| 0 <= j < i ==> (#[trigger] scores@[j])@ == rendezvous_score_of(fingerprint@, entries@[candidates@[j] as int].name@),
    {
        scores.push(rendezvous_score(fingerprint, entries[candidates[i]].name.as_str()));
    }
    let mut best: usize = 0;
    for i in 1..n
        invariant
            n == candidates@.len(),
            n == scores@.len(),
            valid_candidates(entries@, candidates@),
            forall|j: int| 0 <= j < n ==> (#[trigger] scores@[j])@ == rendezvous_score_of(fingerprint@, entries@[candidates@[j] as int].name@),
            best < i,
            forall|j: int| 0 <= j < best ==> !rendezvous_beats(fingerprint@, entries@, #[trigger] candidates@[j], candidates@[best as int]),
            forall|j: int| best < j < i ==> rendezvous_beats(fingerprint@, entries@, candidates@[best as int], #[trigger] candidates@[j]),
    {
        let sb = &scores[best];
        let si = &scores[i];
        let nb = entries[candidates[best]].name.as_str();
        let ni = entries[candidates[i]].name.as_str();
        let best_wins = bytes_before(si.as_slice(), sb.as_slice()) || (!bytes_before(sb.as_slice(), si.as_slice()) && crate::text::str_lt(nb, ni));
        proof {
            if !bytes_lt(si@, sb@) && !bytes_lt(sb@, si@) {
                lemma_bytes_total(sb@, si@);
            }
            if bytes_lt(si@, sb@) {
                lemma_bytes_irreflexive(si@);
                if sb@ == si@ {
                    assert(false);
                }
            }
            assert(best_wins == rendezvous_beats(fingerprint@, entries@, candidates@[best as int], candidates@[i as int]));
        }
        if !best_wins {
            proof {
                let ghost kb = candidates@[best as int];
                let ghost ki = candidates@[i as int];
                let e = entries@;
                let f = fingerprint@;
                assert forall|j: int| 0 <= j < i implies !rendezvous_beats(f, e, #[trigger] candidates@[j], ki) by {
                    let kj = candidates@[j];
                    if j < best {
                        if rendezvous_beats(f, e, kj, ki) {
                            lemma_beats_split(
                                rendezvous_score_of(f, e[kj as int].name@), e[kj as int].name@,
                                rendezvous_score_of(f, e[kb as int].name@), e[kb as int].name@,
                                rendezvous_score_of(f, e[ki as int].name@), e[ki as int].name@,
                            );
                        }
                    } else if j > best {
                        if rendezvous_beats(f, e, kj, ki) {
                            lemma_beats_transitive(
                                rendezvous_score_of(f, e[kb as int].name@), e[kb as int].name@,
                                rendezvous_score_of(f, e[kj as int].name@), e[kj as int].name@,
                                rendezvous_score_of(f, e[ki as int].name@), e[ki as int].name@,
                            );
                        }
                    }
                }
            }
            best = i;
        }
    }
    Some(best)
}

/// The selected candidates, the policy that applied, and why the first was chosen.
#[derive(Debug, Clone)]
pub struct CandidateSelection {
    pub candidates: Vec<usize>,
    pub effective_policy: RoutingPolicy,
    pub reason: &'static str,
}

/// Prefix-affinity routing settings and the request's fingerprint.
pub struct PrefixAffinityRouting<'a> {
    pub config: &'a PrefixAffinityConfig,
    pub fingerprint: &'a PrefixFingerprintResult,
}

/// The first candidate's entry.
pub open spec fn first_entry(entries: Seq<CandidateEntry>, c: Seq<usize>) -> Option<CandidateEntry> {
    if c.len() > 0 {
        Some(entries[c[0] as int])
    } else {
        None
    }
}

/// Prefix affinity applies: the model's pool has several members and the request
/// has a high-confidence fingerprint.
pub open spec fn affinity_applies(pool: Option<ModelPool>, f: PrefixFingerprintResult) -> bool {
    &&& pool matches Some(p) && p.members@.len() > 1
    &&& f.confidence == PrefixFingerprintConfidence::High
    &&& f.fingerprint is Some
}

/// The affinity index is consulted: some baseline candidate has a closed or half-open breaker.
pub open spec fn lookup_reached(entries: Seq<CandidateEntry>, resilience: Option<&ResilienceRegistry>, baseline: Seq<usize>) -> bool {
    baseline.len() > 0 && healthy_of(entries, resilience, baseline).len() > 0
}

/// What a lookup of `fingerprint` may give and leave behind (see `PrefixAffinityIndex::lookup`).
pub open spec fn index_lookup(before: Seq<(Seq<char>, (Seq<char>, u64))>, fingerprint: Seq<char>, prev: Option<Seq<char>>, after: Seq<(Seq<char>, (Seq<char>, u64))>) -> bool {
    match value_of(before, fingerprint) {
        None => prev is None && after == before,
        Some(v) => (prev is None && after == without_key(before, fingerprint)) || (prev == Some(v.0) && after == without_key(before, fingerprint).push((fingerprint, v))),
    }
}

/// The affinity decision once the baseline order is known and the provider last
/// seen with the fingerprint (`prev`) has been looked up.
pub open spec fn affinity_outcome(
    entries: Seq<CandidateEntry>,
    resilience: Option<&ResilienceRegistry>,
    threshold: u64,
    fingerprint: Seq<char>,
    baseline: Seq<usize>,
    prev: Option<Seq<char>>,
    candidates: Seq<usize>,
    reason: Seq<char>,
) -> bool {
    let healthy = healthy_of(entries, resilience, baseline);
    if baseline.len() == 0 {
        candidates == baseline && reason == "no_provider"@
    } else if healthy.len() == 0 {
        open_last_order(entries, resilience, baseline, candidates) && reason == "circuit_open"@
    } else if prev is Some && has_name(entries, baseline, prev.unwrap()) {
        let p = prev.unwrap();
        let current = entries[baseline[first_position_of_name(entries, baseline, p)] as int];
        if !has_name(entries, healthy, p) {
            open_last_order(entries, resilience, baseline, candidates) && reason == "circuit_open"@
        } else if current.recent_errors > 0 {
            candidates == baseline && reason == "fallback"@
        } else if within_threshold(current, entries, healthy, threshold) {
            candidates == moved_to_front(entries, baseline, p) && reason == "prefix_hit"@
        } else {
            load_order(entries, resilience, baseline, candidates) && reason == "load_imbalanced"@
        }
    } else {
        exists|k: int| #[trigger] rendezvous_winner(fingerprint, entries, healthy, k) && candidates == moved_to_front(
            entries,
            baseline,
            entries[healthy[k] as int].name@,
        ) && reason == "prefix_miss"@
    }
}

proof fn lemma_policy_order_valid(entries: Seq<CandidateEntry>, pool: Option<ModelPool>, policy: RoutingPolicy, r: Seq<usize>)
    requires
        policy_order(entries, pool, policy, r),
    ensures
        valid_candidates(entries, r),
{
    assert forall|i: int| 0 <= i < r.len() implies (#[trigger] r[i] as int) < entries.len() by {
        assert(r.contains(r[i]));
    }
}

/// The affinity decision after the baseline order is known.
fn route_by_affinity(
    providers: &[CandidateEntry],
    resilience: Option<&ResilienceRegistry>,
    config: &PrefixAffinityConfig,
    fingerprint: &str,
    baseline: Vec<usize>,
    affinity_index: &mut PrefixAffinityIndex,
) -> (r: (Vec<usize>, &'static str))
    requires
        registry_ok(resilience),
        valid_candidates(providers@, baseline@),
    ensures
        final(affinity_index).capacity() == old(affinity_index).capacity(),
        final(affinity_index).ttl_ms() == old(affinity_index).ttl_ms(),
        lookup_reached(providers@, resilience, baseline@) ==> exists|prev: Option<Seq<char>>| index_lookup(
            old(affinity_index).entries(),
            fingerprint@,
            prev,
            final(affinity_index).entries(),
        ) && #[trigger] affinity_outcome(providers@, resilience, config.load_imbalance_threshold, fingerprint@, baseline@, prev, r.0@, r.1@),
        !lookup_reached(providers@, resilience, baseline@) ==> final(affinity_index).entries() == old(affinity_index).entries()
            && affinity_outcome(providers@, resilience, config.load_imbalance_threshold, fingerprint@, baseline@, None, r.0@, r.1@),
{
    let ghost entries = providers@;
    if baseline.len() == 0 {
        return (baseline, "no_provider");
    }
    let healthy = healthy_candidates(providers, &baseline, resilience);
    proof {
        lemma_healthy_valid(entries, resilience, baseline@);
    }
    if healthy.len() == 0 {
        return (order_open_circuits_last(providers, baseline, resilience), "circuit_open");
    }
    let previous = affinity_index.lookup(fingerprint);
    let ghost prev = match &previous {
        Some(p) => Some(p@),
        None => None::<Seq<char>>,
    };
    proof {
        assert(index_lookup(old(affinity_index).entries(), fingerprint@, prev, affinity_index.entries()));
    }
    if let Some(previous_provider) = &previous {
        if let Some(pos) = first_with_name(providers, &baseline, previous_provider.as_str()) {
            let current = &providers[baseline[pos]];
            if first_with_name(providers, &healthy, previous_provider.as_str()).is_none() {
                let r = (order_open_circuits_last(providers, baseline, resilience), "circuit_open");
                assert(affinity_outcome(entries, resilience, config.load_imbalance_threshold, fingerprint@, baseline@, prev, r.0@, r.1@));
                return r;
            }
            if provider_has_recent_errors(current) {
                let r = (baseline, "fallback");
                assert(affinity_outcome(entries, resilience, config.load_imbalance_threshold, fingerprint@, baseline@, prev, r.0@, r.1@));
                return r;
            }
            if load_within_threshold(providers, current, &healthy, config.load_imbalance_threshold) {
                let r = (move_provider_to_front(providers, baseline, previous_provider.as_str()), "prefix_hit");
                assert(affinity_outcome(entries, resilience, config.load_imbalance_threshold, fingerprint@, baseline@, prev, r.0@, r.1@));
                return r;
            }
            let r = (order_by_load_then_baseline(providers, baseline, resilience), "load_imbalanced");
            assert(affinity_outcome(entries, resilience, config.load_imbalance_threshold, fingerprint@, baseline@, prev, r.0@, r.1@));
            return r;
        }
    }
    match rendezvous_provider(fingerprint, providers, &healthy) {
        Some(k) => {
            let name = providers[healthy[k]].name.as_str();
            let r = (move_provider_to_front(providers, baseline, name), "prefix_miss");
            assert(rendezvous_winner(fingerprint@, entries, healthy@, k as int));
            assert(affinity_outcome(entries, resilience, config.load_imbalance_threshold, fingerprint@, baseline@, prev, r.0@, r.1@));
            r
        },
        None => (baseline, "fallback"),
    }
}

/// Candidates for a request, with prefix affinity when the effective policy asks
/// for it. Affinity applies to a pool of several members and a request with a
/// high-confidence fingerprint; otherwise the baseline policy orders the
/// candidates. The affinity index is read, and its entry refreshed or expired,
/// only when some candidate's breaker is not open.
pub fn candidate_providers_with_affinity(
    providers: &[CandidateEntry],
    requested_model: Option<&str>,
    routing_policy: RoutingPolicy,
    model_pools: &ModelPoolIndex,
    resilience: Option<&ResilienceRegistry>,
    prefix_affinity: Option<PrefixAffinityRouting>,
    affinity_index: &mut PrefixAffinityIndex,
) -> (sel: CandidateSelection)
    requires
        model_pools.wf(),
        registry_ok(resilience),
    ensures
        final(affinity_index).capacity() == old(affinity_index).capacity(),
        final(affinity_index).ttl_ms() == old(affinity_index).ttl_ms(),
        requested_model is None ==> sel.candidates@.len() == 0 && sel.effective_policy == routing_policy && sel.reason@ == "no_provider"@
            && final(affinity_index).entries() == old(affinity_index).entries(),
        requested_model is Some ==> sel.effective_policy == effective_policy(
            requested_pool(*model_pools, opt_view(requested_model)),
            routing_policy,
        ),
        requested_model is Some && sel.effective_policy != RoutingPolicy::PrefixAffinity ==> policy_order(
            providers@,
            requested_pool(*model_pools, opt_view(requested_model)),
            sel.effective_policy,
            sel.candidates@,
        ) && sel.reason@ == decision_reason(sel.effective_policy, first_entry(providers@, sel.candidates@))
            && final(affinity_index).entries() == old(affinity_index).entries(),
        requested_model is Some && sel.effective_policy == RoutingPolicy::PrefixAffinity && prefix_affinity is None ==> policy_order(
            providers@,
            requested_pool(*model_pools, opt_view(requested_model)),
            RoutingPolicy::Priority,
            sel.candidates@,
        ) && sel.reason@ == "fallback"@ && final(affinity_index).entries() == old(affinity_index).entries(),
        requested_model is Some && sel.effective_policy == RoutingPolicy::PrefixAffinity ==> (prefix_affinity matches Some(a) ==> (
        !affinity_applies(requested_pool(*model_pools, opt_view(requested_model)), *a.fingerprint) ==> policy_order(
            providers@,
            requested_pool(*model_pools, opt_view(requested_model)),
            a.config.fallback_policy,
            sel.candidates@,
        ) && sel.reason@ == "fallback"@ && final(affinity_index).entries() == old(affinity_index).entries())),
        requested_model is Some && sel.effective_policy == RoutingPolicy::PrefixAffinity ==> (prefix_affinity matches Some(a) ==> (
        affinity_applies(requested_pool(*model_pools, opt_view(requested_model)), *a.fingerprint) ==> exists|baseline: Seq<usize>|
            #[trigger] policy_order(
            providers@,
            requested_pool(*model_pools, opt_view(requested_model)),
            a.config.fallback_policy,
            baseline,
        ) && (lookup_reached(providers@, resilience, baseline) ==> exists|prev: Option<Seq<char>>| index_lookup(
            old(affinity_index).entries(),
            a.fingerprint.fingerprint.unwrap()@,
            prev,
            final(affinity_index).entries(),
        ) && #[trigger] affinity_outcome(
            providers@,
            resilience,
            a.config.load_imbalance_threshold,
            a.fingerprint.fingerprint.unwrap()@,
            baseline,
            prev,
            sel.candidates@,
            sel.reason@,
        )) && (!lookup_reached(providers@, resilience, baseline) ==> final(affinity_index).entries() == old(affinity_index).entries()
            && affinity_outcome(
            providers@,
            resilience,
            a.config.load_imbalance_threshold,
            a.fingerprint.fingerprint.unwrap()@,
            baseline,
            None,
            sel.candidates@,
            sel.reason@,
        )))),
{
    let ghost pa = prefix_affinity;
    let model = match requested_model {
        Some(m) => m,
        None => {
            return CandidateSelection { candidates: Vec::new(), effective_policy: routing_policy, reason: "no_provider" };
        },
    };
    let pool = model_pools.pool_for_public_model(model);
    let effective = effective_routing_policy(requested_model, routing_policy, model_pools);
    if effective != RoutingPolicy::PrefixAffinity {
        let candidates = candidate_providers_for_policy(providers, requested_model, effective, model_pools);
        proof {
            lemma_policy_order_valid(providers@, requested_pool(*model_pools, opt_view(requested_model)), effective, candidates@);
        }
        let first = if candidates.len() > 0 { Some(&providers[candidates[0]]) } else { None };
        let reason = routing_decision_reason(effective, first);
        return CandidateSelection { candidates, effective_policy: effective, reason };
    }
    let affinity = match prefix_affinity {
        Some(a) => a,
        None => {
            let candidates = candidate_providers_for_policy(providers, requested_model, RoutingPolicy::Priority, model_pools);
            return CandidateSelection { candidates, effective_policy: effective, reason: "fallback" };
        },
    };
    let baseline_policy = affinity.config.fallback_policy;
    let pool_is_shared = match pool {
        Some(p) => p.members.len() > 1,
        None => false,
    };
    if !pool_is_shared || !affinity.fingerprint.is_high_confidence() {
        let candidates = candidate_providers_for_policy(providers, requested_model, baseline_policy, model_pools);
        return CandidateSelection { candidates, effective_policy: effective, reason: "fallback" };
    }
    let fingerprint = match &affinity.fingerprint.fingerprint {
        Some(f) => f.as_str(),
        None => {
            let candidates = candidate_providers_for_policy(providers, requested_model, baseline_policy, model_pools);
            return CandidateSelection { candidates, effective_policy: effective, reason: "fallback" };
        },
    };
    let baseline = candidate_providers_for_policy(providers, requested_model, baseline_policy, model_pools);
    let ghost base = baseline@;
    proof {
        lemma_policy_order_valid(providers@, requested_pool(*model_pools, opt_view(requested_model)), baseline_policy, baseline@);
    }
    let ghost fp = fingerprint@;
    let (candidates, reason) = route_by_affinity(providers, resilience, affinity.config, fingerprint, baseline, affinity_index);
    let sel = CandidateSelection { candidates, effective_policy: effective, reason };
    proof {
        let threshold = affinity.config.load_imbalance_threshold;
        assert(fp == affinity.fingerprint.fingerprint.unwrap()@);
        assert(policy_order(providers@, requested_pool(*model_pools, opt_view(requested_model)), baseline_policy, base));
        if lookup_reached(providers@, resilience, base) {
            let prev = choose|prev: Option<Seq<char>>| index_lookup(old(affinity_index).entries(), fp, prev, affinity_index.entries())
                && #[trigger] affinity_outcome(providers@, resilience, threshold, fp, base, prev, sel.candidates@, sel.reason@);
            assert(affinity_outcome(providers@, resilience, threshold, fp, base, prev, sel.candidates@, sel.reason@));
        }
    }
    sel
}

} // verus!
