//! Totals recomputed from the stored request log: request counts and token
//! sums over the stored requests, and per-provider tables over the stored
//! provider attempts. Costs, averages and percentiles are floating point and
//! derived from these by the caller.
use vstd::prelude::*;

use crate::strmap::{str_eq, StrMap};
use crate::telemetry::metrics::{count_in, counted, sample_table, samples_of, total_in, totalled};

verus! {

/// One stored request, with its columns as the log keeps them.
pub struct StoredRequestRow {
    pub status: String,
    pub latency_ms: i64,
    pub prompt_tokens: i64,
    pub completion_tokens: i64,
    pub total_tokens: i64,
}

/// One stored provider attempt, with its columns as the log keeps them
/// (`success` and `is_fallback` are stored as integers, 1 meaning yes).
pub struct StoredAttemptRow {
    pub provider_name: String,
    pub success: i64,
    pub is_fallback: i64,
    pub latency_ms: i64,
}

/// A stored status counts as a success exactly when it reads `success`.
pub open spec fn stored_success(r: StoredRequestRow) -> bool {
    r.status@ == "success"@
}

/// How many of the stored requests succeeded.
pub open spec fn stored_successes(rows: Seq<StoredRequestRow>) -> nat
    decreases rows.len(),
{
    if rows.len() == 0 {
        0
    } else {
        stored_successes(rows.drop_last()) + if stored_success(rows.last()) { 1nat } else { 0nat }
    }
}

/// The sum of the stored prompt token counts, each read as `u64`.
pub open spec fn stored_prompt_sum(rows: Seq<StoredRequestRow>) -> nat
    decreases rows.len(),
{
    if rows.len() == 0 {
        0
    } else {
        stored_prompt_sum(rows.drop_last()) + (rows.last().prompt_tokens as u64) as nat
    }
}

/// The sum of the stored completion token counts, each read as `u64`.
pub open spec fn stored_completion_sum(rows: Seq<StoredRequestRow>) -> nat
    decreases rows.len(),
{
    if rows.len() == 0 {
        0
    } else {
        stored_completion_sum(rows.drop_last()) + (rows.last().completion_tokens as u64) as nat
    }
}

/// The sum of the stored total token counts, each read as `u64`.
pub open spec fn stored_total_sum(rows: Seq<StoredRequestRow>) -> nat
    decreases rows.len(),
{
    if rows.len() == 0 {
        0
    } else {
        stored_total_sum(rows.drop_last()) + (rows.last().total_tokens as u64) as nat
    }
}

/// The stored request latencies, each read as `u64`, in order.
pub open spec fn stored_latencies(rows: Seq<StoredRequestRow>) -> Seq<u64>
    decreases rows.len(),
{
    if rows.len() == 0 {
        Seq::empty()
    } else {
        stored_latencies(rows.drop_last()).push(rows.last().latency_ms as u64)
    }
}

/// Request counts, token sums and latencies over the stored requests.
pub struct StoredRequestTotals {
    pub total_requests: u64,
    pub successful_requests: u64,
    pub failed_requests: u64,
    pub estimated_prompt_tokens: u64,
    pub estimated_completion_tokens: u64,
    pub estimated_total_tokens: u64,
    pub latencies_ms: Vec<u64>,
}

proof fn lemma_sums_of_prefix(rows: Seq<StoredRequestRow>, j: int)
    requires
        0 <= j <= rows.len(),
    ensures
        stored_prompt_sum(rows.take(j)) <= stored_prompt_sum(rows),
        stored_completion_sum(rows.take(j)) <= stored_completion_sum(rows),
        stored_total_sum(rows.take(j)) <= stored_total_sum(rows),
    decreases rows.len(),
{
    if j == rows.len() {
        assert(rows.take(j) =~= rows);
    } else {
        assert(rows.drop_last().take(j) =~= rows.take(j));
        lemma_sums_of_prefix(rows.drop_last(), j);
    }
}

/// Counts the stored requests by outcome and sums their token counts. The
/// sums must fit in `u64`.
pub fn aggregate_stored_requests(rows: &[StoredRequestRow]) -> (t: StoredRequestTotals)
    requires
        stored_prompt_sum(rows@) <= u64::MAX,
        stored_completion_sum(rows@) <= u64::MAX,
        stored_total_sum(rows@) <= u64::MAX,
    ensures
        t.total_requests == rows@.len(),
        t.successful_requests == stored_successes(rows@),
        t.failed_requests == rows@.len() - stored_successes(rows@),
        t.estimated_prompt_tokens == stored_prompt_sum(rows@),
        t.estimated_completion_tokens == stored_completion_sum(rows@),
        t.estimated_total_tokens == stored_total_sum(rows@),
        t.latencies_ms@ == stored_latencies(rows@),
{
    let n = rows.len();
    let mut successes: u64 = 0;
    let mut failures: u64 = 0;
    let mut prompt: u64 = 0;
    let mut completion: u64 = 0;
    let mut total: u64 = 0;
    let mut latencies: Vec<u64> = Vec::new();
    let mut i: usize = 0;
    assert(rows@.take(0) =~= Seq::<StoredRequestRow>::empty());
    while i < n
        invariant
            n == rows@.len(),
            i <= n,
            successes == stored_successes(rows@.take(i as int)),
            successes + failures == i,
            prompt == stored_prompt_sum(rows@.take(i as int)),
            completion == stored_completion_sum(rows@.take(i as int)),
            total == stored_total_sum(rows@.take(i as int)),
            latencies@ == stored_latencies(rows@.take(i as int)),
            stored_prompt_sum(rows@) <= u64::MAX,
            stored_completion_sum(rows@) <= u64::MAX,
            stored_total_sum(rows@) <= u64::MAX,
        decreases n - i,
    {
        let row = &rows[i];
        proof {
            assert(rows@.take(i as int + 1).drop_last() =~= rows@.take(i as int));
            assert(rows@.take(i as int + 1).last() == rows@[i as int]);
            lemma_sums_of_prefix(rows@, i as int + 1);
        }
        if str_eq(row.status.as_str(), "success") {
            successes = successes + 1;
        } else {
            failures = failures + 1;
        }
        prompt = prompt + row.prompt_tokens as u64;
        completion = completion + row.completion_tokens as u64;
        total = total + row.total_tokens as u64;
        latencies.push(row.latency_ms as u64);
        i = i + 1;
    }
    assert(rows@.take(n as int) =~= rows@);
    StoredRequestTotals {
        total_requests: n as u64,
        successful_requests: successes,
        failed_requests: failures,
        estimated_prompt_tokens: prompt,
        estimated_completion_tokens: completion,
        estimated_total_tokens: total,
        latencies_ms: latencies,
    }
}

/// The per-provider tables over the stored provider attempts.
pub struct StoredAttemptModel {
    pub total_provider_attempts: nat,
    pub fallback_attempts: nat,
    pub requests_by_provider: Map<Seq<char>, u64>,
    pub successes_by_provider: Map<Seq<char>, u64>,
    pub errors_by_provider: Map<Seq<char>, u64>,
    pub fallback_attempts_by_provider: Map<Seq<char>, u64>,
    pub latencies_by_provider: Map<Seq<char>, Seq<u64>>,
    pub total_latency_by_provider: Map<Seq<char>, u128>,
}

/// The tables after one more stored attempt: counted against its provider,
/// its latency kept, and its success or error and fallback counted.
pub open spec fn stored_attempt_step(m: StoredAttemptModel, a: StoredAttemptRow) -> StoredAttemptModel {
    let p = a.provider_name@;
    let latency = a.latency_ms as u64;
    let base = StoredAttemptModel {
        total_provider_attempts: m.total_provider_attempts + 1,
        requests_by_provider: counted(m.requests_by_provider, p, 1),
        latencies_by_provider: m.latencies_by_provider.insert(p, samples_of(m.latencies_by_provider, p).push(latency)),
        total_latency_by_provider: totalled(m.total_latency_by_provider, p, latency),
        ..m
    };
    let outcome = if a.success == 1 {
        StoredAttemptModel { successes_by_provider: counted(base.successes_by_provider, p, 1), ..base }
    } else {
        StoredAttemptModel { errors_by_provider: counted(base.errors_by_provider, p, 1), ..base }
    };
    if a.is_fallback == 1 {
        StoredAttemptModel {
            fallback_attempts: outcome.fallback_attempts + 1,
            fallback_attempts_by_provider: counted(outcome.fallback_attempts_by_provider, p, 1),
            ..outcome
        }
    } else {
        outcome
    }
}

/// The tables over a sequence of stored attempts, in order.
pub open spec fn stored_attempts(rows: Seq<StoredAttemptRow>) -> StoredAttemptModel
    decreases rows.len(),
{
    if rows.len() == 0 {
        StoredAttemptModel {
            total_provider_attempts: 0,
            fallback_attempts: 0,
            requests_by_provider: Map::empty(),
            successes_by_provider: Map::empty(),
            errors_by_provider: Map::empty(),
            fallback_attempts_by_provider: Map::empty(),
            latencies_by_provider: Map::empty(),
            total_latency_by_provider: Map::empty(),
        }
    } else {
        stored_attempt_step(stored_attempts(rows.drop_last()), rows.last())
    }
}

/// The per-provider tables over the stored provider attempts.
pub struct StoredAttemptTotals {
    pub total_provider_attempts: u64,
    pub fallback_attempts: u64,
    pub requests_by_provider: StrMap<u64>,
    pub successes_by_provider: StrMap<u64>,
    pub errors_by_provider: StrMap<u64>,
    pub fallback_attempts_by_provider: StrMap<u64>,
    pub latencies_by_provider: StrMap<Vec<u64>>,
    pub total_latency_by_provider: StrMap<u128>,
}

impl StoredAttemptTotals {
    /// Every table is well formed.
    pub open spec fn wf(&self) -> bool {
        &&& self.requests_by_provider.wf()
        &&& self.successes_by_provider.wf()
        &&& self.errors_by_provider.wf()
        &&& self.fallback_attempts_by_provider.wf()
        &&& self.latencies_by_provider.wf()
        &&& self.total_latency_by_provider.wf()
    }

    /// What the tables hold.
    pub open spec fn model(&self) -> StoredAttemptModel {
        StoredAttemptModel {
            total_provider_attempts: self.total_provider_attempts as nat,
            fallback_attempts: self.fallback_attempts as nat,
            requests_by_provider: self.requests_by_provider@,
            successes_by_provider: self.successes_by_provider@,
            errors_by_provider: self.errors_by_provider@,
            fallback_attempts_by_provider: self.fallback_attempts_by_provider@,
            latencies_by_provider: sample_table(self.latencies_by_provider),
            total_latency_by_provider: self.total_latency_by_provider@,
        }
    }
}

/// Appends `x` to the list under `key`.
fn append_in(m: &mut StrMap<Vec<u64>>, key: &str, x: u64)
    requires
        old(m).wf(),
    ensures
        final(m).wf(),
        sample_table(*final(m)) == sample_table(*old(m)).insert(key@, samples_of(sample_table(*old(m)), key@).push(x)),
{
    let mut list = match m.remove(key) {
        Some(l) => l,
        None => Vec::new(),
    };
    assert(list@ == samples_of(sample_table(*old(m)), key@));
    list.push(x);
    m.insert(key.to_string(), list);
    assert(sample_table(*m) =~= sample_table(*old(m)).insert(key@, samples_of(sample_table(*old(m)), key@).push(x)));
}

/// Builds the per-provider tables over the stored provider attempts.
pub fn aggregate_stored_attempts(rows: &[StoredAttemptRow]) -> (t: StoredAttemptTotals)
    ensures
        t.wf(),
        t.model() == stored_attempts(rows@),
{
    let n = rows.len();
    let mut t = StoredAttemptTotals {
        total_provider_attempts: 0,
        fallback_attempts: 0,
        requests_by_provider: StrMap::new(),
        successes_by_provider: StrMap::new(),
        errors_by_provider: StrMap::new(),
        fallback_attempts_by_provider: StrMap::new(),
        latencies_by_provider: StrMap::new(),
        total_latency_by_provider: StrMap::new(),
    };
    let mut i: usize = 0;
    assert(rows@.take(0) =~= Seq::<StoredAttemptRow>::empty());
    assert(sample_table(t.latencies_by_provider) =~= Map::empty());
    while i < n
        invariant
            n == rows@.len(),
            i <= n,
            t.wf(),
            t.model() == stored_attempts(rows@.take(i as int)),
            t.total_provider_attempts == i,
            t.fallback_attempts <= i,
        decreases n - i,
    {
        let row = &rows[i];
        proof {
            assert(rows@.take(i as int + 1).drop_last() =~= rows@.take(i as int));
            assert(rows@.take(i as int + 1).last() == rows@[i as int]);
        }
        let name = row.provider_name.as_str();
        let latency = row.latency_ms as u64;
        t.total_provider_attempts = t.total_provider_attempts + 1;
        count_in(&mut t.requests_by_provider, name, 1);
        total_in(&mut t.total_latency_by_provider, name, latency);
        append_in(&mut t.latencies_by_provider, name, latency);
        if row.success == 1 {
            count_in(&mut t.successes_by_provider, name, 1);
        } else {
            count_in(&mut t.errors_by_provider, name, 1);
        }
        if row.is_fallback == 1 {
            t.fallback_attempts = t.fallback_attempts + 1;
            count_in(&mut t.fallback_attempts_by_provider, name, 1);
        }
        i = i + 1;
    }
    assert(rows@.take(n as int) =~= rows@);
    t
}

} // verus!
