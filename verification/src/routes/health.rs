//! Liveness and readiness answers.
use vstd::prelude::*;

use crate::routing::health::{describes, spec_ready, ProviderHealthRegistry, ProviderHealthResponse, ProviderHealthSnapshot};

verus! {

/// The liveness answer.
#[derive(Debug, Clone, Copy)]
pub struct HealthResponse {
    pub status: &'static str,
    pub service: &'static str,
}

/// The gateway is alive.
pub fn health_response() -> (r: HealthResponse)
    ensures
        r.status@ == "ok"@,
        r.service@ == "rustygate"@,
{
    HealthResponse { status: "ok", service: "rustygate" }
}

/// Readiness query: `detail` asks for the per-provider records.
#[derive(Debug, Clone, Copy, Default)]
pub struct ReadyQuery {
    pub detail: bool,
}

/// The readiness answer, with per-provider records when asked for.
#[derive(Debug, Clone)]
pub struct ReadyResponse {
    pub status: &'static str,
    pub service: &'static str,
    pub providers: Option<Vec<(String, ProviderHealthResponse)>>,
}

/// The per-provider detail names each known provider once, with the
/// caller-facing form of its record.
pub open spec fn detail_list(p: Seq<(String, ProviderHealthResponse)>, records: Map<Seq<char>, ProviderHealthSnapshot>) -> bool {
    &&& p.len() == records.len()
    &&& forall|i: int|
        0 <= i < p.len() ==> #[trigger] records.contains_key(p[i].0@) && describes(p[i].1, records[p[i].0@])
    &&& forall|i: int, j: int| 0 <= i < j < p.len() ==> (#[trigger] p[i]).0@ != (#[trigger] p[j]).0@
    &&& forall|k: Seq<char>| #[trigger] records.contains_key(k) ==> exists|i: int| 0 <= i < p.len() && p[i].0@ == k
}

/// HTTP status and body of a readiness check: 200 and `ready` when some provider
/// is ready, otherwise 503 and `not_ready`.
pub fn ready_response(registry: &ProviderHealthRegistry, query: ReadyQuery) -> (r: (u16, ReadyResponse))
    requires
        registry.wf(),
    ensures
        r.0 == if spec_ready(registry.records()) { 200u16 } else { 503u16 },
        r.1.status@ == if spec_ready(registry.records()) { "ready"@ } else { "not_ready"@ },
        r.1.service@ == "rustygate"@,
        r.1.providers is Some <==> query.detail,
        r.1.providers matches Some(p) ==> detail_list(p@, registry.records()),
{
    let ready = registry.any_provider_ready();
    let providers = if query.detail {
        let snapshot = registry.snapshot();
        let n = snapshot.len();
        let mut out: Vec<(String, ProviderHealthResponse)> = Vec::new();
        for i in 0..n
            invariant
                n == snapshot@.len(),
                out@.len() == i,
                forall|j: int| 0 <= j < i ==> (#[trigger] out@[j]).0@ == snapshot@[j].0@ && describes(out@[j].1, snapshot@[j].1),
        {
            let (name, record) = (snapshot[i].0.clone(), snapshot[i].1);
            out.push((name, ProviderHealthResponse::from_snapshot(record)));
        }
        proof {
            assert forall|i: int| 0 <= i < out@.len() implies #[trigger] registry.records().contains_key(out@[i].0@) && describes(
                out@[i].1,
                registry.records()[out@[i].0@],
            ) by {
                assert(out@[i].0@ == snapshot@[i].0@);
                assert(registry.records().contains_key(snapshot@[i].0@));
                assert(registry.records()[snapshot@[i].0@] == snapshot@[i].1);
            }
            assert forall|i: int, j: int| 0 <= i < j < out@.len() implies (#[trigger] out@[i]).0@ != (#[trigger] out@[j]).0@ by {
                assert(out@[i].0@ == snapshot@[i].0@);
                assert(out@[j].0@ == snapshot@[j].0@);
            }
            assert forall|k: Seq<char>| #[trigger] registry.records().contains_key(k) implies exists|i: int| 0 <= i < out@.len() && out@[i].0@ == k by {
                let i = choose|i: int| 0 <= i < snapshot@.len() && snapshot@[i].0@ == k;
                assert(out@[i].0@ == snapshot@[i].0@);
            }
        }
        assert(detail_list(out@, registry.records()));
        Some(out)
    } else {
        None
    };
    let code: u16 = if ready { 200 } else { 503 };
    (code, ReadyResponse { status: if ready { "ready" } else { "not_ready" }, service: "rustygate", providers })
}

} // verus!
