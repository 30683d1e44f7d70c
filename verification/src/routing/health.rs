//! Provider health as seen by the background probes, and readiness.
use vstd::prelude::*;

use crate::clock::unix_seconds;
use crate::providers::provider::ProviderError;
use crate::routing::fallback::{provider_error_category, spec_error_category, ProviderErrorCategory};
use crate::strmap::StrMap;

verus! {

/// Result of the last health probe of a provider.
#[derive(Debug, Clone, Copy, PartialEq, Eq, Structural)]
pub enum ProviderHealthStatus {
    Unknown,
    Healthy,
    Unhealthy,
}

/// Health record of one provider.
#[derive(Debug, Clone, Copy, PartialEq, Eq, Structural)]
pub struct ProviderHealthSnapshot {
    pub status: ProviderHealthStatus,
    pub checked_at_unix_seconds: Option<u64>,
    pub error_category: Option<ProviderErrorCategory>,
}

pub open spec fn unknown_health() -> ProviderHealthSnapshot {
    ProviderHealthSnapshot { status: ProviderHealthStatus::Unknown, checked_at_unix_seconds: None, error_category: None }
}

impl Default for ProviderHealthSnapshot {
    fn default() -> (s: Self)
        ensures
            s == unknown_health(),
    {
        ProviderHealthSnapshot { status: ProviderHealthStatus::Unknown, checked_at_unix_seconds: None, error_category: None }
    }
}

/// A successful probe at `now`.
pub open spec fn healthy_at(now: u64) -> ProviderHealthSnapshot {
    ProviderHealthSnapshot { status: ProviderHealthStatus::Healthy, checked_at_unix_seconds: Some(now), error_category: None }
}

/// A probe failed with `error` at `now`.
pub open spec fn unhealthy_at(now: u64, error: ProviderError) -> ProviderHealthSnapshot {
    ProviderHealthSnapshot {
        status: ProviderHealthStatus::Unhealthy,
        checked_at_unix_seconds: Some(now),
        error_category: Some(spec_error_category(error)),
    }
}

/// Health records by provider name.
pub struct ProviderHealthRegistry {
    providers: StrMap<ProviderHealthSnapshot>,
}

/// Ready: some provider is known and not every known provider is unhealthy.
pub open spec fn spec_ready(m: Map<Seq<char>, ProviderHealthSnapshot>) -> bool {
    exists|k: Seq<char>| #[trigger] m.contains_key(k) && m[k].status != ProviderHealthStatus::Unhealthy
}

impl ProviderHealthRegistry {
    pub closed spec fn wf(&self) -> bool {
        self.providers.wf()
    }

    /// Health records by provider name.
    pub closed spec fn records(&self) -> Map<Seq<char>, ProviderHealthSnapshot> {
        self.providers@
    }

    /// A registry where every listed provider's health is unknown.
    pub fn new(provider_names: &[String]) -> (r: Self)
        ensures
            r.wf(),
            forall|k: Seq<char>| #[trigger] r.records().contains_key(k) <==> exists|i: int|
                0 <= i < provider_names@.len() && provider_names@[i]@ == k,
            forall|k: Seq<char>| #[trigger] r.records().contains_key(k) ==> r.records()[k] == unknown_health(),
    {
        let mut providers: StrMap<ProviderHealthSnapshot> = StrMap::new();
        let n = provider_names.len();
        for i in 0..n
            invariant
                n == provider_names@.len(),
                providers.wf(),
                forall|k: Seq<char>| #[trigger] providers@.contains_key(k) <==> exists|j: int|
                    0 <= j < i && provider_names@[j]@ == k,
                forall|k: Seq<char>| #[trigger] providers@.contains_key(k) ==> providers@[k] == unknown_health(),
        {
            providers.insert(provider_names[i].clone(), ProviderHealthSnapshot::default());
            proof {
                assert forall|k: Seq<char>| #[trigger] providers@.contains_key(k) <==> exists|j: int|
                    0 <= j < i + 1 && provider_names@[j]@ == k by {
                    if k == provider_names@[i as int]@ {
                        assert(0 <= i < i + 1 && provider_names@[i as int]@ == k);
                    }
                }
            }
        }
        ProviderHealthRegistry { providers }
    }

    /// Records a successful probe of `provider` at `now_unix_seconds`.
    pub fn record_success_at(&mut self, provider: &str, now_unix_seconds: u64)
        requires
            old(self).wf(),
        ensures
            final(self).wf(),
            final(self).records() == old(self).records().insert(
                provider@,
                ProviderHealthSnapshot {
                    status: ProviderHealthStatus::Healthy,
                    checked_at_unix_seconds: Some(now_unix_seconds),
                    error_category: None,
                },
            ),
    {
        self.record(provider, ProviderHealthStatus::Healthy, None, now_unix_seconds);
    }

    /// Records a successful probe of `provider` now.
    pub fn record_success(&mut self, provider: &str)
        requires
            old(self).wf(),
        ensures
            final(self).wf(),
            exists|now: u64| final(self).records() == old(self).records().insert(provider@, #[trigger] healthy_at(now)),
    {
        let now = unix_seconds();
        self.record_success_at(provider, now);
        assert(healthy_at(now) == ProviderHealthSnapshot { status: ProviderHealthStatus::Healthy, checked_at_unix_seconds: Some(now), error_category: None });
    }

    /// Records a failed probe of `provider` at `now_unix_seconds`.
    pub fn record_failure_at(&mut self, provider: &str, error: &ProviderError, now_unix_seconds: u64)
        requires
            old(self).wf(),
        ensures
            final(self).wf(),
            final(self).records() == old(self).records().insert(
                provider@,
                ProviderHealthSnapshot {
                    status: ProviderHealthStatus::Unhealthy,
                    checked_at_unix_seconds: Some(now_unix_seconds),
                    error_category: Some(spec_error_category(*error)),
                },
            ),
    {
        self.record(provider, ProviderHealthStatus::Unhealthy, Some(provider_error_category(error)), now_unix_seconds);
    }

    /// Records a failed probe of `provider` now.
    pub fn record_failure(&mut self, provider: &str, error: &ProviderError)
        requires
            old(self).wf(),
        ensures
            final(self).wf(),
            exists|now: u64| final(self).records() == old(self).records().insert(provider@, #[trigger] unhealthy_at(now, *error)),
    {
        let now = unix_seconds();
        self.record_failure_at(provider, error, now);
        assert(unhealthy_at(now, *error) == ProviderHealthSnapshot {
            status: ProviderHealthStatus::Unhealthy,
            checked_at_unix_seconds: Some(now),
            error_category: Some(spec_error_category(*error)),
        });
    }

    fn record(&mut self, provider: &str, status: ProviderHealthStatus, error_category: Option<ProviderErrorCategory>, now: u64)
        requires
            old(self).wf(),
        ensures
            final(self).wf(),
            final(self).records() == old(self).records().insert(
                provider@,
                ProviderHealthSnapshot { status, checked_at_unix_seconds: Some(now), error_category },
            ),
    {
        self.providers.insert(
            provider.to_string(),
            ProviderHealthSnapshot { status, checked_at_unix_seconds: Some(now), error_category },
        );
    }

    /// The health records, one per provider.
    pub fn snapshot(&self) -> (r: Vec<(String, ProviderHealthSnapshot)>)
        requires
            self.wf(),
        ensures
            r@.len() == self.records().len(),
            forall|i: int| 0 <= i < r@.len() ==> #[trigger] self.records().contains_key(r@[i].0@)
                && self.records()[r@[i].0@] == r@[i].1,
            forall|k: Seq<char>| #[trigger] self.records().contains_key(k) ==> exists|i: int| 0 <= i < r@.len() && r@[i].0@ == k,
            forall|i: int, j: int| 0 <= i < j < r@.len() ==> (#[trigger] r@[i]).0@ != (#[trigger] r@[j]).0@,
    {
        proof {
            self.providers.lemma_pairs();
        }
        let r = self.providers.to_pairs();
        proof {
            assert forall|k: Seq<char>| #[trigger] self.records().contains_key(k) implies exists|i: int| 0 <= i < r@.len() && r@[i].0@ == k by {
                let i = choose|i: int| 0 <= i < self.providers.pairs().len() && self.providers.pairs()[i].0@ == k;
                assert(r@[i].0@ == k);
            }
            assert forall|i: int| 0 <= i < r@.len() implies #[trigger] self.records().contains_key(r@[i].0@)
                && self.records()[r@[i].0@] == r@[i].1 by {
                assert(self.providers.pairs()[i].0@ == r@[i].0@);
            }
            assert forall|i: int, j: int| 0 <= i < j < r@.len() implies (#[trigger] r@[i]).0@ != (#[trigger] r@[j]).0@ by {
                assert(self.providers.pairs()[i].0@ == r@[i].0@);
                assert(self.providers.pairs()[j].0@ == r@[j].0@);
            }
        }
        r
    }

    /// Ready when some known provider is not unhealthy.
    pub fn any_provider_ready(&self) -> (b: bool)
        requires
            self.wf(),
        ensures
            b == spec_ready(self.records()),
    {
        proof {
            self.providers.lemma_pairs();
        }
        let n = self.providers.len();
        let mut i: usize = 0;
        while i < n
            invariant
                n == self.providers.pairs().len(),
                i <= n,
                self.providers.wf(),
                forall|j: int| 0 <= j < i ==> self.providers.pairs()[j].1.status == ProviderHealthStatus::Unhealthy,
            decreases n - i,
        {
            if self.providers.value_at(i).status != ProviderHealthStatus::Unhealthy {
                proof {
                    self.providers.lemma_pairs();
                    assert(self.records().contains_key(self.providers.pairs()[i as int].0@));
                }
                return true;
            }
            i = i + 1;
        }
        proof {
            self.providers.lemma_pairs();
            assert forall|k: Seq<char>| #[trigger] self.records().contains_key(k) implies self.records()[k].status == ProviderHealthStatus::Unhealthy by {
                let j = choose|j: int| 0 <= j < self.providers.pairs().len() && self.providers.pairs()[j].0@ == k;
                assert(self.records()[self.providers.pairs()[j].0@] == self.providers.pairs()[j].1);
            }
        }
        false
    }
}

/// Readiness follows the last probe: once every known provider's last probe
/// failed the gateway is not ready, and one successful probe makes it ready.
pub proof fn law_readiness_follows_probes(m: Map<Seq<char>, ProviderHealthSnapshot>, name: Seq<char>, now: u64)
    ensures
        spec_ready(m.insert(name, ProviderHealthSnapshot { status: ProviderHealthStatus::Healthy, checked_at_unix_seconds: Some(now), error_category: None })),
        (forall|k: Seq<char>| #[trigger] m.contains_key(k) ==> m[k].status == ProviderHealthStatus::Unhealthy) ==> !spec_ready(m),
{
    let m2 = m.insert(name, ProviderHealthSnapshot { status: ProviderHealthStatus::Healthy, checked_at_unix_seconds: Some(now), error_category: None });
    assert(m2.contains_key(name));
}

/// Caller-facing form of a health record.
#[derive(Debug, Clone, Copy)]
pub struct ProviderHealthResponse {
    pub status: &'static str,
    pub checked_at_unix_seconds: Option<u64>,
    pub error_category: Option<&'static str>,
}

/// `r` is the caller-facing form of `snapshot`: its status name, check time
/// and error category name.
pub open spec fn describes(r: ProviderHealthResponse, snapshot: ProviderHealthSnapshot) -> bool {
    &&& r.status@ == match snapshot.status {
        ProviderHealthStatus::Unknown => "unknown"@,
        ProviderHealthStatus::Healthy => "healthy"@,
        ProviderHealthStatus::Unhealthy => "unhealthy"@,
    }
    &&& r.checked_at_unix_seconds == snapshot.checked_at_unix_seconds
    &&& (r.error_category is Some <==> snapshot.error_category is Some)
    &&& (snapshot.error_category matches Some(c) ==> r.error_category->0@ == crate::routing::fallback::category_name(c))
}

impl ProviderHealthResponse {
    /// The caller-facing form of `snapshot`.
    pub fn from_snapshot(snapshot: ProviderHealthSnapshot) -> (r: Self)
        ensures
            describes(r, snapshot),
    {
        let status = match snapshot.status {
            ProviderHealthStatus::Unknown => "unknown",
            ProviderHealthStatus::Healthy => "healthy",
            ProviderHealthStatus::Unhealthy => "unhealthy",
        };
        ProviderHealthResponse {
            status,
            checked_at_unix_seconds: snapshot.checked_at_unix_seconds,
            error_category: match snapshot.error_category {
                Some(c) => Some(c.as_str()),
                None => None,
            },
        }
    }
}

} // verus!
