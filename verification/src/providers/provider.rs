//! Provider error and stream event types, and the priority order of providers.
use vstd::prelude::*;

use crate::models::chat::{ChatCompletionChunkResponse, TokenUsage};

verus! {

/// Why a provider call failed.
#[derive(Debug, Clone, Copy, PartialEq, Eq, Structural)]
pub enum ProviderError {
    Timeout,
    RateLimited,
    AuthenticationFailed,
    ProviderUnavailable,
    ProviderBadResponse,
}

pub open spec fn provider_error_text(e: ProviderError) -> Seq<char> {
    match e {
        ProviderError::Timeout => "provider timed out"@,
        ProviderError::RateLimited => "provider is rate limited"@,
        ProviderError::AuthenticationFailed => "provider authentication failed"@,
        ProviderError::ProviderUnavailable => "provider is unavailable"@,
        ProviderError::ProviderBadResponse => "provider returned an invalid response"@,
    }
}

impl ProviderError {
    /// Human-readable description.
    pub fn message(&self) -> (s: &'static str)
        ensures
            s@ == provider_error_text(*self),
    {
        match self {
            ProviderError::Timeout => "provider timed out",
            ProviderError::RateLimited => "provider is rate limited",
            ProviderError::AuthenticationFailed => "provider authentication failed",
            ProviderError::ProviderUnavailable => "provider is unavailable",
            ProviderError::ProviderBadResponse => "provider returned an invalid response",
        }
    }
}

/// A stream failure, before or after the first chunk.
#[derive(Debug, Clone, Copy, PartialEq, Eq, Structural)]
pub enum ProviderStreamError {
    BeforeFirstChunk(ProviderError),
    MidStream(ProviderError),
}

impl ProviderStreamError {
    /// The underlying provider error.
    pub fn into_provider_error(self) -> (e: ProviderError)
        ensures
            e == match self {
                ProviderStreamError::BeforeFirstChunk(x) => x,
                ProviderStreamError::MidStream(x) => x,
            },
    {
        match self {
            ProviderStreamError::BeforeFirstChunk(error) => error,
            ProviderStreamError::MidStream(error) => error,
        }
    }
}

/// One event of a provider stream.
#[derive(Debug, Clone)]
pub enum ProviderStreamEvent {
    Chunk(ChatCompletionChunkResponse),
    Completed { usage: TokenUsage },
}

/// Provider `a` comes before provider `b`: a lower priority number, or the
/// same priority and an earlier place in the configuration.
pub open spec fn priority_before(priorities: Seq<u32>, a: int, b: int) -> bool {
    priorities[a] < priorities[b] || (priorities[a] == priorities[b] && a < b)
}

/// The positions `0..n` of the providers, ordered by ascending priority; a
/// stable sort, so providers of equal priority keep their configured order.
pub fn priority_order(priorities: &[u32]) -> (order: Vec<usize>)
    ensures
        order.len() == priorities.len(),
        forall|i: int| 0 <= i < order.len() ==> #[trigger] order@[i] < priorities.len(),
        forall|k: usize| k < priorities.len() ==> #[trigger] order@.contains(k),
        forall|i: int, j: int|
            0 <= i < j < order.len() ==> priority_before(priorities@, order@[i] as int, order@[j] as int),
{
    let n = priorities.len();
    let mut order: Vec<usize> = Vec::new();
    let mut k: usize = 0;
    while k < n
        invariant
            n == priorities.len(),
            k <= n,
            order.len() == k,
            forall|i: int| 0 <= i < order.len() ==> #[trigger] order@[i] < k,
            forall|m: usize| m < k ==> #[trigger] order@.contains(m),
            forall|i: int, j: int|
                0 <= i < j < order.len() ==> priority_before(priorities@, order@[i] as int, order@[j] as int),
        decreases n - k,
    {
        let pk = priorities[k];
        let mut pos: usize = 0;
        while pos < order.len() && priorities[order[pos]] <= pk
            invariant
                n == priorities.len(),
                k < n,
                pk == priorities@[k as int],
                pos <= order.len(),
                order.len() == k,
                forall|i: int| 0 <= i < order.len() ==> #[trigger] order@[i] < k,
                forall|i: int| 0 <= i < pos ==> priorities@[#[trigger] order@[i] as int] <= pk,
            decreases order.len() - pos,
        {
            pos = pos + 1;
        }
        let ghost old_order = order@;
        proof {
            if pos < order.len() {
                assert forall|i: int| pos <= i < old_order.len() implies pk < priorities@[#[trigger] old_order[i] as int] by {
                    if i > pos {
                        assert(priority_before(priorities@, old_order[pos as int] as int, old_order[i] as int));
                    }
                }
            }
        }
        order.insert(pos, k);
        proof {
            assert forall|m: usize| m < k + 1 implies #[trigger] order@.contains(m) by {
                if m < k {
                    assert(old_order.contains(m));
                    let w = choose|w: int| 0 <= w < old_order.len() && old_order[w] == m;
                    if w < pos {
                        assert(order@[w] == m);
                    } else {
                        assert(order@[w + 1] == m);
                    }
                } else {
                    assert(order@[pos as int] == k);
                }
            }
            assert forall|i: int, j: int| 0 <= i < j < order.len() implies priority_before(
                priorities@,
                order@[i] as int,
                order@[j] as int,
            ) by {
                if j < pos {
                    assert(order@[i] == old_order[i] && order@[j] == old_order[j]);
                } else if j == pos {
                    assert(order@[i] == old_order[i]);
                    assert(old_order[i] < k);
                } else if i < pos {
                    assert(order@[i] == old_order[i] && order@[j] == old_order[j - 1]);
                    assert(i < j - 1 || i == j - 1);
                } else if i == pos {
                    assert(order@[j] == old_order[j - 1]);
                } else {
                    assert(order@[i] == old_order[i - 1] && order@[j] == old_order[j - 1]);
                }
            }
        }
        k = k + 1;
    }
    order
}

} // verus!
