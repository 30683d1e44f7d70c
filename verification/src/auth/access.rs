//! Which routes a key may call, and how a bearer token is read from a header.
use vstd::prelude::*;

use crate::auth::keys::KeyRole;
use crate::text::{chars_of, str_eq_chars, string_from_chars};

verus! {

/// Routes that expose gateway statistics.
pub open spec fn is_observability_path(path: Seq<char>) -> bool {
    path == "/stats"@ || path == "/stats/providers"@ || path == "/metrics"@
}

/// Observability routes need an observability-capable role; every other
/// route needs an inference-capable role, except the model list, which any
/// authenticated key may read.
pub open spec fn role_allows(role: KeyRole, path: Seq<char>) -> bool {
    if is_observability_path(path) {
        role == KeyRole::Admin || role == KeyRole::Observability
    } else {
        role == KeyRole::Admin || role == KeyRole::Inference || path == "/v1/models"@
    }
}

/// Whether a key of `role` may call `path`.
pub fn role_allows_path(role: KeyRole, path: &str) -> (b: bool)
    ensures
        b == role_allows(role, path@),
{
    let observability = str_eq_chars(path, "/stats") || str_eq_chars(path, "/stats/providers")
        || str_eq_chars(path, "/metrics");
    if observability {
        role.allows_observability()
    } else {
        role.allows_inference() || str_eq_chars(path, "/v1/models")
    }
}

pub open spec fn bearer_scheme() -> Seq<char> {
    seq!['B', 'e', 'a', 'r', 'e', 'r', ' ']
}

/// The token of an `Authorization` header value: what follows `Bearer `,
/// where that is not empty.
pub open spec fn bearer_of(header: Seq<char>) -> Option<Seq<char>> {
    if header.len() > bearer_scheme().len() && header.take(bearer_scheme().len() as int) == bearer_scheme() {
        Some(header.skip(bearer_scheme().len() as int))
    } else {
        None
    }
}

/// The bearer token carried by an `Authorization` header value.
pub fn bearer_token(header: &str) -> (t: Option<String>)
    ensures
        match t {
            Some(s) => bearer_of(header@) == Some(s@),
            None => bearer_of(header@) is None,
        },
{
    let chars = chars_of(header);
    let scheme: [char; 7] = ['B', 'e', 'a', 'r', 'e', 'r', ' '];
    if chars.len() <= 7 {
        return None;
    }
    let mut i: usize = 0;
    while i < 7
        invariant
            i <= 7,
            chars.len() > 7,
            chars@ == header@,
            scheme@ == bearer_scheme(),
            forall|j: int| 0 <= j < i ==> chars@[j] == scheme@[j],
        decreases 7 - i,
    {
        if chars[i] != scheme[i] {
            proof {
                assert(bearer_scheme().len() == 7);
                assert(chars@.take(7)[i as int] != bearer_scheme()[i as int]);
                assert(chars@.take(7) != bearer_scheme());
            }
            return None;
        }
        i = i + 1;
    }
    assert(chars@.take(7) =~= bearer_scheme());
    let mut rest: Vec<char> = Vec::new();
    let mut k: usize = 7;
    while k < chars.len()
        invariant
            7 <= k <= chars.len(),
            rest@ == chars@.subrange(7, k as int),
        decreases chars.len() - k,
    {
        rest.push(chars[k]);
        assert(rest@ =~= chars@.subrange(7, k as int + 1));
        k = k + 1;
    }
    assert(rest@ =~= chars@.skip(7));
    Some(string_from_chars(rest.as_slice()))
}

/// The burst allowance of a key limited to `requests_per_minute`: a quarter
/// of it, at least one.
pub open spec fn key_burst(requests_per_minute: Option<u32>) -> Option<u32> {
    match requests_per_minute {
        Some(rpm) => Some(if rpm / 4 >= 1 { (rpm / 4) as u32 } else { 1u32 }),
        None => None,
    }
}

/// The per-key burst size that goes with a per-minute limit.
pub fn per_key_burst(requests_per_minute: Option<u32>) -> (b: Option<u32>)
    ensures
        b == key_burst(requests_per_minute),
{
    match requests_per_minute {
        Some(rpm) => {
            let quarter = rpm / 4;
            Some(if quarter >= 1 { quarter } else { 1 })
        },
        None => None,
    }
}

} // verus!
