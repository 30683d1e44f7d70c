//! Prefix affinity: which provider last served each prefix fingerprint.
//!
//! Entries live in a bounded least-recently-used cache and expire after a
//! time-to-live. Times are milliseconds since the index was created.
use vstd::prelude::*;

use std::num::NonZeroUsize;
use std::time::Instant;

use lru::LruCache;

use crate::clock::{elapsed_ms, instant_now};
use crate::config::PrefixAffinityConfig;

verus! {

#[verifier::external_type_specification]
#[verifier::external_body]
#[verifier::reject_recursive_types(K)]
#[verifier::reject_recursive_types(V)]
#[verifier::reject_recursive_types(S)]
pub struct ExLruCache<K, V, S>(LruCache<K, V, S>);

#[verifier::external_type_specification]
#[verifier::external_body]
pub struct ExLruHasher(lru::DefaultHasher);

/// A cached affinity entry as a plain value: fingerprint, provider name, time recorded.
pub type AffinityEntry = (Seq<char>, (Seq<char>, u64));

/// The entries of an affinity cache, from least to most recently used.
pub uninterp spec fn lru_entries(c: LruCache<String, (String, u64)>) -> Seq<(Seq<char>, (Seq<char>, u64))>;

/// The capacity an affinity cache was created with.
pub uninterp spec fn lru_capacity(c: LruCache<String, (String, u64)>) -> nat;

/// The value stored under `k` (the most recent entry with that key).
pub open spec fn value_of(s: Seq<AffinityEntry>, k: Seq<char>) -> Option<(Seq<char>, u64)>
    decreases s.len(),
{
    if s.len() == 0 {
        None
    } else if s.last().0 == k {
        Some(s.last().1)
    } else {
        value_of(s.drop_last(), k)
    }
}

/// The entries without those stored under `k`.
pub open spec fn without_key(s: Seq<AffinityEntry>, k: Seq<char>) -> Seq<AffinityEntry> {
    s.filter(|e: AffinityEntry| e.0 != k)
}

/// The entries after storing `v` under `k`: an entry with that key is replaced; a
/// new key in a full cache evicts the least recently used entry first. The stored
/// entry becomes the most recently used.
pub open spec fn put_entries(s: Seq<AffinityEntry>, cap: nat, k: Seq<char>, v: (Seq<char>, u64)) -> Seq<AffinityEntry> {
    if value_of(s, k) is Some {
        without_key(s, k).push((k, v))
    } else if s.len() == cap {
        s.drop_first().push((k, v))
    } else {
        s.push((k, v))
    }
}

/// Calls `LruCache::new` with capacity `cap`. Trusted: the cache starts empty with
/// that capacity.
#[verifier::external_body]
fn lru_new(cap: usize) -> (c: LruCache<String, (String, u64)>)
    requires
        cap >= 1,
    ensures
        lru_entries(c) == Seq::<AffinityEntry>::empty(),
        lru_capacity(c) == cap,
{
    LruCache::new(NonZeroUsize::new(cap).expect("capacity is at least one"))
}

/// Calls `LruCache::get` and copies the value out. Trusted: a present key yields
/// its value and its entry becomes the most recently used; otherwise nothing
/// changes.
#[verifier::external_body]
fn lru_get(c: &mut LruCache<String, (String, u64)>, key: &str) -> (r: Option<(String, u64)>)
    ensures
        lru_capacity(*final(c)) == lru_capacity(*old(c)),
        match value_of(lru_entries(*old(c)), key@) {
            Some(v) => r matches Some(x) && x.0@ == v.0 && x.1 == v.1 && lru_entries(*final(c)) == without_key(
                lru_entries(*old(c)),
                key@,
            ).push((key@, v)),
            None => r is None && lru_entries(*final(c)) == lru_entries(*old(c)),
        },
{
    match c.get(key) {
        Some(v) => Some((v.0.clone(), v.1)),
        None => None,
    }
}

/// Calls `LruCache::put`. Trusted: the entries change as `put_entries` says.
#[verifier::external_body]
fn lru_put(c: &mut LruCache<String, (String, u64)>, key: String, value: (String, u64))
    ensures
        lru_capacity(*final(c)) == lru_capacity(*old(c)),
        lru_entries(*final(c)) == put_entries(lru_entries(*old(c)), lru_capacity(*old(c)), key@, (value.0@, value.1)),
{
    c.put(key, value);
}

/// Calls `LruCache::pop`. Trusted: the entry stored under `key` is removed.
#[verifier::external_body]
fn lru_pop(c: &mut LruCache<String, (String, u64)>, key: &str)
    ensures
        lru_capacity(*final(c)) == lru_capacity(*old(c)),
        lru_entries(*final(c)) == without_key(lru_entries(*old(c)), key@),
{
    c.pop(key);
}

proof fn lemma_without_key_idempotent(s: Seq<AffinityEntry>, k: Seq<char>, v: (Seq<char>, u64))
    ensures
        without_key(without_key(s, k).push((k, v)), k) == without_key(s, k),
    decreases s.len(),
{
    let f = |e: AffinityEntry| e.0 != k;
    reveal(Seq::filter);
    assert(without_key(s, k).push((k, v)).drop_last() =~= without_key(s, k));
    lemma_filter_twice(s, k);
}

proof fn lemma_filter_twice(s: Seq<AffinityEntry>, k: Seq<char>)
    ensures
        without_key(without_key(s, k), k) == without_key(s, k),
    decreases s.len(),
{
    reveal(Seq::filter);
    if s.len() > 0 {
        lemma_filter_twice(s.drop_last(), k);
        let w = without_key(s.drop_last(), k);
        if s.last().0 != k {
            assert(w.push(s.last()).drop_last() =~= w);
        }
    }
}

/// Expired: more than the time-to-live has passed since the entry was recorded.
pub open spec fn expired(recorded_ms: u64, now_ms: u64, ttl_ms: u64) -> bool {
    now_ms > recorded_ms && now_ms - recorded_ms > ttl_ms
}

/// The provider remembered for `k` at `now_ms`, and the entries afterwards.
pub open spec fn lookup_outcome(s: Seq<AffinityEntry>, k: Seq<char>, now_ms: u64, ttl_ms: u64) -> (Option<Seq<char>>, Seq<AffinityEntry>) {
    match value_of(s, k) {
        None => (None, s),
        Some(v) => if expired(v.1, now_ms, ttl_ms) {
            (None, without_key(s, k))
        } else {
            (Some(v.0), without_key(s, k).push((k, v)))
        },
    }
}

/// Fingerprint-to-provider memory with least-recently-used eviction and expiry.
pub struct PrefixAffinityIndex {
    ttl_ms: u64,
    origin: Instant,
    entries: LruCache<String, (String, u64)>,
}

impl PrefixAffinityIndex {
    /// Entries from least to most recently used.
    pub closed spec fn entries(&self) -> Seq<AffinityEntry> {
        lru_entries(self.entries)
    }

    /// Most entries kept.
    pub closed spec fn capacity(&self) -> nat {
        lru_capacity(self.entries)
    }

    /// Time-to-live of an entry in milliseconds.
    pub closed spec fn ttl_ms(&self) -> u64 {
        self.ttl_ms
    }

    /// An empty index holding at most `max_entries` (at least one) entries for
    /// `ttl_seconds`.
    pub fn new(config: &PrefixAffinityConfig) -> (r: Self)
        ensures
            r.entries() == Seq::<AffinityEntry>::empty(),
            r.capacity() == if config.max_entries == 0 { 1 } else { config.max_entries as nat },
            r.ttl_ms() == if config.ttl_seconds * 1000 <= u64::MAX { config.ttl_seconds * 1000 } else { u64::MAX as int },
    {
        let cap = if config.max_entries == 0 { 1 } else { config.max_entries };
        let ttl_ms = if config.ttl_seconds <= 18_446_744_073_709_551 {
            config.ttl_seconds * 1000
        } else {
            u64::MAX
        };
        PrefixAffinityIndex { ttl_ms, origin: instant_now(), entries: lru_new(cap) }
    }

    /// The provider remembered for `fingerprint` at time `now_ms`. An expired entry
    /// is dropped; a live one becomes the most recently used.
    pub fn lookup_at(&mut self, fingerprint: &str, now_ms: u64) -> (r: Option<String>)
        ensures
            final(self).capacity() == old(self).capacity(),
            final(self).ttl_ms() == old(self).ttl_ms(),
            final(self).entries() == lookup_outcome(old(self).entries(), fingerprint@, now_ms, old(self).ttl_ms()).1,
            match lookup_outcome(old(self).entries(), fingerprint@, now_ms, old(self).ttl_ms()).0 {
                Some(p) => r matches Some(s) && s@ == p,
                None => r is None,
            },
    {
        match lru_get(&mut self.entries, fingerprint) {
            None => None,
            Some((provider, recorded)) => {
                if now_ms > recorded && now_ms - recorded > self.ttl_ms {
                    lru_pop(&mut self.entries, fingerprint);
                    proof {
                        let v = value_of(old(self).entries(), fingerprint@).unwrap();
                        lemma_without_key_idempotent(old(self).entries(), fingerprint@, v);
                    }
                    None
                } else {
                    Some(provider)
                }
            },
        }
    }

    /// The provider remembered for `fingerprint` now. Whether an entry has expired
    /// depends on the clock, so either outcome of `lookup_at` may come back.
    pub fn lookup(&mut self, fingerprint: &str) -> (r: Option<String>)
        ensures
            final(self).capacity() == old(self).capacity(),
            final(self).ttl_ms() == old(self).ttl_ms(),
            match value_of(old(self).entries(), fingerprint@) {
                None => r is None && final(self).entries() == old(self).entries(),
                Some(v) => (r is None && final(self).entries() == without_key(old(self).entries(), fingerprint@)) || (
                r matches Some(s) && s@ == v.0 && final(self).entries() == without_key(old(self).entries(), fingerprint@).push((fingerprint@, v))),
            },
    {
        let now = elapsed_ms(&self.origin);
        self.lookup_at(fingerprint, now)
    }

    /// Remembers that `provider_name` served `fingerprint` at time `now_ms`.
    pub fn record_at(&mut self, fingerprint: &str, provider_name: &str, now_ms: u64)
        ensures
            final(self).capacity() == old(self).capacity(),
            final(self).ttl_ms() == old(self).ttl_ms(),
            final(self).entries() == put_entries(old(self).entries(), old(self).capacity(), fingerprint@, (provider_name@, now_ms)),
    {
        lru_put(&mut self.entries, fingerprint.to_string(), (provider_name.to_string(), now_ms));
    }

    /// Remembers that `provider_name` served `fingerprint` now.
    pub fn record(&mut self, fingerprint: &str, provider_name: &str)
        ensures
            final(self).capacity() == old(self).capacity(),
            final(self).ttl_ms() == old(self).ttl_ms(),
            exists|t: u64| final(self).entries() == put_entries(old(self).entries(), old(self).capacity(), fingerprint@, (provider_name@, t)),
    {
        let now = elapsed_ms(&self.origin);
        self.record_at(fingerprint, provider_name, now);
    }
}

/// A recorded provider is found again for its fingerprint until its time-to-live
/// has passed.
pub proof fn law_recorded_affinity_is_found(
    s: Seq<AffinityEntry>,
    cap: nat,
    fingerprint: Seq<char>,
    provider: Seq<char>,
    recorded_ms: u64,
    now_ms: u64,
    ttl_ms: u64,
)
    requires
        !expired(recorded_ms, now_ms, ttl_ms),
    ensures
        lookup_outcome(put_entries(s, cap, fingerprint, (provider, recorded_ms)), fingerprint, now_ms, ttl_ms).0 == Some(provider),
{
}

/// An expired entry is forgotten: the lookup finds nothing and drops it.
pub proof fn law_expired_affinity_is_dropped(
    s: Seq<AffinityEntry>,
    cap: nat,
    fingerprint: Seq<char>,
    provider: Seq<char>,
    recorded_ms: u64,
    now_ms: u64,
    ttl_ms: u64,
)
    requires
        expired(recorded_ms, now_ms, ttl_ms),
    ensures
        lookup_outcome(put_entries(s, cap, fingerprint, (provider, recorded_ms)), fingerprint, now_ms, ttl_ms).0 is None,
        value_of(lookup_outcome(put_entries(s, cap, fingerprint, (provider, recorded_ms)), fingerprint, now_ms, ttl_ms).1, fingerprint) is None,
{
    let p = put_entries(s, cap, fingerprint, (provider, recorded_ms));
    lemma_value_of_without_key(p, fingerprint);
}

proof fn lemma_value_of_without_key(s: Seq<AffinityEntry>, k: Seq<char>)
    ensures
        value_of(without_key(s, k), k) is None,
    decreases s.len(),
{
    reveal(Seq::filter);
    if s.len() > 0 {
        lemma_value_of_without_key(s.drop_last(), k);
        let w = without_key(s.drop_last(), k);
        assert(without_key(s, k) == if s.last().0 != k { w.push(s.last()) } else { w });
        if s.last().0 != k {
            assert(w.push(s.last()).drop_last() =~= w);
        }
    }
}

/// The cache never holds more entries than its capacity.
pub proof fn law_affinity_cache_is_bounded(s: Seq<AffinityEntry>, cap: nat, k: Seq<char>, v: (Seq<char>, u64))
    requires
        s.len() <= cap,
        cap >= 1,
    ensures
        put_entries(s, cap, k, v).len() <= cap,
{
    if value_of(s, k) is Some {
        lemma_without_key_shorter(s, k);
    }
}

proof fn lemma_without_key_shorter(s: Seq<AffinityEntry>, k: Seq<char>)
    requires
        value_of(s, k) is Some,
    ensures
        without_key(s, k).len() < s.len(),
    decreases s.len(),
{
    reveal(Seq::filter);
    let w = without_key(s.drop_last(), k);
    assert(without_key(s, k) == if s.last().0 != k { w.push(s.last()) } else { w });
    if s.last().0 != k {
        lemma_without_key_shorter(s.drop_last(), k);
    } else {
        s.drop_last().lemma_filter_len(|e: AffinityEntry| e.0 != k);
    }
}

} // verus!
