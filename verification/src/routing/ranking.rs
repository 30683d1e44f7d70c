//! Stable ordering of routing candidates by a composite key.
//!
//! Every reordering of candidates in the router sorts by a numeric key, a second
//! numeric key and the provider name, keeping the input order among equals. Each
//! entry carries its input position, which makes that order strict and total.
use vstd::prelude::*;

use crate::text::{lemma_lt_irreflexive, lemma_lt_total, lemma_lt_transitive, seq_lt, str_eq_chars, str_lt};

verus! {

/// One candidate to order: its keys, its name and its position in the input.
pub struct Ranked {
    pub primary: u64,
    pub secondary: u64,
    pub name: String,
    pub position: usize,
}

/// Strict order on keys: primary, then secondary, then name, then input position.
pub open spec fn key_lt(p1: u64, s1: u64, n1: Seq<char>, q1: int, p2: u64, s2: u64, n2: Seq<char>, q2: int) -> bool {
    ||| p1 < p2
    ||| p1 == p2 && s1 < s2
    ||| p1 == p2 && s1 == s2 && seq_lt(n1, n2)
    ||| p1 == p2 && s1 == s2 && n1 == n2 && q1 < q2
}

/// `a` sorts strictly before `b`.
pub open spec fn rank_lt(a: Ranked, b: Ranked) -> bool {
    key_lt(a.primary, a.secondary, a.name@, a.position as int, b.primary, b.secondary, b.name@, b.position as int)
}

/// Ranked entries in strictly ascending order.
pub open spec fn rank_sorted(s: Seq<Ranked>) -> bool {
    forall|i: int, j: int| 0 <= i < j < s.len() ==> rank_lt(#[trigger] s[i], #[trigger] s[j])
}

pub proof fn lemma_key_transitive(
    p1: u64, s1: u64, n1: Seq<char>, q1: int,
    p2: u64, s2: u64, n2: Seq<char>, q2: int,
    p3: u64, s3: u64, n3: Seq<char>, q3: int,
)
    requires
        key_lt(p1, s1, n1, q1, p2, s2, n2, q2),
        key_lt(p2, s2, n2, q2, p3, s3, n3, q3),
    ensures
        key_lt(p1, s1, n1, q1, p3, s3, n3, q3),
{
    if p1 == p2 && p2 == p3 && s1 == s2 && s2 == s3 {
        if seq_lt(n1, n2) && seq_lt(n2, n3) {
            lemma_lt_transitive(n1, n2, n3);
        }
    }
}

pub proof fn lemma_key_irreflexive(p: u64, s: u64, n: Seq<char>, q: int)
    ensures
        !key_lt(p, s, n, q, p, s, n, q),
{
    lemma_lt_irreflexive(n);
}

pub proof fn lemma_key_total(p1: u64, s1: u64, n1: Seq<char>, q1: int, p2: u64, s2: u64, n2: Seq<char>, q2: int)
    requires
        q1 != q2,
    ensures
        key_lt(p1, s1, n1, q1, p2, s2, n2, q2) || key_lt(p2, s2, n2, q2, p1, s1, n1, q1),
{
    lemma_lt_total(n1, n2);
}

/// Whether `a` sorts strictly before `b`.
pub fn ranked_before(a: &Ranked, b: &Ranked) -> (r: bool)
    ensures
        r == rank_lt(*a, *b),
{
    if a.primary != b.primary {
        return a.primary < b.primary;
    }
    if a.secondary != b.secondary {
        return a.secondary < b.secondary;
    }
    if str_lt(a.name.as_str(), b.name.as_str()) {
        return true;
    }
    if !str_eq_chars(a.name.as_str(), b.name.as_str()) {
        return false;
    }
    a.position < b.position
}

/// Sorts entries whose positions are distinct into ascending order.
pub fn sort_ranked(items: Vec<Ranked>) -> (r: Vec<Ranked>)
    requires
        forall|i: int, j: int| 0 <= i < j < items.len() ==> (#[trigger] items[i]).position != (#[trigger] items[j]).position,
    ensures
        r.len() == items.len(),
        rank_sorted(r@),
        forall|x: Ranked| r@.contains(x) <==> items@.contains(x),
{
    let ghost all = items@;
    let mut rest = items;
    let mut r: Vec<Ranked> = Vec::new();
    while rest.len() > 0
        invariant
            rest@ == all.take(rest.len() as int),
            rest.len() <= all.len(),
            r.len() + rest.len() == all.len(),
            rank_sorted(r@),
            forall|x: Ranked| r@.contains(x) <==> all.skip(rest.len() as int).contains(x),
            forall|i: int, j: int| 0 <= i < j < all.len() ==> (#[trigger] all[i]).position != (#[trigger] all[j]).position,
        decreases rest.len(),
    {
        let ghost k = rest.len() as int;
        let x = rest.pop().unwrap();
        proof {
            assert(x == all[k - 1]);
            assert(rest@ =~= all.take(k - 1));
        }
        let n = r.len();
        let mut i: usize = 0;
        while i < n && !ranked_before(&x, &r[i])
            invariant
                n == r@.len(),
                i <= n,
                0 < k <= all.len(),
                x == all[k - 1],
                forall|y: Ranked| r@.contains(y) <==> all.skip(k).contains(y),
                forall|a: int, b: int| 0 <= a < b < all.len() ==> (#[trigger] all[a]).position != (#[trigger] all[b]).position,
                forall|j: int| 0 <= j < i ==> rank_lt(#[trigger] r@[j], x),
            decreases n - i,
        {
            proof {
                let y = r@[i as int];
                assert(r@.contains(y));
                assert(all.skip(k).contains(y));
                let s0 = all.skip(k);
                let m = choose|m: int| 0 <= m < s0.len() && #[trigger] s0[m] == y;
                assert(all[m + k] == y);
                assert(all[m + k].position != all[k - 1].position);
                lemma_key_total(x.primary, x.secondary, x.name@, x.position as int, y.primary, y.secondary, y.name@, y.position as int);
            }
            i = i + 1;
        }
        let ghost before = r@;
        r.insert(i, x);
        proof {
            assert forall|a: int, b: int| 0 <= a < b < r@.len() implies rank_lt(#[trigger] r@[a], #[trigger] r@[b]) by {
                if a < i && b < i {
                    assert(r@[a] == before[a] && r@[b] == before[b]);
                } else if a < i && b == i {
                    assert(r@[a] == before[a]);
                } else if a < i && b > i {
                    assert(r@[a] == before[a] && r@[b] == before[b - 1]);
                    assert(rank_lt(before[a], x));
                    let y = before[b - 1];
                    if b - 1 == i {
                        lemma_key_transitive(before[a].primary, before[a].secondary, before[a].name@, before[a].position as int,
                            x.primary, x.secondary, x.name@, x.position as int, y.primary, y.secondary, y.name@, y.position as int);
                    } else {
                        assert(rank_lt(before[a], before[b - 1]));
                    }
                } else if a == i {
                    assert(r@[b] == before[b - 1]);
                    let y = before[b - 1];
                    let z = before[i as int];
                    if b - 1 > i {
                        assert(rank_lt(z, y));
                        lemma_key_transitive(x.primary, x.secondary, x.name@, x.position as int,
                            z.primary, z.secondary, z.name@, z.position as int, y.primary, y.secondary, y.name@, y.position as int);
                    }
                } else {
                    assert(r@[a] == before[a - 1] && r@[b] == before[b - 1]);
                }
            }
            let s0 = all.skip(k);
            let s1 = all.skip(k - 1);
            assert forall|y: Ranked| r@.contains(y) <==> s1.contains(y) by {
                if r@.contains(y) {
                    let j = choose|j: int| 0 <= j < r@.len() && #[trigger] r@[j] == y;
                    if j < i {
                        assert(before[j] == y);
                        assert(before.contains(y));
                    } else if j > i {
                        assert(before[j - 1] == y);
                        assert(before.contains(y));
                    }
                    if y != x {
                        assert(s0.contains(y));
                        let m = choose|m: int| 0 <= m < s0.len() && #[trigger] s0[m] == y;
                        assert(s1[m + 1] == y);
                    } else {
                        assert(s1[0] == y);
                    }
                }
                if s1.contains(y) {
                    let m = choose|m: int| 0 <= m < s1.len() && #[trigger] s1[m] == y;
                    if m == 0 {
                        assert(r@[i as int] == y);
                    } else {
                        assert(s0[m - 1] == y);
                        assert(s0.contains(y));
                        assert(before.contains(y));
                        let j = choose|j: int| 0 <= j < before.len() && #[trigger] before[j] == y;
                        if j < i {
                            assert(r@[j] == y);
                        } else {
                            assert(r@[j + 1] == y);
                        }
                    }
                }
            }
        }
    }
    proof {
        assert(all.skip(0) =~= all);
    }
    r
}

} // verus!
