//! A small map keyed by strings, kept as a vector of entries in insertion order.
//! Every routing table, counter table and registry of the gateway is one of these.
use vstd::prelude::*;

verus! {

/// Map from string keys to values; keys are unique and keep their insertion order.
pub struct StrMap<V> {
    entries: Vec<(String, V)>,
}

/// No key occurs twice.
pub open spec fn unique_keys<V>(s: Seq<(String, V)>) -> bool {
    forall|i: int, j: int| 0 <= i < j < s.len() ==> s[i].0@ != s[j].0@
}

/// The map that the entries describe.
pub open spec fn map_of<V>(s: Seq<(String, V)>) -> Map<Seq<char>, V>
    decreases s.len(),
{
    if s.len() == 0 {
        Map::empty()
    } else {
        map_of(s.drop_last()).insert(s.last().0@, s.last().1)
    }
}

pub proof fn lemma_map_of_contains<V>(s: Seq<(String, V)>)
    requires
        unique_keys(s),
    ensures
        forall|k: Seq<char>|
            #[trigger] map_of(s).contains_key(k) <==> (exists|i: int|
                0 <= i < s.len() && s[i].0@ == k),
        forall|i: int| 0 <= i < s.len() ==> #[trigger] map_of(s)[s[i].0@] == s[i].1,
        map_of(s).dom().finite(),
        map_of(s).len() == s.len(),
    decreases s.len(),
{
    if s.len() > 0 {
        let p = s.drop_last();
        assert(unique_keys(p));
        lemma_map_of_contains(p);
        assert forall|k: Seq<char>| #[trigger]
            map_of(s).contains_key(k) <==> (exists|i: int| 0 <= i < s.len() && s[i].0@ == k) by {
            if map_of(s).contains_key(k) && k != s.last().0@ {
                let i = choose|i: int| 0 <= i < p.len() && p[i].0@ == k;
                assert(s[i].0@ == k);
            }
            if exists|i: int| 0 <= i < s.len() && s[i].0@ == k {
                let i = choose|i: int| 0 <= i < s.len() && s[i].0@ == k;
                if i < s.len() - 1 {
                    assert(p[i].0@ == k);
                }
            }
        }
        assert forall|i: int| 0 <= i < s.len() implies #[trigger] map_of(s)[s[i].0@] == s[i].1 by {
            if i < s.len() - 1 {
                assert(p[i] == s[i]);
            }
        }
        assert(!map_of(p).contains_key(s.last().0@)) by {
            if map_of(p).contains_key(s.last().0@) {
                let i = choose|i: int| 0 <= i < p.len() && p[i].0@ == s.last().0@;
                assert(s[i].0@ == s[s.len() - 1].0@);
            }
        }
    }
}

impl<V> View for StrMap<V> {
    type V = Map<Seq<char>, V>;

    closed spec fn view(&self) -> Map<Seq<char>, V> {
        map_of(self.entries@)
    }
}

impl<V> StrMap<V> {
    /// The entries in insertion order.
    pub closed spec fn pairs(&self) -> Seq<(String, V)> {
        self.entries@
    }

    /// Keys are unique.
    pub closed spec fn wf(&self) -> bool {
        unique_keys(self.entries@)
    }

    /// The map is exactly what its entries describe.
    pub proof fn lemma_pairs(&self)
        requires
            self.wf(),
        ensures
            unique_keys(self.pairs()),
            self@ == map_of(self.pairs()),
            forall|k: Seq<char>|
                #[trigger] self@.contains_key(k) <==> (exists|i: int|
                    0 <= i < self.pairs().len() && self.pairs()[i].0@ == k),
            forall|i: int|
                0 <= i < self.pairs().len() ==> #[trigger] self@[self.pairs()[i].0@]
                    == self.pairs()[i].1,
            self@.dom().finite(),
            self@.len() == self.pairs().len(),
    {
        lemma_map_of_contains(self.entries@);
    }

    /// An empty map.
    pub fn new() -> (m: Self)
        ensures
            m.wf(),
            m@ == Map::<Seq<char>, V>::empty(),
            m.pairs().len() == 0,
    {
        StrMap { entries: Vec::new() }
    }

    /// Number of entries.
    pub fn len(&self) -> (n: usize)
        requires
            self.wf(),
        ensures
            n == self.pairs().len(),
            n == self@.len(),
    {
        proof {
            lemma_map_of_contains(self.entries@);
        }
        self.entries.len()
    }

    /// Position of `key` among the entries, if present.
    pub fn position(&self, key: &str) -> (r: Option<usize>)
        requires
            self.wf(),
        ensures
            match r {
                Some(i) => i < self.pairs().len() && self.pairs()[i as int].0@ == key@,
                None => forall|i: int|
                    0 <= i < self.pairs().len() ==> self.pairs()[i].0@ != key@,
            },
            r is Some <==> self@.contains_key(key@),
    {
        proof {
            lemma_map_of_contains(self.entries@);
        }
        let n = self.entries.len();
        let mut i: usize = 0;
        while i < n
            invariant
                n == self.entries@.len(),
                i <= n,
                forall|j: int| 0 <= j < i ==> self.entries@[j].0@ != key@,
                unique_keys(self.entries@),
            decreases n - i,
        {
            if str_eq(self.entries[i].0.as_str(), key) {
                proof {
                    lemma_map_of_contains(self.entries@);
                    assert(self.entries@[i as int].0@ == key@);
                }
                return Some(i);
            }
            i = i + 1;
        }
        None
    }

    /// Whether `key` is present.
    pub fn contains_key(&self, key: &str) -> (b: bool)
        requires
            self.wf(),
        ensures
            b == self@.contains_key(key@),
    {
        self.position(key).is_some()
    }

    /// The value stored under `key`.
    pub fn get(&self, key: &str) -> (r: Option<&V>)
        requires
            self.wf(),
        ensures
            match r {
                Some(v) => self@.contains_key(key@) && *v == self@[key@],
                None => !self@.contains_key(key@),
            },
    {
        proof {
            lemma_map_of_contains(self.entries@);
        }
        match self.position(key) {
            Some(i) => Some(&self.entries[i].1),
            None => None,
        }
    }

    /// The key of the entry at `i`.
    pub fn key_at(&self, i: usize) -> (k: &String)
        requires
            i < self.pairs().len(),
        ensures
            *k == self.pairs()[i as int].0,
    {
        &self.entries[i].0
    }

    /// The value of the entry at `i`.
    pub fn value_at(&self, i: usize) -> (v: &V)
        requires
            i < self.pairs().len(),
        ensures
            *v == self.pairs()[i as int].1,
    {
        &self.entries[i].1
    }

    /// Stores `value` under `key`, replacing a previous value in place.
    pub fn insert(&mut self, key: String, value: V)
        requires
            old(self).wf(),
        ensures
            final(self).wf(),
            final(self)@ == old(self)@.insert(key@, value),
            old(self)@.contains_key(key@) ==> final(self).pairs().len() == old(self).pairs().len(),
            !old(self)@.contains_key(key@) ==> final(self).pairs() == old(self).pairs().push(
                (key, value),
            ),
    {
        proof {
            lemma_map_of_contains(self.entries@);
        }
        match self.position(key.as_str()) {
            Some(i) => {
                let ghost old_entries = self.entries@;
                let kk = key;
                self.entries.set(i, (kk, value));
                proof {
                    let ne = self.entries@;
                    assert(unique_keys(ne)) by {
                        assert forall|a: int, b: int| 0 <= a < b < ne.len() implies ne[a].0@
                            != ne[b].0@ by {
                            assert(old_entries[a].0@ != old_entries[b].0@);
                        }
                    }
                    lemma_map_of_contains(ne);
                    assert(map_of(ne) =~= map_of(old_entries).insert(key@, value)) by {
                        assert forall|k: Seq<char>| #[trigger]
                            map_of(ne).contains_key(k) == map_of(old_entries).insert(
                                key@,
                                value,
                            ).contains_key(k) by {
                            if map_of(old_entries).contains_key(k) {
                                let j = choose|j: int|
                                    0 <= j < old_entries.len() && old_entries[j].0@ == k;
                                assert(ne[j].0@ == k);
                            }
                            if map_of(ne).contains_key(k) {
                                let j = choose|j: int| 0 <= j < ne.len() && ne[j].0@ == k;
                                assert(old_entries[j].0@ == k);
                            }
                        }
                        assert forall|k: Seq<char>| #[trigger]
                            map_of(ne).contains_key(k) implies map_of(ne)[k] == map_of(
                            old_entries,
                        ).insert(key@, value)[k] by {
                            let j = choose|j: int| 0 <= j < ne.len() && ne[j].0@ == k;
                            assert(map_of(ne)[ne[j].0@] == ne[j].1);
                            if j != i {
                                assert(map_of(old_entries)[old_entries[j].0@]
                                    == old_entries[j].1);
                            }
                        }
                    }
                }
            },
            None => {
                let ghost old_entries = self.entries@;
                self.entries.push((key, value));
                proof {
                    let ne = self.entries@;
                    assert(ne.drop_last() =~= old_entries);
                    assert(unique_keys(ne)) by {
                        assert forall|a: int, b: int| 0 <= a < b < ne.len() implies ne[a].0@
                            != ne[b].0@ by {
                            if b < ne.len() - 1 {
                                assert(old_entries[a].0@ != old_entries[b].0@);
                            } else {
                                assert(old_entries[a].0@ != key@);
                            }
                        }
                    }
                }
            },
        }
    }

    /// Removes the entry for `key`, keeping the order of the others.
    pub fn remove(&mut self, key: &str) -> (r: Option<V>)
        requires
            old(self).wf(),
        ensures
            final(self).wf(),
            final(self)@ == old(self)@.remove(key@),
            match r {
                Some(v) => old(self)@.contains_key(key@) && v == old(self)@[key@],
                None => !old(self)@.contains_key(key@),
            },
    {
        proof {
            lemma_map_of_contains(self.entries@);
        }
        match self.position(key) {
            Some(i) => {
                let ghost old_entries = self.entries@;
                let (_, v) = self.entries.remove(i);
                proof {
                    let ne = self.entries@;
                    assert(ne =~= old_entries.remove(i as int));
                    assert(unique_keys(ne)) by {
                        assert forall|a: int, b: int| 0 <= a < b < ne.len() implies ne[a].0@
                            != ne[b].0@ by {
                            let oa = if a < i { a } else { a + 1 };
                            let ob = if b < i { b } else { b + 1 };
                            assert(ne[a] == old_entries[oa]);
                            assert(ne[b] == old_entries[ob]);
                            assert(old_entries[oa].0@ != old_entries[ob].0@);
                        }
                    }
                    lemma_map_of_contains(ne);
                    assert(map_of(ne) =~= map_of(old_entries).remove(key@)) by {
                        assert forall|k: Seq<char>| #[trigger]
                            map_of(ne).contains_key(k) == map_of(old_entries).remove(
                                key@,
                            ).contains_key(k) by {
                            if map_of(ne).contains_key(k) {
                                let j = choose|j: int| 0 <= j < ne.len() && ne[j].0@ == k;
                                let oj = if j < i { j } else { j + 1 };
                                assert(ne[j] == old_entries[oj]);
                                assert(old_entries[oj].0@ != old_entries[i as int].0@);
                            }
                            if map_of(old_entries).remove(key@).contains_key(k) {
                                let j = choose|j: int|
                                    0 <= j < old_entries.len() && old_entries[j].0@ == k;
                                assert(j != i);
                                let nj = if j < i { j } else { j - 1 };
                                assert(ne[nj] == old_entries[j]);
                            }
                        }
                        assert forall|k: Seq<char>| #[trigger]
                            map_of(ne).contains_key(k) implies map_of(ne)[k] == map_of(
                            old_entries,
                        ).remove(key@)[k] by {
                            let j = choose|j: int| 0 <= j < ne.len() && ne[j].0@ == k;
                            let oj = if j < i { j } else { j + 1 };
                            assert(ne[j] == old_entries[oj]);
                            assert(map_of(ne)[ne[j].0@] == ne[j].1);
                            assert(map_of(old_entries)[old_entries[oj].0@] == old_entries[oj].1);
                        }
                    }
                }
                Some(v)
            },
            None => {
                proof {
                    assert(map_of(self.entries@) =~= map_of(self.entries@).remove(key@));
                }
                None
            },
        }
    }
}

impl<V: Copy> StrMap<V> {
    /// A copy of the entries, in insertion order.
    pub fn to_pairs(&self) -> (r: Vec<(String, V)>)
        ensures
            r@.len() == self.pairs().len(),
            forall|i: int| 0 <= i < r@.len() ==> (#[trigger] r@[i]).0@ == self.pairs()[i].0@ && r@[i].1 == self.pairs()[i].1,
    {
        let n = self.entries.len();
        let mut r: Vec<(String, V)> = Vec::new();
        for i in 0..n
            invariant
                n == self.entries@.len(),
                r@.len() == i,
                forall|j: int| 0 <= j < i ==> (#[trigger] r@[j]).0@ == self.entries@[j].0@ && r@[j].1 == self.entries@[j].1,
        {
            let k = self.entries[i].0.clone();
            let v = self.entries[i].1;
            r.push((k, v));
        }
        r
    }

    /// An equal map.
    pub fn copy(&self) -> (r: Self)
        requires
            self.wf(),
        ensures
            r.wf(),
            r@ == self@,
    {
        let n = self.entries.len();
        let mut entries: Vec<(String, V)> = Vec::new();
        for i in 0..n
            invariant
                n == self.entries@.len(),
                entries@.len() == i,
                forall|j: int| 0 <= j < i ==> (#[trigger] entries@[j]).0@ == self.entries@[j].0@ && entries@[j].1 == self.entries@[j].1,
        {
            let k = self.entries[i].0.clone();
            let v = self.entries[i].1;
            entries.push((k, v));
        }
        proof {
            assert(unique_keys(entries@)) by {
                assert forall|a: int, b: int| 0 <= a < b < entries@.len() implies entries@[a].0@ != entries@[b].0@ by {
                    assert(self.entries@[a].0@ != self.entries@[b].0@);
                }
            }
            lemma_map_of_contains(entries@);
            lemma_map_of_contains(self.entries@);
            assert(map_of(entries@) =~= map_of(self.entries@)) by {
                assert forall|k: Seq<char>| #[trigger] map_of(entries@).contains_key(k) == map_of(self.entries@).contains_key(k) by {
                    if map_of(entries@).contains_key(k) {
                        let j = choose|j: int| 0 <= j < entries@.len() && entries@[j].0@ == k;
                        assert(self.entries@[j].0@ == k);
                    }
                    if map_of(self.entries@).contains_key(k) {
                        let j = choose|j: int| 0 <= j < self.entries@.len() && self.entries@[j].0@ == k;
                        assert(entries@[j].0@ == k);
                    }
                }
                assert forall|k: Seq<char>| #[trigger] map_of(entries@).contains_key(k) implies map_of(entries@)[k] == map_of(self.entries@)[k] by {
                    let j = choose|j: int| 0 <= j < entries@.len() && entries@[j].0@ == k;
                    assert(map_of(entries@)[entries@[j].0@] == entries@[j].1);
                    assert(map_of(self.entries@)[self.entries@[j].0@] == self.entries@[j].1);
                }
            }
        }
        StrMap { entries }
    }
}

/// Whether two strings hold the same characters.
pub fn str_eq(a: &str, b: &str) -> (r: bool)
    ensures
        r == (a@ == b@),
{
    let x = a.to_owned();
    let y = b.to_owned();
    x == y
}

} // verus!
