//! Model pools: public model names served by a set of member providers.
use vstd::prelude::*;

use crate::config::{ModelPoolConfig, RoutingPolicy};
use crate::strmap::StrMap;
use crate::text::{clone_strings, insert_sorted_unique, lemma_view_set_take_next, str_eq_chars, strictly_sorted, view_set};

verus! {

/// A pool as served: its public model ids and members, both sorted and without repeats.
#[derive(Debug, Clone)]
pub struct ModelPool {
    pub name: String,
    pub public_model_ids: Vec<String>,
    pub routing_policy: Option<RoutingPolicy>,
    pub members: Vec<String>,
}

/// The public ids of a pool: its name and its aliases.
pub open spec fn config_ids(c: ModelPoolConfig) -> Set<Seq<char>> {
    view_set(c.aliases@).insert(c.name@)
}

/// The pool configuration for each pool name (a later pool of a name wins).
pub open spec fn pools_spec(configs: Seq<ModelPoolConfig>) -> Map<Seq<char>, ModelPoolConfig>
    decreases configs.len(),
{
    if configs.len() == 0 {
        Map::empty()
    } else {
        pools_spec(configs.drop_last()).insert(configs.last().name@, configs.last())
    }
}

/// The pool that serves each public id (a later pool naming the id wins).
pub open spec fn public_ids_spec(configs: Seq<ModelPoolConfig>) -> Map<Seq<char>, Seq<char>>
    decreases configs.len(),
{
    if configs.len() == 0 {
        Map::empty()
    } else {
        let c = configs.last();
        public_ids_spec(configs.drop_last()).union_prefer_right(
            Map::new(|k: Seq<char>| config_ids(c).contains(k), |k: Seq<char>| c.name@),
        )
    }
}

/// `p` serves what `c` configures.
pub open spec fn pool_matches(p: ModelPool, c: ModelPoolConfig) -> bool {
    &&& p.name@ == c.name@
    &&& strictly_sorted(p.public_model_ids@)
    &&& view_set(p.public_model_ids@) == config_ids(c)
    &&& p.routing_policy == c.routing_policy
    &&& strictly_sorted(p.members@)
    &&& view_set(p.members@) == view_set(c.members@)
}

/// Pools by name and the pool of each public model id.
pub struct ModelPoolIndex {
    pools_by_name: StrMap<ModelPool>,
    pool_by_public_model_id: StrMap<String>,
}

impl ModelPoolIndex {
    pub closed spec fn wf(&self) -> bool {
        &&& self.pools_by_name.wf()
        &&& self.pool_by_public_model_id.wf()
        &&& forall|k: Seq<char>| #[trigger] self.pools_by_name@.contains_key(k) ==> strictly_sorted(self.pools_by_name@[k].members@)
    }

    /// Pools by name.
    pub closed spec fn pools(&self) -> Map<Seq<char>, ModelPool> {
        self.pools_by_name@
    }

    /// Pool name of each public model id.
    pub closed spec fn public_ids(&self) -> Map<Seq<char>, Seq<char>> {
        self.pool_by_public_model_id@.map_values(|s: String| s@)
    }

    /// A well-formed index keeps every pool's members strictly ascending.
    pub proof fn lemma_members_sorted(&self)
        requires
            self.wf(),
        ensures
            forall|k: Seq<char>| #[trigger] self.pools().contains_key(k) ==> strictly_sorted(self.pools()[k].members@),
    {
    }

    /// The pool serving public model id `model`, if any.
    pub open spec fn pool_spec(&self, model: Seq<char>) -> Option<ModelPool> {
        if self.public_ids().contains_key(model) && self.pools().contains_key(self.public_ids()[model]) {
            Some(self.pools()[self.public_ids()[model]])
        } else {
            None
        }
    }

    /// An index with no pools.
    pub fn new() -> (r: Self)
        ensures
            r.wf(),
            r.pools() == Map::<Seq<char>, ModelPool>::empty(),
            r.public_ids() == Map::<Seq<char>, Seq<char>>::empty(),
    {
        let r = ModelPoolIndex { pools_by_name: StrMap::new(), pool_by_public_model_id: StrMap::new() };
        proof {
            assert(r.public_ids() =~= Map::<Seq<char>, Seq<char>>::empty());
        }
        r
    }

    /// The index of the configured pools.
    pub fn from_configs(configs: &[ModelPoolConfig]) -> (r: Self)
        ensures
            r.wf(),
            r.pools().dom() == pools_spec(configs@).dom(),
            forall|k: Seq<char>| #[trigger] r.pools().contains_key(k) ==> pool_matches(r.pools()[k], pools_spec(configs@)[k]),
            r.public_ids() == public_ids_spec(configs@),
    {
        let mut pools_by_name: StrMap<ModelPool> = StrMap::new();
        let mut by_id: StrMap<String> = StrMap::new();
        let n = configs.len();
        for i in 0..n
            invariant
                n == configs@.len(),
                pools_by_name.wf(),
                by_id.wf(),
                pools_by_name@.dom() == pools_spec(configs@.take(i as int)).dom(),
                forall|k: Seq<char>| #[trigger] pools_by_name@.contains_key(k) ==> pool_matches(
                    pools_by_name@[k],
                    pools_spec(configs@.take(i as int))[k],
                ),
                by_id@.map_values(|s: String| s@) == public_ids_spec(configs@.take(i as int)),
        {
            let c = &configs[i];
            proof {
                assert(configs@.take(i + 1).drop_last() =~= configs@.take(i as int));
                assert(configs@.take(i + 1).last() == configs@[i as int]);
            }
            let mut ids: Vec<String> = Vec::new();
            insert_sorted_unique(&mut ids, c.name.clone());
            let na = c.aliases.len();
            for j in 0..na
                invariant
                    na == c.aliases@.len(),
                    strictly_sorted(ids@),
                    view_set(ids@) == view_set(c.aliases@.take(j as int)).insert(c.name@),
            {
                insert_sorted_unique(&mut ids, c.aliases[j].clone());
                proof {
                    lemma_view_set_take_next(c.aliases@, j as int);
                }
            }
            proof {
                assert(c.aliases@.take(na as int) =~= c.aliases@);
            }
            let mut members: Vec<String> = Vec::new();
            let nm = c.members.len();
            proof {
                assert(view_set(members@) =~= view_set(c.members@.take(0)));
            }
            for j in 0..nm
                invariant
                    nm == c.members@.len(),
                    strictly_sorted(members@),
                    view_set(members@) == view_set(c.members@.take(j as int)),
            {
                insert_sorted_unique(&mut members, c.members[j].clone());
                proof {
                    lemma_view_set_take_next(c.members@, j as int);
                }
            }
            proof {
                assert(c.members@.take(nm as int) =~= c.members@);
            }
            let nids = ids.len();
            let ghost start_ids = by_id@.map_values(|s: String| s@);
            for j in 0..nids
                invariant
                    nids == ids@.len(),
                    by_id.wf(),
                    by_id@.map_values(|s: String| s@) == start_ids.union_prefer_right(
                        Map::new(|k: Seq<char>| view_set(ids@.take(j as int)).contains(k), |k: Seq<char>| c.name@),
                    ),
            {
                let ghost before = by_id@;
                by_id.insert(ids[j].clone(), c.name.clone());
                proof {
                    lemma_view_set_take_next(ids@, j as int);
                    let lhs = by_id@.map_values(|s: String| s@);
                    let rhs = start_ids.union_prefer_right(
                        Map::new(|k: Seq<char>| view_set(ids@.take(j + 1)).contains(k), |k: Seq<char>| c.name@),
                    );
                    let prev = start_ids.union_prefer_right(
                        Map::new(|k: Seq<char>| view_set(ids@.take(j as int)).contains(k), |k: Seq<char>| c.name@),
                    );
                    assert(before.map_values(|s: String| s@) == prev);
                    assert(by_id@ == before.insert(ids@[j as int]@, c.name));
                    let mj = Map::new(|k: Seq<char>| view_set(ids@.take(j as int)).contains(k), |k: Seq<char>| c.name@);
                    let mj1 = Map::new(|k: Seq<char>| view_set(ids@.take(j + 1)).contains(k), |k: Seq<char>| c.name@);
                    assert(mj1 =~= mj.insert(ids@[j as int]@, c.name@));
                    assert(rhs =~= prev.insert(ids@[j as int]@, c.name@));
                    assert(lhs =~= before.map_values(|s: String| s@).insert(ids@[j as int]@, c.name@));
                    assert(lhs =~= rhs);
                }
            }
            proof {
                assert(ids@.take(nids as int) =~= ids@);
                assert(Map::new(|k: Seq<char>| view_set(ids@).contains(k), |k: Seq<char>| c.name@) =~= Map::new(
                    |k: Seq<char>| config_ids(*c).contains(k),
                    |k: Seq<char>| c.name@,
                ));
            }
            let pool = ModelPool {
                name: c.name.clone(),
                public_model_ids: ids,
                routing_policy: c.routing_policy,
                members,
            };
            let ghost before_pools = pools_by_name@;
            pools_by_name.insert(c.name.clone(), pool);
            proof {
                let sp = pools_spec(configs@.take(i + 1));
                assert(sp == pools_spec(configs@.take(i as int)).insert(c.name@, *c));
                assert(pools_by_name@.dom() =~= sp.dom());
                assert forall|k: Seq<char>| #[trigger] pools_by_name@.contains_key(k) implies pool_matches(pools_by_name@[k], sp[k]) by {
                    if k != c.name@ {
                        assert(before_pools.contains_key(k));
                    }
                }
            }
        }
        proof {
            assert(configs@.take(n as int) =~= configs@);
        }
        ModelPoolIndex { pools_by_name, pool_by_public_model_id: by_id }
    }

    /// The pool serving public model id `model`.
    pub fn pool_for_public_model(&self, model: &str) -> (r: Option<&ModelPool>)
        requires
            self.wf(),
        ensures
            match r {
                Some(p) => self.public_ids().contains_key(model@) && self.pools().contains_key(self.public_ids()[model@])
                    && *p == self.pools()[self.public_ids()[model@]],
                None => !(self.public_ids().contains_key(model@) && self.pools().contains_key(self.public_ids()[model@])),
            },
    {
        match self.pool_by_public_model_id.get(model) {
            Some(name) => self.pools_by_name.get(name.as_str()),
            None => None,
        }
    }

    /// The members of the pool serving `model`.
    pub fn members_for_public_model(&self, model: &str) -> (r: Option<&Vec<String>>)
        requires
            self.wf(),
        ensures
            match r {
                Some(m) => self.public_ids().contains_key(model@) && self.pools().contains_key(self.public_ids()[model@])
                    && *m == self.pools()[self.public_ids()[model@]].members,
                None => !(self.public_ids().contains_key(model@) && self.pools().contains_key(self.public_ids()[model@])),
            },
    {
        match self.pool_for_public_model(model) {
            Some(p) => Some(&p.members),
            None => None,
        }
    }

    /// The members of the pool serving `model`, sorted.
    pub fn providers_for_model_id(&self, model: &str) -> (r: Option<Vec<String>>)
        requires
            self.wf(),
        ensures
            match r {
                Some(m) => self.public_ids().contains_key(model@) && self.pools().contains_key(self.public_ids()[model@])
                    && m@ == self.pools()[self.public_ids()[model@]].members@ && strictly_sorted(m@),
                None => !(self.public_ids().contains_key(model@) && self.pools().contains_key(self.public_ids()[model@])),
            },
    {
        match self.members_for_public_model(model) {
            Some(m) => Some(clone_strings(m)),
            None => None,
        }
    }

    /// Every public model id, sorted.
    pub fn public_model_ids(&self) -> (r: Vec<String>)
        requires
            self.wf(),
        ensures
            strictly_sorted(r@),
            view_set(r@) == self.public_ids().dom(),
    {
        proof {
            self.pool_by_public_model_id.lemma_pairs();
        }
        let n = self.pool_by_public_model_id.len();
        let mut r: Vec<String> = Vec::new();
        for i in 0..n
            invariant
                n == self.pool_by_public_model_id.pairs().len(),
                self.pool_by_public_model_id.wf(),
                strictly_sorted(r@),
                view_set(r@) == Set::new(|k: Seq<char>| exists|j: int| 0 <= j < i && self.pool_by_public_model_id.pairs()[j].0@ == k),
        {
            let k = self.pool_by_public_model_id.key_at(i).clone();
            insert_sorted_unique(&mut r, k);
            proof {
                assert(view_set(r@) =~= Set::new(|k: Seq<char>| exists|j: int| 0 <= j < i + 1 && self.pool_by_public_model_id.pairs()[j].0@ == k)) by {
                    assert forall|q: Seq<char>| #[trigger] view_set(r@).contains(q) implies (exists|j: int| 0 <= j < i + 1 && self.pool_by_public_model_id.pairs()[j].0@ == q) by {
                        if q == self.pool_by_public_model_id.pairs()[i as int].0@ {
                            assert(0 <= i < i + 1);
                        }
                    }
                }
            }
        }
        proof {
            self.pool_by_public_model_id.lemma_pairs();
            assert(view_set(r@) =~= self.public_ids().dom());
        }
        r
    }

    /// Whether `provider_name` is a member of some pool.
    pub fn is_provider_in_any_pool(&self, provider_name: &str) -> (b: bool)
        requires
            self.wf(),
        ensures
            b == exists|k: Seq<char>| #[trigger] self.pools().contains_key(k) && view_set(self.pools()[k].members@).contains(provider_name@),
    {
        proof {
            self.pools_by_name.lemma_pairs();
        }
        let n = self.pools_by_name.len();
        for i in 0..n
            invariant
                n == self.pools_by_name.pairs().len(),
                self.pools_by_name.wf(),
                forall|j: int| 0 <= j < i ==> !view_set(#[trigger] self.pools_by_name.pairs()[j].1.members@).contains(provider_name@),
        {
            let pool = self.pools_by_name.value_at(i);
            let m = pool.members.len();
            for t in 0..m
                invariant
                    m == pool.members@.len(),
                    i < self.pools_by_name.pairs().len(),
                    self.pools_by_name.wf(),
                    *pool == self.pools_by_name.pairs()[i as int].1,
                    forall|q: int| 0 <= q < t ==> pool.members@[q]@ != provider_name@,
            {
                if str_eq_chars(pool.members[t].as_str(), provider_name) {
                    proof {
                        self.pools_by_name.lemma_pairs();
                        let key = self.pools_by_name.pairs()[i as int].0@;
                        assert(self.pools().contains_key(key));
                        assert(self.pools()[key] == *pool);
                        assert(pool.members@[t as int]@ == provider_name@);
                        assert(view_set(self.pools()[key].members@).contains(provider_name@));
                    }
                    return true;
                }
            }
        }
        proof {
            self.pools_by_name.lemma_pairs();
            assert forall|k: Seq<char>| #[trigger] self.pools().contains_key(k) implies !view_set(self.pools()[k].members@).contains(provider_name@) by {
                let j = choose|j: int| 0 <= j < self.pools_by_name.pairs().len() && self.pools_by_name.pairs()[j].0@ == k;
                assert(self.pools()[self.pools_by_name.pairs()[j].0@] == self.pools_by_name.pairs()[j].1);
            }
        }
        false
    }

    /// Whether no pool is configured.
    pub fn is_empty(&self) -> (b: bool)
        requires
            self.wf(),
        ensures
            b == (self.pools().len() == 0),
    {
        self.pools_by_name.len() == 0
    }
}

} // verus!
