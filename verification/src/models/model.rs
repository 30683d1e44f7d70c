//! The model list: which model ids the gateway offers and who serves them.
use vstd::prelude::*;

use crate::routing::model_pools::ModelPoolIndex;
use crate::strmap::StrMap;
use crate::text::{
    clone_strings, insert_sorted_unique, lemma_lt_asymmetric, lemma_lt_irreflexive, lemma_lt_total, lemma_lt_transitive,
    lemma_view_set_take_next, seq_lt, str_eq_chars, str_lt, strictly_sorted, vec_contains_str, view_set,
};

verus! {

/// Creation time reported for every model.
pub const MODEL_CREATED_AT: i64 = 1_700_000_000;

/// One offered model id, the model it resolves to, and its providers.
#[derive(Debug, Clone)]
pub struct ModelResponse {
    pub id: String,
    pub object: &'static str,
    pub created: i64,
    pub owned_by: &'static str,
    pub resolved_model: String,
    pub providers: Vec<String>,
}

/// The list of offered models.
#[derive(Debug, Clone)]
pub struct ModelListResponse {
    pub object: &'static str,
    pub data: Vec<ModelResponse>,
}

/// A configured provider's name and upstream model.
#[derive(Debug, Clone)]
pub struct ProviderModel {
    pub name: String,
    pub model: String,
}

/// Some provider serves model `m` directly.
pub open spec fn serves_model(ps: Seq<ProviderModel>, m: Seq<char>) -> bool {
    exists|i: int| 0 <= i < ps.len() && #[trigger] ps[i].model@ == m
}

/// Names of the providers serving model `m`.
pub open spec fn names_for_model(ps: Seq<ProviderModel>, m: Seq<char>) -> Set<Seq<char>> {
    Set::new(|n: Seq<char>| exists|i: int| 0 <= i < ps.len() && #[trigger] ps[i].model@ == m && ps[i].name@ == n)
}

/// Provider `n` is a member of some pool.
pub open spec fn in_some_pool(pools: ModelPoolIndex, n: Seq<char>) -> bool {
    exists|k: Seq<char>| #[trigger] pools.pools().contains_key(k) && view_set(pools.pools()[k].members@).contains(n)
}

/// A model is internal to pools: all its providers are pool members and it is
/// neither a pool's public id nor an alias.
pub open spec fn hidden_model(ps: Seq<ProviderModel>, pools: ModelPoolIndex, aliases: Map<Seq<char>, String>, m: Seq<char>) -> bool {
    &&& forall|n: Seq<char>| #[trigger] names_for_model(ps, m).contains(n) ==> in_some_pool(pools, n)
    &&& !pools.public_ids().contains_key(m)
    &&& !aliases.contains_key(m)
}

pub open spec fn direct_listed(ps: Seq<ProviderModel>, pools: ModelPoolIndex, aliases: Map<Seq<char>, String>, m: Seq<char>) -> bool {
    serves_model(ps, m) && !hidden_model(ps, pools, aliases, m)
}

pub open spec fn alias_listed(ps: Seq<ProviderModel>, pools: ModelPoolIndex, aliases: Map<Seq<char>, String>, m: Seq<char>) -> bool {
    aliases.contains_key(m) && (serves_model(ps, aliases[m]@) || pools.pool_spec(aliases[m]@) is Some)
}

/// Model id `m` is offered: a directly served model that is not internal, a
/// pool's public id, or an alias of a served model or pool.
pub open spec fn listed(ps: Seq<ProviderModel>, pools: ModelPoolIndex, aliases: Map<Seq<char>, String>, m: Seq<char>) -> bool {
    direct_listed(ps, pools, aliases, m) || pools.pool_spec(m) is Some || alias_listed(ps, pools, aliases, m)
}

/// The providers listed for model `m`: its direct providers, sorted.
pub open spec fn direct_providers_ok(ps: Seq<ProviderModel>, m: Seq<char>, providers: Seq<String>) -> bool {
    strictly_sorted(providers) && view_set(providers) == names_for_model(ps, m)
}

/// The entry for an offered id: a direct model lists its providers, a pool id its
/// members, an alias the providers of the model it resolves to (direct first).
pub open spec fn entry_ok(ps: Seq<ProviderModel>, pools: ModelPoolIndex, aliases: Map<Seq<char>, String>, e: ModelResponse) -> bool {
    let m = e.id@;
    &&& e.object@ == "model"@
    &&& e.created == MODEL_CREATED_AT
    &&& e.owned_by@ == "rustygate"@
    &&& if direct_listed(ps, pools, aliases, m) {
        e.resolved_model@ == m && direct_providers_ok(ps, m, e.providers@)
    } else if pools.pool_spec(m) is Some {
        e.resolved_model@ == m && e.providers@ == pools.pool_spec(m)->0.members@
    } else {
        let t = aliases[m]@;
        &&& e.resolved_model@ == t
        &&& if serves_model(ps, t) {
            direct_providers_ok(ps, t, e.providers@)
        } else {
            e.providers@ == pools.pool_spec(t)->0.members@
        }
    }
}

/// Ids in strictly ascending order.
pub open spec fn ids_sorted(d: Seq<ModelResponse>) -> bool {
    forall|i: int, j: int| 0 <= i < j < d.len() ==> seq_lt(#[trigger] d[i].id@, #[trigger] d[j].id@)
}

/// The ids listed.
pub open spec fn has_id(d: Seq<ModelResponse>, m: Seq<char>) -> bool {
    exists|i: int| 0 <= i < d.len() && #[trigger] d[i].id@ == m
}

/// Whether an entry with id `id` is present.
fn contains_id(d: &Vec<ModelResponse>, id: &str) -> (b: bool)
    ensures
        b == has_id(d@, id@),
{
    let n = d.len();
    for i in 0..n
        invariant
            n == d@.len(),
            forall|j: int| 0 <= j < i ==> (#[trigger] d@[j]).id@ != id@,
    {
        if str_eq_chars(d[i].id.as_str(), id) {
            proof {
                assert(d@[i as int].id@ == id@);
            }
            return true;
        }
    }
    false
}

/// Inserts an entry with a new id at its place in id order.
fn insert_by_id(d: &mut Vec<ModelResponse>, e: ModelResponse)
    requires
        ids_sorted(old(d)@),
        !has_id(old(d)@, e.id@),
    ensures
        ids_sorted(final(d)@),
        forall|x: ModelResponse| final(d)@.contains(x) <==> (old(d)@.contains(x) || x == e),
        forall|m: Seq<char>| has_id(final(d)@, m) <==> (has_id(old(d)@, m) || m == e.id@),
{
    let n = d.len();
    let mut i: usize = 0;
    while i < n && str_lt(d[i].id.as_str(), e.id.as_str())
        invariant
            n == d@.len(),
            i <= n,
            d@ == old(d)@,
            forall|j: int| 0 <= j < i ==> seq_lt(#[trigger] d@[j].id@, e.id@),
        decreases n - i,
    {
        i = i + 1;
    }
    proof {
        if i < n {
            lemma_lt_total(d@[i as int].id@, e.id@);
            assert(d@[i as int].id@ != e.id@);
        }
    }
    let ghost before = d@;
    let ghost ev = e;
    d.insert(i, e);
    proof {
        assert forall|a: int, b: int| 0 <= a < b < d@.len() implies seq_lt(#[trigger] d@[a].id@, #[trigger] d@[b].id@) by {
            if a < i && b < i {
                assert(d@[a] == before[a] && d@[b] == before[b]);
            } else if a < i && b == i {
                assert(d@[a] == before[a]);
            } else if a < i && b > i {
                assert(d@[a] == before[a] && d@[b] == before[b - 1]);
                assert(seq_lt(before[a].id@, before[b - 1].id@));
            } else if a == i {
                assert(d@[b] == before[b - 1]);
                if b - 1 > i {
                    assert(seq_lt(before[i as int].id@, before[b - 1].id@));
                    lemma_lt_transitive(ev.id@, before[i as int].id@, before[b - 1].id@);
                }
            } else {
                assert(d@[a] == before[a - 1] && d@[b] == before[b - 1]);
            }
        }
        assert forall|x: ModelResponse| d@.contains(x) <==> (before.contains(x) || x == ev) by {
            if d@.contains(x) {
                let j = choose|j: int| 0 <= j < d@.len() && d@[j] == x;
                if j < i {
                    assert(before[j] == x);
                } else if j > i {
                    assert(before[j - 1] == x);
                }
            }
            if before.contains(x) {
                let j = choose|j: int| 0 <= j < before.len() && before[j] == x;
                if j < i {
                    assert(d@[j] == x);
                } else {
                    assert(d@[j + 1] == x);
                }
            }
            if x == ev {
                assert(d@[i as int] == x);
            }
        }
        assert forall|m: Seq<char>| has_id(d@, m) <==> (has_id(before, m) || m == ev.id@) by {
            if has_id(d@, m) {
                let j = choose|j: int| 0 <= j < d@.len() && #[trigger] d@[j].id@ == m;
                if j < i {
                    assert(before[j] == d@[j]);
                } else if j > i {
                    assert(before[j - 1] == d@[j]);
                }
            }
            if has_id(before, m) {
                let j = choose|j: int| 0 <= j < before.len() && #[trigger] before[j].id@ == m;
                if j < i {
                    assert(d@[j] == before[j]);
                } else {
                    assert(d@[j + 1] == before[j]);
                }
            }
            if m == ev.id@ {
                assert(d@[i as int].id@ == m);
            }
        }
    }
}

/// The distinct upstream models, sorted.
fn distinct_models(ps: &[ProviderModel]) -> (r: Vec<String>)
    ensures
        strictly_sorted(r@),
        forall|m: Seq<char>| view_set(r@).contains(m) <==> serves_model(ps@, m),
{
    let n = ps.len();
    let mut r: Vec<String> = Vec::new();
    for i in 0..n
        invariant
            n == ps@.len(),
            strictly_sorted(r@),
            forall|m: Seq<char>| view_set(r@).contains(m) <==> exists|j: int| 0 <= j < i && #[trigger] ps@[j].model@ == m,
    {
        insert_sorted_unique(&mut r, ps[i].model.clone());
        proof {
            assert forall|m: Seq<char>| view_set(r@).contains(m) <==> exists|j: int| 0 <= j < i + 1 && #[trigger] ps@[j].model@ == m by {
                if m == ps@[i as int].model@ {
                    assert(0 <= i < i + 1 && ps@[i as int].model@ == m);
                }
                if exists|j: int| 0 <= j < i + 1 && #[trigger] ps@[j].model@ == m {
                    let j = choose|j: int| 0 <= j < i + 1 && #[trigger] ps@[j].model@ == m;
                    if j < i {
                        assert(exists|j2: int| 0 <= j2 < i && #[trigger] ps@[j2].model@ == m);
                    }
                }
            }
        }
    }
    r
}

/// Names of the providers serving `model`, sorted.
fn provider_names_for(ps: &[ProviderModel], model: &str) -> (r: Vec<String>)
    ensures
        direct_providers_ok(ps@, model@, r@),
{
    let n = ps.len();
    let mut r: Vec<String> = Vec::new();
    for i in 0..n
        invariant
            n == ps@.len(),
            strictly_sorted(r@),
            forall|x: Seq<char>| view_set(r@).contains(x) <==> exists|j: int| 0 <= j < i && #[trigger] ps@[j].model@ == model@ && ps@[j].name@ == x,
    {
        if str_eq_chars(ps[i].model.as_str(), model) {
            insert_sorted_unique(&mut r, ps[i].name.clone());
        }
        proof {
            assert forall|x: Seq<char>| view_set(r@).contains(x) <==> exists|j: int| 0 <= j < i + 1 && #[trigger] ps@[j].model@ == model@ && ps@[j].name@ == x by {
                if ps@[i as int].model@ == model@ && x == ps@[i as int].name@ {
                    assert(0 <= i < i + 1 && ps@[i as int].model@ == model@ && ps@[i as int].name@ == x);
                }
                if exists|j: int| 0 <= j < i + 1 && #[trigger] ps@[j].model@ == model@ && ps@[j].name@ == x {
                    let j = choose|j: int| 0 <= j < i + 1 && #[trigger] ps@[j].model@ == model@ && ps@[j].name@ == x;
                    if j < i {
                        assert(exists|j2: int| 0 <= j2 < i && #[trigger] ps@[j2].model@ == model@ && ps@[j2].name@ == x);
                    }
                }
            }
        }
    }
    proof {
        assert(view_set(r@) =~= names_for_model(ps@, model@));
    }
    r
}

/// Whether some provider serves `model` directly.
fn model_served(ps: &[ProviderModel], model: &str) -> (b: bool)
    ensures
        b == serves_model(ps@, model@),
{
    let n = ps.len();
    for i in 0..n
        invariant
            n == ps@.len(),
            forall|j: int| 0 <= j < i ==> (#[trigger] ps@[j]).model@ != model@,
    {
        if str_eq_chars(ps[i].model.as_str(), model) {
            proof {
                assert(ps@[i as int].model@ == model@);
            }
            return true;
        }
    }
    false
}

/// Whether every provider in `names` belongs to some pool.
fn all_in_pools(pools: &ModelPoolIndex, names: &Vec<String>) -> (b: bool)
    requires
        pools.wf(),
    ensures
        b == forall|n: Seq<char>| view_set(names@).contains(n) ==> in_some_pool(*pools, n),
{
    let k = names.len();
    for i in 0..k
        invariant
            k == names@.len(),
            pools.wf(),
            forall|j: int| 0 <= j < i ==> in_some_pool(*pools, (#[trigger] names@[j])@),
    {
        if !pools.is_provider_in_any_pool(names[i].as_str()) {
            proof {
                assert(view_set(names@).contains(names@[i as int]@));
                assert(!in_some_pool(*pools, names@[i as int]@));
            }
            return false;
        }
    }
    proof {
        assert forall|n: Seq<char>| view_set(names@).contains(n) implies in_some_pool(*pools, n) by {
            let j = choose|j: int| 0 <= j < names@.len() && names@[j]@ == n;
            assert(in_some_pool(*pools, names@[j]@));
        }
    }
    true
}

fn model_entry(id: String, resolved_model: String, providers: Vec<String>) -> (e: ModelResponse)
    ensures
        e.id@ == id@,
        e.resolved_model@ == resolved_model@,
        e.providers@ == providers@,
        e.object@ == "model"@,
        e.created == MODEL_CREATED_AT,
        e.owned_by@ == "rustygate"@,
{
    ModelResponse { id, object: "model", created: MODEL_CREATED_AT, owned_by: "rustygate", resolved_model, providers }
}

/// The models the gateway offers, by id: directly served models that are not
/// internal to pools, every pool's public ids, and aliases of served models.
pub fn list_models(providers: &[ProviderModel], model_pools: &ModelPoolIndex, model_aliases: &StrMap<String>) -> (r: ModelListResponse)
    requires
        model_pools.wf(),
        model_aliases.wf(),
    ensures
        r.object@ == "list"@,
        ids_sorted(r.data@),
        forall|m: Seq<char>| has_id(r.data@, m) <==> listed(providers@, *model_pools, model_aliases@, m),
        forall|i: int| 0 <= i < r.data@.len() ==> entry_ok(providers@, *model_pools, model_aliases@, #[trigger] r.data@[i]),
        forall|i: int| 0 <= i < r.data@.len() ==> strictly_sorted(#[trigger] r.data@[i].providers@),
{
    let ghost ps = providers@;
    let ghost pools = *model_pools;
    let ghost aliases = model_aliases@;
    let models = distinct_models(providers);
    let public_ids = model_pools.public_model_ids();
    let mut out: Vec<ModelResponse> = Vec::new();
    let nm = models.len();
    for k in 0..nm
        invariant
            nm == models@.len(),
            model_pools.wf(),
            model_aliases.wf(),
            ps == providers@,
            pools == *model_pools,
            aliases == model_aliases@,
            forall|m: Seq<char>| view_set(models@).contains(m) <==> serves_model(ps, m),
            strictly_sorted(models@),
            view_set(public_ids@) == pools.public_ids().dom(),
            ids_sorted(out@),
            forall|i: int| 0 <= i < out@.len() ==> entry_ok(ps, pools, aliases, #[trigger] out@[i]),
            forall|m: Seq<char>| has_id(out@, m) <==> (direct_listed(ps, pools, aliases, m) && view_set(models@.take(k as int)).contains(m)),
    {
        let m = &models[k];
        proof {
            lemma_view_set_take_next(models@, k as int);
            assert(view_set(models@).contains(models@[k as int]@));
        }
        let names = provider_names_for(providers, m.as_str());
        let pooled = all_in_pools(model_pools, &names);
        let is_public = vec_contains_str(&public_ids, m.as_str());
        let is_alias = model_aliases.contains_key(m.as_str());
        let hidden = pooled && !is_public && !is_alias;
        proof {
            assert(hidden == hidden_model(ps, pools, aliases, m@));
        }
        if !hidden {
            proof {
                if has_id(out@, m@) {
                    assert(view_set(models@.take(k as int)).contains(m@));
                    let j = choose|j: int| 0 <= j < models@.take(k as int).len() && #[trigger] models@.take(k as int)[j]@ == m@;
                    assert(models@[j] == models@.take(k as int)[j]);
                    assert(seq_lt(models@[j]@, models@[k as int]@));
                    lemma_lt_irreflexive(m@);
                }
            }
            let e = model_entry(m.clone(), m.clone(), names);
            insert_by_id(&mut out, e);
            proof {
                assert forall|i: int| 0 <= i < out@.len() implies entry_ok(ps, pools, aliases, #[trigger] out@[i]) by {
                    assert(out@.contains(out@[i]));
                }
            }
        } else {
            proof {
                assert(!direct_listed(ps, pools, aliases, m@));
            }
        }
    }
    proof {
        assert(models@.take(nm as int) =~= models@);
    }
    let np = public_ids.len();
    for k in 0..np
        invariant
            np == public_ids@.len(),
            model_pools.wf(),
            model_aliases.wf(),
            ps == providers@,
            pools == *model_pools,
            aliases == model_aliases@,
            view_set(public_ids@) == pools.public_ids().dom(),
            ids_sorted(out@),
            forall|i: int| 0 <= i < out@.len() ==> entry_ok(ps, pools, aliases, #[trigger] out@[i]),
            forall|m: Seq<char>| has_id(out@, m) <==> (direct_listed(ps, pools, aliases, m) || (pools.pool_spec(m) is Some && view_set(public_ids@.take(k as int)).contains(m))),
    {
        let id = &public_ids[k];
        proof {
            lemma_view_set_take_next(public_ids@, k as int);
        }
        if let Some(members) = model_pools.providers_for_model_id(id.as_str()) {
            if !contains_id(&out, id.as_str()) {
                let e = model_entry(id.clone(), id.clone(), members);
                insert_by_id(&mut out, e);
                proof {
                    assert forall|i: int| 0 <= i < out@.len() implies entry_ok(ps, pools, aliases, #[trigger] out@[i]) by {
                        assert(out@.contains(out@[i]));
                    }
                }
            }
        }
    }
    proof {
        assert(public_ids@.take(np as int) =~= public_ids@);
        assert forall|m: Seq<char>| pools.pool_spec(m) is Some implies view_set(public_ids@).contains(m) by {
            assert(pools.public_ids().dom().contains(m));
        }
        model_aliases.lemma_pairs();
    }
    let na = model_aliases.len();
    for k in 0..na
        invariant
            na == model_aliases.pairs().len(),
            model_pools.wf(),
            model_aliases.wf(),
            ps == providers@,
            pools == *model_pools,
            aliases == model_aliases@,
            aliases == crate::strmap::map_of(model_aliases.pairs()),
            forall|i: int| 0 <= i < model_aliases.pairs().len() ==> #[trigger] aliases[model_aliases.pairs()[i].0@] == model_aliases.pairs()[i].1,
            forall|a: Seq<char>| #[trigger] aliases.contains_key(a) <==> (exists|i: int| 0 <= i < model_aliases.pairs().len() && model_aliases.pairs()[i].0@ == a),
            ids_sorted(out@),
            forall|i: int| 0 <= i < out@.len() ==> entry_ok(ps, pools, aliases, #[trigger] out@[i]),
            forall|m: Seq<char>| has_id(out@, m) <==> (direct_listed(ps, pools, aliases, m) || pools.pool_spec(m) is Some || (alias_listed(ps, pools, aliases, m)
                && exists|i: int| 0 <= i < k && #[trigger] model_aliases.pairs()[i].0@ == m)),
    {
        let alias = model_aliases.key_at(k);
        let target = model_aliases.value_at(k);
        proof {
            assert(aliases[alias@] == *target);
            assert(aliases.contains_key(alias@));
        }
        if !contains_id(&out, alias.as_str()) {
            if model_served(providers, target.as_str()) {
                let names = provider_names_for(providers, target.as_str());
                let e = model_entry(alias.clone(), target.clone(), names);
                insert_by_id(&mut out, e);
                proof {
                    assert forall|i: int| 0 <= i < out@.len() implies entry_ok(ps, pools, aliases, #[trigger] out@[i]) by {
                        assert(out@.contains(out@[i]));
                    }
                }
            } else if let Some(members) = model_pools.providers_for_model_id(target.as_str()) {
                let e = model_entry(alias.clone(), target.clone(), members);
                insert_by_id(&mut out, e);
                proof {
                    assert forall|i: int| 0 <= i < out@.len() implies entry_ok(ps, pools, aliases, #[trigger] out@[i]) by {
                        assert(out@.contains(out@[i]));
                    }
                }
            }
        }
        proof {
            assert forall|m: Seq<char>| has_id(out@, m) <==> (direct_listed(ps, pools, aliases, m) || pools.pool_spec(m) is Some || (alias_listed(ps, pools, aliases, m)
                && exists|i: int| 0 <= i < k + 1 && #[trigger] model_aliases.pairs()[i].0@ == m)) by {
                if alias_listed(ps, pools, aliases, m) && exists|i: int| 0 <= i < k + 1 && #[trigger] model_aliases.pairs()[i].0@ == m {
                    let i = choose|i: int| 0 <= i < k + 1 && #[trigger] model_aliases.pairs()[i].0@ == m;
                    if i < k {
                        assert(exists|i2: int| 0 <= i2 < k && #[trigger] model_aliases.pairs()[i2].0@ == m);
                    }
                }
                if m == alias@ {
                    assert(model_aliases.pairs()[k as int].0@ == m);
                }
            }
        }
    }
    proof {
        assert forall|m: Seq<char>| has_id(out@, m) <==> listed(ps, pools, aliases, m) by {
            if alias_listed(ps, pools, aliases, m) {
                assert(aliases.contains_key(m));
            }
        }
        model_pools.lemma_members_sorted();
        assert forall|i: int| 0 <= i < out@.len() implies strictly_sorted(#[trigger] out@[i].providers@) by {
            let e = out@[i];
            assert(entry_ok(ps, pools, aliases, e));
            let m = e.id@;
            assert(has_id(out@, m));
            assert(listed(ps, pools, aliases, m));
            if !direct_listed(ps, pools, aliases, m) {
                if pools.pool_spec(m) is Some {
                    assert(pools.pools().contains_key(pools.public_ids()[m]));
                } else {
                    let t = aliases[m]@;
                    if !serves_model(ps, t) && pools.pool_spec(t) is Some {
                        assert(pools.pools().contains_key(pools.public_ids()[t]));
                    }
                }
            }
        }
    }
    ModelListResponse { object: "list", data: out }
}

} // verus!
