//! Associations between API keys and models.

use vstd::prelude::*;
use crate::model_manager::ModelStore;
use crate::models::Model;
use crate::sorting::keep;
use crate::text::owned;

verus! {

/// One (key, model) association.
#[derive(Debug, Clone)]
pub struct KeyModelEntry {
    pub key_id: String,
    pub model_id: String,
}

/// All key-model associations.
#[derive(Debug, Clone)]
pub struct KeyModelMap {
    pub mappings: Vec<KeyModelEntry>,
}

impl KeyModelMap {
    /// No association.
    pub fn new() -> (r: Self)
        ensures
            r.mappings@.len() == 0,
    {
        KeyModelMap { mappings: Vec::new() }
    }
}

/// Whether an entry is not for the given model.
pub open spec fn not_of_model(model_id: Seq<char>) -> spec_fn(KeyModelEntry) -> bool {
    |e: KeyModelEntry| e.model_id@ != model_id
}

/// Whether an entry is not for the given key.
pub open spec fn not_of_key(key_id: Seq<char>) -> spec_fn(KeyModelEntry) -> bool {
    |e: KeyModelEntry| e.key_id@ != key_id
}

/// Whether an entry is not the given pair.
pub open spec fn not_pair(key_id: Seq<char>, model_id: Seq<char>) -> spec_fn(KeyModelEntry) -> bool {
    |e: KeyModelEntry| !(e.key_id@ == key_id && e.model_id@ == model_id)
}

/// Whether the map holds the pair.
pub open spec fn has_pair(m: Seq<KeyModelEntry>, key_id: Seq<char>, model_id: Seq<char>) -> bool {
    exists|i: int| 0 <= i < m.len() && (#[trigger] m[i]).key_id@ == key_id && m[i].model_id@ == model_id
}

/// The keys associated with `model_id`, in order.
pub open spec fn keys_of(m: Seq<KeyModelEntry>, model_id: Seq<char>) -> Seq<Seq<char>>
    decreases m.len(),
{
    if m.len() == 0 {
        Seq::empty()
    } else if m.last().model_id@ == model_id {
        keys_of(m.drop_last(), model_id).push(m.last().key_id@)
    } else {
        keys_of(m.drop_last(), model_id)
    }
}

/// The models associated with `key_id`, in order.
pub open spec fn models_of(m: Seq<KeyModelEntry>, key_id: Seq<char>) -> Seq<Seq<char>>
    decreases m.len(),
{
    if m.len() == 0 {
        Seq::empty()
    } else if m.last().key_id@ == key_id {
        models_of(m.drop_last(), key_id).push(m.last().model_id@)
    } else {
        models_of(m.drop_last(), key_id)
    }
}

/// The character views of a list of strings.
pub open spec fn string_views(v: Seq<String>) -> Seq<Seq<char>> {
    v.map_values(|s: String| s@)
}

/// The ids of the keys associated with a model, in order.
pub fn get_keys_for_model(map: &KeyModelMap, model_id: &str) -> (r: Result<Vec<String>, String>)
    ensures
        r matches Ok(v) && string_views(v@) == keys_of(map.mappings@, model_id@),
{
    let mid = owned(model_id);
    let mut out: Vec<String> = Vec::new();
    let mut i: usize = 0;
    while i < map.mappings.len()
        invariant
            i <= map.mappings.len(),
            mid@ == model_id@,
            string_views(out@) == keys_of(map.mappings@.take(i as int), model_id@),
        decreases map.mappings.len() - i,
    {
        proof {
            assert(map.mappings@.take(i + 1).drop_last() =~= map.mappings@.take(i as int));
            assert(map.mappings@.take(i + 1).last() == map.mappings@[i as int]);
        }
        if map.mappings[i].model_id == mid {
            let ghost before = out@;
            out.push(map.mappings[i].key_id.clone());
            proof {
                assert(string_views(out@) =~= string_views(before).push(map.mappings@[i as int].key_id@));
            }
        }
        i += 1;
    }
    proof {
        assert(map.mappings@.take(i as int) =~= map.mappings@);
    }
    Ok(out)
}

/// The ids of the models associated with a key, in order.
pub fn get_models_for_key(map: &KeyModelMap, key_id: &str) -> (r: Result<Vec<String>, String>)
    ensures
        r matches Ok(v) && string_views(v@) == models_of(map.mappings@, key_id@),
{
    let kid = owned(key_id);
    let mut out: Vec<String> = Vec::new();
    let mut i: usize = 0;
    while i < map.mappings.len()
        invariant
            i <= map.mappings.len(),
            kid@ == key_id@,
            string_views(out@) == models_of(map.mappings@.take(i as int), key_id@),
        decreases map.mappings.len() - i,
    {
        proof {
            assert(map.mappings@.take(i + 1).drop_last() =~= map.mappings@.take(i as int));
            assert(map.mappings@.take(i + 1).last() == map.mappings@[i as int]);
        }
        if map.mappings[i].key_id == kid {
            let ghost before = out@;
            out.push(map.mappings[i].model_id.clone());
            proof {
                assert(string_views(out@) =~= string_views(before).push(map.mappings@[i as int].model_id@));
            }
        }
        i += 1;
    }
    proof {
        assert(map.mappings@.take(i as int) =~= map.mappings@);
    }
    Ok(out)
}

/// Associates a key with a model; an existing association is left as is.
pub fn associate_key_with_model(map: &mut KeyModelMap, key_id: &str, model_id: &str) -> (r: Result<(), String>)
    ensures
        r is Ok,
        has_pair(old(map).mappings@, key_id@, model_id@) ==> final(map).mappings@ == old(map).mappings@,
        !has_pair(old(map).mappings@, key_id@, model_id@) ==> final(map).mappings@.len() == old(map).mappings@.len() + 1
            && final(map).mappings@.drop_last() == old(map).mappings@
            && final(map).mappings@.last().key_id@ == key_id@
            && final(map).mappings@.last().model_id@ == model_id@,
{
    let kid = owned(key_id);
    let mid = owned(model_id);
    let mut i: usize = 0;
    while i < map.mappings.len()
        invariant
            i <= map.mappings.len(),
            kid@ == key_id@,
            mid@ == model_id@,
            forall|j: int| 0 <= j < i ==> !((#[trigger] map.mappings@[j]).key_id@ == key_id@ && map.mappings@[j].model_id@ == model_id@),
        decreases map.mappings.len() - i,
    {
        if map.mappings[i].key_id == kid && map.mappings[i].model_id == mid {
            return Ok(());
        }
        i += 1;
    }
    let ghost before = map.mappings@;
    map.mappings.push(KeyModelEntry { key_id: kid, model_id: mid });
    proof {
        assert(map.mappings@.drop_last() =~= before);
    }
    Ok(())
}

/// Keeps the entries satisfying `f` (exec helper over the three filters).
fn retain_entries(map: &mut KeyModelMap, key_id: &Option<String>, model_id: &Option<String>, model_ids: &Vec<String>)
    ensures
        final(map).mappings@ == keep(old(map).mappings@, |e: KeyModelEntry| !entry_hit(e, *key_id, *model_id, model_ids@)),
{
    let ghost orig = map.mappings@;
    let ghost f = |e: KeyModelEntry| !entry_hit(e, *key_id, *model_id, model_ids@);
    let mut kept: Vec<KeyModelEntry> = Vec::new();
    let mut i: usize = 0;
    while i < map.mappings.len()
        invariant
            i <= map.mappings.len(),
            orig == map.mappings@,
            f == (|e: KeyModelEntry| !entry_hit(e, *key_id, *model_id, model_ids@)),
            kept@ == keep(orig.take(i as int), f),
        decreases map.mappings.len() - i,
    {
        proof {
            assert(orig.take(i + 1).drop_last() =~= orig.take(i as int));
            assert(orig.take(i + 1).last() == orig[i as int]);
        }
        let hit = entry_hit_exec(&map.mappings[i], key_id, model_id, model_ids);
        if !hit {
            kept.push(KeyModelEntry { key_id: map.mappings[i].key_id.clone(), model_id: map.mappings[i].model_id.clone() });
            proof {
                assert(kept@.last() == orig[i as int]);
            }
        }
        i += 1;
    }
    proof {
        assert(orig.take(i as int) =~= orig);
    }
    map.mappings = kept;
}

/// Whether an entry matches the filter: the key (when given), the model (when
/// given), and, when the list is not empty, one of the listed models.
pub open spec fn entry_hit(e: KeyModelEntry, key_id: Option<String>, model_id: Option<String>, model_ids: Seq<String>) -> bool {
    (match key_id { Some(k) => e.key_id@ == k@, None => true })
    && (match model_id { Some(m) => e.model_id@ == m@, None => true })
    && (model_ids.len() == 0 || listed(model_ids, e.model_id@))
}

/// Whether one of the strings has the given characters.
pub open spec fn listed(v: Seq<String>, s: Seq<char>) -> bool {
    exists|j: int| 0 <= j < v.len() && (#[trigger] v[j])@ == s
}

fn entry_hit_exec(e: &KeyModelEntry, key_id: &Option<String>, model_id: &Option<String>, model_ids: &Vec<String>) -> (r: bool)
    ensures
        r == entry_hit(*e, *key_id, *model_id, model_ids@),
{
    let k_ok = match key_id {
        Some(k) => e.key_id == *k,
        None => true,
    };
    let m_ok = match model_id {
        Some(m) => e.model_id == *m,
        None => true,
    };
    if !(k_ok && m_ok) {
        return false;
    }
    if model_ids.len() == 0 {
        return true;
    }
    let mut j: usize = 0;
    while j < model_ids.len()
        invariant
            j <= model_ids.len(),
            model_ids@.len() > 0,
            match *key_id { Some(k) => e.key_id@ == k@, None => true },
            match *model_id { Some(m) => e.model_id@ == m@, None => true },
            forall|x: int| 0 <= x < j ==> (#[trigger] model_ids@[x])@ != e.model_id@,
        decreases model_ids.len() - j,
    {
        if model_ids[j] == e.model_id {
            proof {
                assert(model_ids@[j as int]@ == e.model_id@);
            }
            return true;
        }
        j += 1;
    }
    false
}

/// Removes the association of a key with a model.
pub fn disassociate_key_from_model(map: &mut KeyModelMap, key_id: &str, model_id: &str) -> (r: Result<(), String>)
    ensures
        r is Ok,
        final(map).mappings@ == keep(old(map).mappings@, not_pair(key_id@, model_id@)),
{
    let k = Some(owned(key_id));
    let m = Some(owned(model_id));
    let none: Vec<String> = Vec::new();
    retain_entries(map, &k, &m, &none);
    proof {
        crate::sorting::lemma_keep_ext(old(map).mappings@,
            |e: KeyModelEntry| !entry_hit(e, k, m, none@), not_pair(key_id@, model_id@));
    }
    Ok(())
}

/// Removes every association of a key.
pub fn remove_key_associations(map: &mut KeyModelMap, key_id: &str) -> (r: Result<(), String>)
    ensures
        r is Ok,
        final(map).mappings@ == keep(old(map).mappings@, not_of_key(key_id@)),
{
    let k = Some(owned(key_id));
    let none: Vec<String> = Vec::new();
    retain_entries(map, &k, &None, &none);
    proof {
        crate::sorting::lemma_keep_ext(old(map).mappings@,
            |e: KeyModelEntry| !entry_hit(e, k, None, none@), not_of_key(key_id@));
    }
    Ok(())
}

/// Removes every association of a model.
pub fn remove_model_associations(map: &mut KeyModelMap, model_id: &str) -> (r: Result<(), String>)
    ensures
        r is Ok,
        final(map).mappings@ == keep(old(map).mappings@, not_of_model(model_id@)),
{
    let m = Some(owned(model_id));
    let none: Vec<String> = Vec::new();
    retain_entries(map, &None, &m, &none);
    proof {
        crate::sorting::lemma_keep_ext(old(map).mappings@,
            |e: KeyModelEntry| !entry_hit(e, None, m, none@), not_of_model(model_id@));
    }
    Ok(())
}

/// Whether `id` is the id of one of the platform's models.
pub open spec fn platform_has_model(models: Seq<Model>, platform_id: Seq<char>, id: Seq<char>) -> bool {
    exists|i: int| 0 <= i < models.len() && (#[trigger] models[i]).platform_id@ == platform_id && models[i].id@ == id
}

/// Whether an entry's model is not one of the platform's models.
pub open spec fn of_platform_models(models: Seq<Model>, platform_id: Seq<char>) -> spec_fn(KeyModelEntry) -> bool {
    |e: KeyModelEntry| !platform_has_model(models, platform_id, e.model_id@)
}

/// Removes every association whose model belongs to the platform.
pub fn remove_platform_associations(map: &mut KeyModelMap, store: &ModelStore, platform_id: &str) -> (r: Result<(), String>)
    ensures
        r is Ok,
        final(map).mappings@ == keep(old(map).mappings@, of_platform_models(store.models@, platform_id@)),
{
    let pid = owned(platform_id);
    let mut ids: Vec<String> = Vec::new();
    let mut i: usize = 0;
    while i < store.models.len()
        invariant
            i <= store.models.len(),
            pid@ == platform_id@,
            forall|x: int| 0 <= x < ids@.len() ==> platform_has_model(store.models@, platform_id@, #[trigger] ids@[x]@),
            forall|y: int| 0 <= y < i && (#[trigger] store.models@[y]).platform_id@ == platform_id@ ==>
                listed(ids@, store.models@[y].id@),
        decreases store.models.len() - i,
    {
        if store.models[i].platform_id == pid {
            let ghost before = ids@;
            ids.push(store.models[i].id.clone());
            proof {
                assert forall|x: int| 0 <= x < ids@.len() implies platform_has_model(store.models@, platform_id@, #[trigger] ids@[x]@) by {
                    if x < before.len() {
                        assert(ids@[x] == before[x]);
                    } else {
                        assert(store.models@[i as int].platform_id@ == platform_id@);
                        assert(store.models@[i as int].id@ == ids@[x]@);
                    }
                }
                assert forall|y: int| 0 <= y < i + 1 && (#[trigger] store.models@[y]).platform_id@ == platform_id@
                    implies listed(ids@, store.models@[y].id@) by {
                    if y < i {
                        let x = choose|x: int| 0 <= x < before.len() && (#[trigger] before[x])@ == store.models@[y].id@;
                        assert(ids@[x] == before[x]);
                    } else {
                        assert(ids@[before.len() as int]@ == store.models@[y].id@);
                    }
                }
            }
        }
        i += 1;
    }
    if ids.len() == 0 {
        proof {
            assert forall|e: KeyModelEntry| #[trigger] of_platform_models(store.models@, platform_id@)(e) by {
                if platform_has_model(store.models@, platform_id@, e.model_id@) {
                    let y = choose|y: int| 0 <= y < store.models@.len() && (#[trigger] store.models@[y]).platform_id@ == platform_id@
                        && store.models@[y].id@ == e.model_id@;
                    assert(listed(ids@, store.models@[y].id@));
                }
            }
            crate::sorting::lemma_keep_all(old(map).mappings@, of_platform_models(store.models@, platform_id@));
        }
        return Ok(());
    }
    retain_entries(map, &None, &None, &ids);
    proof {
        assert forall|e: KeyModelEntry| (|e: KeyModelEntry| !entry_hit(e, None, None, ids@))(e)
            == #[trigger] of_platform_models(store.models@, platform_id@)(e) by {
            if platform_has_model(store.models@, platform_id@, e.model_id@) {
                let y = choose|y: int| 0 <= y < store.models@.len() && (#[trigger] store.models@[y]).platform_id@ == platform_id@
                    && store.models@[y].id@ == e.model_id@;
                assert(listed(ids@, store.models@[y].id@));
            }
            if listed(ids@, e.model_id@) {
                let x = choose|x: int| 0 <= x < ids@.len() && (#[trigger] ids@[x])@ == e.model_id@;
                assert(platform_has_model(store.models@, platform_id@, ids@[x]@));
            }
        }
        crate::sorting::lemma_keep_ext(old(map).mappings@,
            |e: KeyModelEntry| !entry_hit(e, None, None, ids@), of_platform_models(store.models@, platform_id@));
    }
    Ok(())
}

} // verus!
