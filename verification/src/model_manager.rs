//! The model store: listing, adding, editing and deleting models.

use vstd::prelude::*;
use crate::key_model_map::{self, KeyModelMap};
use crate::models::Model;
use crate::sorting::{Ordered, first_where, keep, lemma_first_where, lemma_first_where_props, sort_by_order, stable_sort};
use crate::text::{owned, push_str, string_from_chars};

verus! {

/// All models.
#[derive(Debug, Clone)]
pub struct ModelStore {
    pub models: Vec<Model>,
}

impl ModelStore {
    /// An empty store.
    pub fn new() -> (r: Self)
        ensures
            r.models@.len() == 0,
    {
        ModelStore { models: Vec::new() }
    }
}

/// The message of a missing model.
pub open spec fn model_not_found(model_id: Seq<char>) -> Seq<char> {
    "Model not found: "@ + model_id
}

/// Whether a model has the given id.
pub open spec fn model_has_id(model_id: Seq<char>) -> spec_fn(Model) -> bool {
    |m: Model| m.id@ == model_id
}

/// Whether a model belongs to the given platform.
pub open spec fn model_of_platform(platform_id: Seq<char>) -> spec_fn(Model) -> bool {
    |m: Model| m.platform_id@ == platform_id
}

fn not_found(model_id: &str) -> (r: String)
    ensures
        r@ == model_not_found(model_id@),
{
    let mut v: Vec<char> = Vec::new();
    push_str(&mut v, "Model not found: ");
    push_str(&mut v, model_id);
    string_from_chars(&v)
}

fn find_model(models: &Vec<Model>, model_id: &str) -> (r: Option<usize>)
    ensures
        r matches Some(i) ==> first_where(models@, model_has_id(model_id@)) == Some(i as int) && i < models@.len(),
        r is None ==> first_where(models@, model_has_id(model_id@)) is None,
{
    let id = owned(model_id);
    let mut i: usize = 0;
    while i < models.len()
        invariant
            i <= models.len(),
            id@ == model_id@,
            first_where(models@.take(i as int), model_has_id(model_id@)) is None,
        decreases models.len() - i,
    {
        proof {
            lemma_first_where(models@, model_has_id(model_id@), i as int);
        }
        if models[i].id == id {
            proof {
                lemma_first_where(models@, model_has_id(model_id@), i + 1);
            }
            return Some(i);
        }
        i += 1;
    }
    proof {
        lemma_first_where(models@, model_has_id(model_id@), i as int);
    }
    None
}

/// The models of a platform among `models`, ordered by sort order (stable).
pub fn models_of_platform(models: &Vec<Model>, platform_id: &str) -> (r: Vec<Model>)
    ensures
        r@ == sort_by_order(keep(models@, model_of_platform(platform_id@))),
{
    let pid = owned(platform_id);
    let mut picked: Vec<Model> = Vec::new();
    let mut i: usize = 0;
    while i < models.len()
        invariant
            i <= models.len(),
            pid@ == platform_id@,
            picked@ == keep(models@.take(i as int), model_of_platform(platform_id@)),
        decreases models.len() - i,
    {
        proof {
            assert(models@.take(i + 1).drop_last() =~= models@.take(i as int));
            assert(models@.take(i + 1).last() == models@[i as int]);
        }
        if models[i].platform_id == pid {
            picked.push(models[i].duplicate());
        }
        i += 1;
    }
    proof {
        assert(models@.take(i as int) =~= models@);
    }
    stable_sort(picked)
}

/// The models of a platform, ordered by sort order (stable).
pub fn list_models(store: &ModelStore, platform_id: &str) -> (r: Result<Vec<Model>, String>)
    ensures
        r matches Ok(v) && v@ == sort_by_order(keep(store.models@, model_of_platform(platform_id@))),
{
    Ok(models_of_platform(&store.models, platform_id))
}

/// Adds a model with a fresh id; unspecified limits take the defaults and its
/// sort order is its position in the store.
pub fn add_model(
    store: &mut ModelStore,
    platform_id: String,
    model_name: String,
    display_name: String,
    per_5hour: Option<u32>,
    per_day: Option<u32>,
    per_month: Option<u32>,
) -> (r: Result<Model, String>)
    ensures
        r matches Ok(m) && added(old(store).models@, final(store).models@, m, platform_id, model_name, display_name,
            per_5hour, per_day, per_month, None),
{
    add_model_sized(store, platform_id, model_name, display_name, per_5hour, per_day, per_month, None)
}

/// Whether `after` is `before` with the model `m` appended, `m` having a fresh
/// id (36 characters), the given fields, the default for each limit not given
/// and its position as sort order.
pub open spec fn added(
    before: Seq<Model>,
    after: Seq<Model>,
    m: Model,
    platform_id: String,
    model_name: String,
    display_name: String,
    per_5hour: Option<u32>,
    per_day: Option<u32>,
    per_month: Option<u32>,
    max_input_tokens: Option<u64>,
) -> bool {
    &&& m.id@.len() == 36
    &&& m.platform_id == platform_id
    &&& m.model_name == model_name
    &&& m.display_name == display_name
    &&& m.per_5hour == match per_5hour { Some(v) => v, None => crate::models::spec_default_5hour() }
    &&& m.per_day == match per_day { Some(v) => v, None => crate::models::spec_default_day() }
    &&& m.per_month == match per_month { Some(v) => v, None => crate::models::spec_default_month() }
    &&& m.sort_order == before.len() as i32
    &&& m.max_input_tokens == max_input_tokens
    &&& after == before.push(m)
}

/// Adds a model as [`add_model`] does, with a known context size.
pub fn add_model_sized(
    store: &mut ModelStore,
    platform_id: String,
    model_name: String,
    display_name: String,
    per_5hour: Option<u32>,
    per_day: Option<u32>,
    per_month: Option<u32>,
    max_input_tokens: Option<u64>,
) -> (r: Result<Model, String>)
    ensures
        r matches Ok(m) && added(old(store).models@, final(store).models@, m, platform_id, model_name, display_name,
            per_5hour, per_day, per_month, max_input_tokens),
{
    let mut model = Model::new(platform_id, model_name, display_name);
    if let Some(v) = per_5hour {
        model.per_5hour = v;
    }
    if let Some(v) = per_day {
        model.per_day = v;
    }
    if let Some(v) = per_month {
        model.per_month = v;
    }
    model.sort_order = store.models.len() as i32;
    model.max_input_tokens = max_input_tokens;
    store.models.push(model.duplicate());
    Ok(model)
}

/// Sets the context size of a model.
pub fn update_model_context(store: &mut ModelStore, model_id: &str, max_input_tokens: Option<u64>) -> (r: Result<Model, String>)
    ensures
        match first_where(old(store).models@, model_has_id(model_id@)) {
            None => r matches Err(e) && e@ == model_not_found(model_id@) && final(store).models@ == old(store).models@,
            Some(i) => r matches Ok(m)
                && m == (Model { max_input_tokens, ..old(store).models@[i] })
                && final(store).models@ == old(store).models@.update(i, m),
        },
{
    match find_model(&store.models, model_id) {
        None => Err(not_found(model_id)),
        Some(i) => {
            proof {
                lemma_first_where_props(store.models@, model_has_id(model_id@));
            }
            store.models[i].max_input_tokens = max_input_tokens;
            Ok(store.models[i].duplicate())
        },
    }
}

/// The model after an update: each given field replaces the stored one.
pub open spec fn updated_model(
    m: Model,
    model_name: Option<String>,
    display_name: Option<String>,
    per_5hour: Option<u32>,
    per_day: Option<u32>,
    per_month: Option<u32>,
) -> Model {
    Model {
        model_name: match model_name { Some(v) => v, None => m.model_name },
        display_name: match display_name { Some(v) => v, None => m.display_name },
        per_5hour: match per_5hour { Some(v) => v, None => m.per_5hour },
        per_day: match per_day { Some(v) => v, None => m.per_day },
        per_month: match per_month { Some(v) => v, None => m.per_month },
        ..m
    }
}

/// Updates the given fields of a model.
pub fn update_model(
    store: &mut ModelStore,
    model_id: &str,
    model_name: Option<String>,
    display_name: Option<String>,
    per_5hour: Option<u32>,
    per_day: Option<u32>,
    per_month: Option<u32>,
) -> (r: Result<Model, String>)
    ensures
        match first_where(old(store).models@, model_has_id(model_id@)) {
            None => r matches Err(e) && e@ == model_not_found(model_id@) && final(store).models@ == old(store).models@,
            Some(i) => r matches Ok(m)
                && m == updated_model(old(store).models@[i], model_name, display_name, per_5hour, per_day, per_month)
                && final(store).models@ == old(store).models@.update(i, m),
        },
{
    match find_model(&store.models, model_id) {
        None => Err(not_found(model_id)),
        Some(i) => {
            proof {
                lemma_first_where_props(store.models@, model_has_id(model_id@));
            }
            if let Some(v) = model_name {
                store.models[i].model_name = v;
            }
            if let Some(v) = display_name {
                store.models[i].display_name = v;
            }
            if let Some(v) = per_5hour {
                store.models[i].per_5hour = v;
            }
            if let Some(v) = per_day {
                store.models[i].per_day = v;
            }
            if let Some(v) = per_month {
                store.models[i].per_month = v;
            }
            Ok(store.models[i].duplicate())
        },
    }
}

/// Deletes a model and its key associations.
pub fn delete_model(store: &mut ModelStore, map: &mut KeyModelMap, model_id: &str) -> (r: Result<(), String>)
    ensures
        match first_where(old(store).models@, model_has_id(model_id@)) {
            None => r matches Err(e) && e@ == model_not_found(model_id@)
                && final(store).models@ == old(store).models@ && final(map).mappings@ == old(map).mappings@,
            Some(i) => r is Ok && final(store).models@ == old(store).models@.remove(i)
                && final(map).mappings@ == keep(old(map).mappings@, key_model_map::not_of_model(model_id@)),
        },
{
    match find_model(&store.models, model_id) {
        None => Err(not_found(model_id)),
        Some(i) => {
            store.models.remove(i);
            let _ = key_model_map::remove_model_associations(map, model_id);
            Ok(())
        },
    }
}

/// Deletes every model of a platform.
pub fn delete_platform_models(store: &mut ModelStore, platform_id: &str) -> (r: Result<(), String>)
    ensures
        r is Ok,
        final(store).models@ == keep(old(store).models@, |m: Model| m.platform_id@ != platform_id@),
{
    let pid = owned(platform_id);
    let ghost orig = store.models@;
    let mut kept: Vec<Model> = Vec::new();
    let mut i: usize = 0;
    while i < store.models.len()
        invariant
            i <= store.models.len(),
            orig == store.models@,
            pid@ == platform_id@,
            kept@ == keep(orig.take(i as int), |m: Model| m.platform_id@ != platform_id@),
        decreases store.models.len() - i,
    {
        proof {
            assert(orig.take(i + 1).drop_last() =~= orig.take(i as int));
            assert(orig.take(i + 1).last() == orig[i as int]);
        }
        if store.models[i].platform_id != pid {
            kept.push(store.models[i].duplicate());
        }
        i += 1;
    }
    proof {
        assert(orig.take(i as int) =~= orig);
    }
    store.models = kept;
    Ok(())
}

} // verus!
