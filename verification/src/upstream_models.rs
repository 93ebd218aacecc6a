//! Models offered by an upstream platform: reading its `/models` answer,
//! importing selected models, syncing all of them, and testing one model.

use vstd::prelude::*;
use crate::json::{self, Json, JsonV, array_of, get, i64_json, i64_number, jv, jv_members, str_of, u64_json, u64_number, u64_of};
use crate::model_manager::{self, ModelStore, model_has_id, model_of_platform};
use crate::models::{ApiKey, Model};
use crate::sorting::{first_where, keep, lemma_first_where, lemma_first_where_props, lemma_keep_props, lemma_sort_contains, sort_by_order};
use crate::text::{
    decimal, joined, owned, push_decimal, push_joined, push_str, str_chars, string_from_chars, strip_trailing, texts,
};
use crate::proxy::{deduplicate_url_path, joined_url, model_name_is};

verus! {

/// One model of an upstream list: name, display name, context size.
pub type UpstreamEntry = (String, String, Option<u64>);

/// The plain value of an upstream entry.
pub open spec fn entry_view(e: UpstreamEntry) -> (Seq<char>, Seq<char>, Option<u64>) {
    (e.0@, e.1@, e.2)
}

/// The plain values of a list of upstream entries.
pub open spec fn entry_views(es: Seq<UpstreamEntry>) -> Seq<(Seq<char>, Seq<char>, Option<u64>)> {
    es.map_values(|e: UpstreamEntry| entry_view(e))
}

// ── Reading the upstream list ──

/// The first of the members `keys` (in that order) that the object has.
pub open spec fn first_present(m: Json, keys: Seq<Seq<char>>) -> Option<Json>
    decreases keys.len(),
{
    if keys.len() == 0 {
        None
    } else {
        match get(m, keys[0]) {
            Some(v) => Some(v),
            None => first_present(m, keys.drop_first()),
        }
    }
}

/// The member names that may hold a display name, in order of preference.
pub open spec fn display_keys() -> Seq<Seq<char>> {
    seq!["display_name"@, "name"@]
}

/// The member names that may hold a context size, in order of preference.
pub open spec fn context_keys() -> Seq<Seq<char>> {
    seq!["max_input_tokens"@, "max_input_length"@, "context_window"@, "max_context_length"@]
}

/// The entry read from one element of the list: none when its `id` is missing
/// or empty; the display name defaults to the id.
pub open spec fn upstream_entry(m: Json) -> Option<(Seq<char>, Seq<char>, Option<u64>)> {
    let id = match str_of(get(m, "id"@)) {
        Some(s) => s,
        None => Seq::empty(),
    };
    if id.len() == 0 {
        None
    } else {
        let display = match str_of(first_present(m, display_keys())) {
            Some(s) => s,
            None => id,
        };
        Some((id, display, u64_of(first_present(m, context_keys()))))
    }
}

/// The entries read from the elements, in order.
pub open spec fn upstream_entries(ms: Seq<Json>) -> Seq<(Seq<char>, Seq<char>, Option<u64>)>
    decreases ms.len(),
{
    if ms.len() == 0 {
        Seq::empty()
    } else {
        match upstream_entry(ms.last()) {
            Some(e) => upstream_entries(ms.drop_last()).push(e),
            None => upstream_entries(ms.drop_last()),
        }
    }
}

/// The list in an answer: its `data` array, or the answer itself when it is an array.
pub open spec fn upstream_array(body: Json) -> Option<Seq<Json>> {
    match array_of(get(body, "data"@)) {
        Some(a) => Some(a),
        None => match body {
            Json::Array(v) => Some(v@),
            _ => None,
        },
    }
}

/// The message for an answer with no list in it.
pub open spec fn unrecognized_format(body: Json) -> Seq<char> {
    let printed = json::print_text(body);
    "Upstream response format not recognized. Expected {\"data\": [...]} or an array.\nFirst 200 chars: "@
        + printed.take(if printed.len() < 200 { printed.len() as int } else { 200 })
}

fn member_str<'a>(m: &'a Json, key: &str) -> (r: Option<&'a String>)
    ensures
        match r {
            Some(s) => str_of(get(*m, key@)) == Some(s@),
            None => str_of(get(*m, key@)) is None,
        },
{
    json::as_str(json::get_member(m, key))
}

fn entry_of(m: &Json) -> (r: Option<UpstreamEntry>)
    ensures
        match r {
            Some(e) => upstream_entry(*m) == Some(entry_view(e)),
            None => upstream_entry(*m) is None,
        },
{
    let id = match member_str(m, "id") {
        Some(s) => s.clone(),
        None => String::new(),
    };
    if str_chars(id.as_str()).len() == 0 {
        return None;
    }
    let dn_node = match json::get_member(m, "display_name") {
        Some(v) => Some(v),
        None => json::get_member(m, "name"),
    };
    proof {
        assert(display_keys().drop_first() =~= seq!["name"@]);
        assert(seq!["name"@].drop_first() =~= Seq::<Seq<char>>::empty());
        reveal_with_fuel(first_present, 3);
        assert(json::opt_val(dn_node) == first_present(*m, display_keys()));
    }
    let display = match json::as_str(dn_node) {
        Some(s) => s.clone(),
        None => id.clone(),
    };
    let c1 = json::get_member(m, "max_input_tokens");
    let c2 = match c1 {
        Some(v) => Some(v),
        None => json::get_member(m, "max_input_length"),
    };
    let c3 = match c2 {
        Some(v) => Some(v),
        None => json::get_member(m, "context_window"),
    };
    let c4 = match c3 {
        Some(v) => Some(v),
        None => json::get_member(m, "max_context_length"),
    };
    proof {
        let ks = context_keys();
        assert(ks.drop_first() =~= seq!["max_input_length"@, "context_window"@, "max_context_length"@]);
        assert(ks.drop_first().drop_first() =~= seq!["context_window"@, "max_context_length"@]);
        assert(ks.drop_first().drop_first().drop_first() =~= seq!["max_context_length"@]);
        assert(ks.drop_first().drop_first().drop_first().drop_first() =~= Seq::<Seq<char>>::empty());
        reveal_with_fuel(first_present, 5);
        assert(json::opt_val(c4) == first_present(*m, ks));
    }
    let ctx = json::as_u64(c4);
    Some((id, display, ctx))
}

/// Reads the model list of an upstream `/models` answer: the elements of its
/// `data` array (or of the answer itself when it is an array) that have a
/// non-empty `id`, in order.
pub fn parse_upstream_models(body: &Json) -> (r: Result<Vec<UpstreamEntry>, String>)
    ensures
        match upstream_array(*body) {
            None => r matches Err(e) && e@ == unrecognized_format(*body),
            Some(ms) => r matches Ok(v) && entry_views(v@) == upstream_entries(ms),
        },
{
    let list: &Vec<Json> = match json::as_array(json::get_member(body, "data")) {
        Some(a) => a,
        None => match body {
            Json::Array(v) => v,
            _ => {
                let printed = str_chars(json::print(body).as_str());
                let n = if printed.len() < 200 { printed.len() } else { 200 };
                let mut msg: Vec<char> = Vec::new();
                push_str(&mut msg, "Upstream response format not recognized. Expected {\"data\": [...]} or an array.\nFirst 200 chars: ");
                let head = crate::text::slice_chars(&printed, 0, n);
                crate::text::push_all(&mut msg, &head);
                proof {
                    assert(head@ =~= printed@.take(n as int));
                }
                return Err(string_from_chars(&msg));
            },
        },
    };
    let mut out: Vec<UpstreamEntry> = Vec::new();
    let mut i: usize = 0;
    while i < list.len()
        invariant
            i <= list.len(),
            entry_views(out@) == upstream_entries(list@.take(i as int)),
        decreases list.len() - i,
    {
        let e = entry_of(&list[i]);
        proof {
            assert(list@.take(i + 1).drop_last() =~= list@.take(i as int));
            assert(list@.take(i + 1).last() == list@[i as int]);
        }
        match e {
            Some(x) => {
                let ghost before = out@;
                out.push(x);
                proof {
                    assert(entry_views(out@) =~= entry_views(before).push(entry_view(x)));
                }
            },
            None => {},
        }
        i += 1;
    }
    proof {
        assert(list@.take(i as int) =~= list@);
    }
    Ok(out)
}

/// The two list addresses tried for a platform, `/v1/models` first.
pub open spec fn model_list_urls(base_url: Seq<char>) -> Seq<Seq<char>> {
    let base = strip_trailing(base_url, '/');
    seq![joined_url(base, "/v1/models"@), joined_url(base, "/models"@)]
}

/// The addresses to try for a platform's model list.
pub fn upstream_model_urls(base_url: &str) -> (r: Vec<String>)
    ensures
        texts(r@) == model_list_urls(base_url@),
{
    let base = string_from_chars(&crate::text::trim_end_char(&str_chars(base_url), '/'));
    let mut r: Vec<String> = Vec::new();
    r.push(deduplicate_url_path(base.as_str(), "/v1/models"));
    r.push(deduplicate_url_path(base.as_str(), "/models"));
    proof {
        assert(texts(r@) =~= model_list_urls(base_url@));
    }
    r
}

/// The message when no address gave a list.
pub open spec fn fetch_failed(urls: Seq<Seq<char>>, last_error: Seq<char>) -> Seq<char> {
    "Failed to fetch models from upstream. Tried:\n  "@ + joined(urls, "\n  "@) + "\nAll attempts failed. Last error: "@ + last_error
}

/// The error returned when every address failed.
pub fn fetch_failed_message(urls: &Vec<String>, last_error: &str) -> (r: String)
    ensures
        r@ == fetch_failed(texts(urls@), last_error@),
{
    let mut v: Vec<char> = Vec::new();
    push_str(&mut v, "Failed to fetch models from upstream. Tried:\n  ");
    push_joined(&mut v, urls, "\n  ");
    push_str(&mut v, "\nAll attempts failed. Last error: ");
    push_str(&mut v, last_error);
    string_from_chars(&v)
}

/// Whether a key is active at `now`.
pub open spec fn key_active_at(now: int) -> spec_fn(ApiKey) -> bool {
    |k: ApiKey| k.active_at(now)
}

/// The message when a platform has no active key.
pub open spec fn no_active_key(platform_name: Seq<char>) -> Seq<char> {
    "No active API keys available for platform '"@ + platform_name + "'. Please add at least one active API key first."@
}

/// The secret of the first key active at `now`, in list order.
pub fn first_active_key_at(keys: &Vec<ApiKey>, platform_name: &str, now: i64) -> (r: Result<String, String>)
    ensures
        match first_where(keys@, key_active_at(now as int)) {
            Some(i) => r matches Ok(v) && v@ == keys@[i].key_value@,
            None => r matches Err(e) && e@ == no_active_key(platform_name@),
        },
{
    let mut i: usize = 0;
    while i < keys.len()
        invariant
            i <= keys.len(),
            first_where(keys@.take(i as int), key_active_at(now as int)) is None,
        decreases keys.len() - i,
    {
        proof {
            lemma_first_where(keys@, key_active_at(now as int), i as int);
        }
        if keys[i].is_active_at(now) {
            proof {
                lemma_first_where(keys@, key_active_at(now as int), i + 1);
            }
            return Ok(keys[i].key_value.clone());
        }
        i += 1;
    }
    proof {
        lemma_first_where(keys@, key_active_at(now as int), i as int);
    }
    let mut v: Vec<char> = Vec::new();
    push_str(&mut v, "No active API keys available for platform '");
    push_str(&mut v, platform_name);
    push_str(&mut v, "'. Please add at least one active API key first.");
    Err(string_from_chars(&v))
}

/// The secret of the first key active now, in list order.
pub fn first_active_key(keys: &Vec<ApiKey>, platform_name: &str) -> (r: Result<String, String>)
    ensures
        exists|now: int| crate::clock::clock_range(now) && match first_where(keys@, key_active_at(now)) {
            Some(i) => r matches Ok(v) && v@ == keys@[i].key_value@,
            None => r matches Err(e) && e@ == no_active_key(platform_name@),
        },
{
    let now = crate::clock::now_unix_seconds();
    first_active_key_at(keys, platform_name, now)
}

// ── Listing and importing ──

/// A model of the upstream list, marked when it is already imported.
#[derive(Debug, Clone)]
pub struct UpstreamModelInfo {
    pub model_name: String,
    pub display_name: String,
    pub max_input_tokens: Option<u64>,
    /// A local model of the platform has this name.
    pub already_imported: bool,
}

/// Whether a model of the list has the name.
pub open spec fn has_model_named(local: Seq<Model>, name: Seq<char>) -> bool {
    exists|i: int| 0 <= i < local.len() && (#[trigger] local[i]).model_name@ == name
}

fn named_in(local: &Vec<Model>, name: &String) -> (r: bool)
    ensures
        r == has_model_named(local@, name@),
{
    let mut i: usize = 0;
    while i < local.len()
        invariant
            i <= local.len(),
            forall|j: int| 0 <= j < i ==> (#[trigger] local@[j]).model_name@ != name@,
        decreases local.len() - i,
    {
        if local[i].model_name == *name {
            return true;
        }
        i += 1;
    }
    false
}

/// Marks each upstream model that `local` (the platform's models) already has.
pub fn list_upstream_models(upstream: &Vec<UpstreamEntry>, local: &Vec<Model>) -> (r: Vec<UpstreamModelInfo>)
    ensures
        r@.len() == upstream@.len(),
        forall|i: int| 0 <= i < r@.len() ==> {
            &&& (#[trigger] r@[i]).model_name@ == upstream@[i].0@
            &&& r@[i].display_name@ == upstream@[i].1@
            &&& r@[i].max_input_tokens == upstream@[i].2
            &&& r@[i].already_imported == has_model_named(local@, upstream@[i].0@)
        },
{
    let mut out: Vec<UpstreamModelInfo> = Vec::new();
    let mut i: usize = 0;
    while i < upstream.len()
        invariant
            i <= upstream.len(),
            out@.len() == i,
            forall|j: int| 0 <= j < i ==> {
                &&& (#[trigger] out@[j]).model_name@ == upstream@[j].0@
                &&& out@[j].display_name@ == upstream@[j].1@
                &&& out@[j].max_input_tokens == upstream@[j].2
                &&& out@[j].already_imported == has_model_named(local@, upstream@[j].0@)
            },
        decreases upstream.len() - i,
    {
        let already = named_in(local, &upstream[i].0);
        out.push(UpstreamModelInfo {
            model_name: upstream[i].0.clone(),
            display_name: upstream[i].1.clone(),
            max_input_tokens: upstream[i].2,
            already_imported: already,
        });
        i += 1;
    }
    out
}

/// What an import did.
#[derive(Debug, Clone)]
pub struct ImportModelsResult {
    pub imported: Vec<String>,
    pub skipped: Vec<String>,
    pub message: String,
}

/// Whether the store has a model of the platform with the name.
pub open spec fn is_local(models: Seq<Model>, platform_id: Seq<char>, name: Seq<char>) -> bool {
    exists|i: int| 0 <= i < models.len() && (#[trigger] models[i]).platform_id@ == platform_id && models[i].model_name@ == name
}

/// Whether a name is not yet a model of the platform.
pub open spec fn new_name(models: Seq<Model>, platform_id: Seq<char>) -> spec_fn(Seq<char>) -> bool {
    |n: Seq<char>| !is_local(models, platform_id, n)
}

/// Whether a name already is a model of the platform.
pub open spec fn known_name(models: Seq<Model>, platform_id: Seq<char>) -> spec_fn(Seq<char>) -> bool {
    |n: Seq<char>| is_local(models, platform_id, n)
}

/// Whether an upstream entry has the name.
pub open spec fn entry_named(name: Seq<char>) -> spec_fn((Seq<char>, Seq<char>, Option<u64>)) -> bool {
    |e: (Seq<char>, Seq<char>, Option<u64>)| e.0 == name
}

/// The display name and context size the upstream list gives a name (the
/// first entry with it), or the name itself and no size when it is not listed.
pub open spec fn listed_info(up: Seq<(Seq<char>, Seq<char>, Option<u64>)>, name: Seq<char>) -> (Seq<char>, Option<u64>) {
    match first_where(up, entry_named(name)) {
        Some(i) => (up[i].1, up[i].2),
        None => (name, None),
    }
}

/// Calls per 5 hours allowed to an imported model.
pub const IMPORT_PER_5HOUR: u32 = 10000;

/// Calls per day allowed to an imported model.
pub const IMPORT_PER_DAY: u32 = 50000;

/// Calls per month allowed to an imported model.
pub const IMPORT_PER_MONTH: u32 = 100000;

/// Whether `m` is the model imported for `name` at position `pos`.
pub open spec fn imported_model(m: Model, platform_id: Seq<char>, name: Seq<char>, up: Seq<(Seq<char>, Seq<char>, Option<u64>)>, pos: int) -> bool {
    &&& m.id@.len() == 36
    &&& m.platform_id@ == platform_id
    &&& m.model_name@ == name
    &&& m.display_name@ == listed_info(up, name).0
    &&& m.per_5hour == IMPORT_PER_5HOUR
    &&& m.per_day == IMPORT_PER_DAY
    &&& m.per_month == IMPORT_PER_MONTH
    &&& m.sort_order == pos as i32
    &&& m.max_input_tokens == listed_info(up, name).1
}

/// The message of an import.
pub open spec fn import_message(imported: Seq<Seq<char>>, skipped: nat) -> Seq<char> {
    if imported.len() == 0 {
        "No new models imported ("@ + decimal(skipped) + " skipped: already exist)"@
    } else {
        "Imported "@ + decimal(imported.len()) + " model(s): "@ + joined(imported, ", "@)
    }
}

fn listed(up: &Vec<UpstreamEntry>, name: &String) -> (r: (String, Option<u64>))
    ensures
        (r.0@, r.1) == listed_info(entry_views(up@), name@),
{
    let ghost ev = entry_views(up@);
    let mut i: usize = 0;
    while i < up.len()
        invariant
            i <= up.len(),
            ev == entry_views(up@),
            first_where(ev.take(i as int), entry_named(name@)) is None,
        decreases up.len() - i,
    {
        proof {
            lemma_first_where(ev, entry_named(name@), i as int);
            assert(ev[i as int] == entry_view(up@[i as int]));
        }
        if up[i].0 == *name {
            proof {
                lemma_first_where(ev, entry_named(name@), i + 1);
            }
            return (up[i].1.clone(), up[i].2);
        }
        i += 1;
    }
    proof {
        lemma_first_where(ev, entry_named(name@), i as int);
    }
    (name.clone(), None)
}

fn local_in(models: &Vec<Model>, platform_id: &String, name: &String) -> (r: bool)
    ensures
        r == is_local(models@, platform_id@, name@),
{
    let mut i: usize = 0;
    while i < models.len()
        invariant
            i <= models.len(),
            forall|j: int| 0 <= j < i ==> !((#[trigger] models@[j]).platform_id@ == platform_id@ && models@[j].model_name@ == name@),
        decreases models.len() - i,
    {
        if models[i].platform_id == *platform_id && models[i].model_name == *name {
            return true;
        }
        i += 1;
    }
    false
}

/// Imports the selected names into the platform: a name that already is a
/// model of the platform is skipped; every other name (repeats included, in
/// order) becomes a new model with the import limits and the display name and
/// context size of the upstream list.
pub fn import_models(
    store: &mut ModelStore,
    platform_id: &str,
    upstream: &Vec<UpstreamEntry>,
    model_names: Vec<String>,
) -> (r: Result<ImportModelsResult, String>)
    ensures
        r matches Ok(res) && {
            let names = texts(model_names@);
            let olds = old(store).models@;
            let imported = keep(names, new_name(olds, platform_id@));
            &&& texts(res.imported@) == imported
            &&& texts(res.skipped@) == keep(names, known_name(olds, platform_id@))
            &&& res.message@ == import_message(imported, res.skipped@.len())
            &&& final(store).models@.len() == olds.len() + imported.len()
            &&& final(store).models@.take(olds.len() as int) == olds
            &&& forall|k: int| 0 <= k < imported.len() ==>
                imported_model(#[trigger] final(store).models@[olds.len() + k], platform_id@, imported[k],
                    entry_views(upstream@), olds.len() + k)
        },
{
    let pid = owned(platform_id);
    let ghost olds = store.models@;
    let ghost names = texts(model_names@);
    let mut imported: Vec<String> = Vec::new();
    let mut skipped: Vec<String> = Vec::new();
    let mut i: usize = 0;
    while i < model_names.len()
        invariant
            i <= model_names.len(),
            pid@ == platform_id@,
            store.models@ == olds,
            names == texts(model_names@),
            texts(imported@) == keep(names.take(i as int), new_name(olds, platform_id@)),
            texts(skipped@) == keep(names.take(i as int), known_name(olds, platform_id@)),
        decreases model_names.len() - i,
    {
        proof {
            assert(names.take(i + 1).drop_last() =~= names.take(i as int));
            assert(names.take(i + 1).last() == model_names@[i as int]@);
        }
        let ghost bi = imported@;
        let ghost bs = skipped@;
        if local_in(&store.models, &pid, &model_names[i]) {
            skipped.push(model_names[i].clone());
            proof {
                assert(texts(skipped@) =~= texts(bs).push(model_names@[i as int]@));
            }
        } else {
            imported.push(model_names[i].clone());
            proof {
                assert(texts(imported@) =~= texts(bi).push(model_names@[i as int]@));
            }
        }
        i += 1;
    }
    proof {
        assert(names.take(i as int) =~= names);
    }
    let ghost imp = texts(imported@);
    let mut k: usize = 0;
    while k < imported.len()
        invariant
            k <= imported.len(),
            pid@ == platform_id@,
            imp == texts(imported@),
            store.models@.len() == olds.len() + k,
            store.models@.take(olds.len() as int) == olds,
            forall|j: int| 0 <= j < k ==>
                imported_model(#[trigger] store.models@[olds.len() + j], platform_id@, imp[j], entry_views(upstream@), olds.len() + j),
        decreases imported.len() - k,
    {
        let (display, ctx) = listed(upstream, &imported[k]);
        let ghost before = store.models@;
        let _ = model_manager::add_model_sized(
            store,
            pid.clone(),
            imported[k].clone(),
            display,
            Some(IMPORT_PER_5HOUR),
            Some(IMPORT_PER_DAY),
            Some(IMPORT_PER_MONTH),
            ctx,
        );
        proof {
            assert(store.models@ == before.push(store.models@.last()));
            assert(store.models@.take(olds.len() as int) =~= before.take(olds.len() as int));
            assert forall|j: int| 0 <= j < k + 1 implies
                imported_model(#[trigger] store.models@[olds.len() + j], platform_id@, imp[j], entry_views(upstream@), olds.len() + j) by {
                if j < k {
                    assert(store.models@[olds.len() + j] == before[olds.len() + j]);
                }
            }
        }
        k += 1;
    }
    let mut msg: Vec<char> = Vec::new();
    if imported.len() == 0 {
        push_str(&mut msg, "No new models imported (");
        push_decimal(&mut msg, skipped.len() as u64);
        push_str(&mut msg, " skipped: already exist)");
    } else {
        push_str(&mut msg, "Imported ");
        push_decimal(&mut msg, imported.len() as u64);
        push_str(&mut msg, " model(s): ");
        push_joined(&mut msg, &imported, ", ");
    }
    Ok(ImportModelsResult { imported, skipped, message: string_from_chars(&msg) })
}

// ── Full sync ──

/// What a full sync did.
#[derive(Debug, Clone)]
pub struct RefreshModelsResult {
    pub updated: Vec<String>,
    pub created: Vec<String>,
    pub total_upstream: usize,
    pub total_local_before: usize,
    pub message: String,
}

/// The position, in `local`, of the first model with the name.
pub open spec fn local_match(local: Seq<Model>, name: Seq<char>) -> Option<int> {
    first_where(local, model_name_is(name))
}

/// The context-size changes a sync makes, in upstream order: for each entry
/// whose name has a local model and whose size is given and differs from that
/// model's, the model's id and name and the new size.
pub open spec fn context_updates(local: Seq<Model>, up: Seq<(Seq<char>, Seq<char>, Option<u64>)>) -> Seq<(Seq<char>, Seq<char>, u64)>
    decreases up.len(),
{
    if up.len() == 0 {
        Seq::empty()
    } else {
        let prev = context_updates(local, up.drop_last());
        let e = up.last();
        match local_match(local, e.0) {
            Some(i) => match e.2 {
                Some(c) => if local[i].max_input_tokens != Some(c) {
                    prev.push((local[i].id@, local[i].model_name@, c))
                } else {
                    prev
                },
                None => prev,
            },
            None => prev,
        }
    }
}

/// Whether an entry's name has no local model.
pub open spec fn unmatched(local: Seq<Model>) -> spec_fn((Seq<char>, Seq<char>, Option<u64>)) -> bool {
    |e: (Seq<char>, Seq<char>, Option<u64>)| local_match(local, e.0) is None
}

/// The models after the context-size changes, each applied to the first model with its id.
pub open spec fn with_contexts(models: Seq<Model>, ups: Seq<(Seq<char>, Seq<char>, u64)>) -> Seq<Model>
    decreases ups.len(),
{
    if ups.len() == 0 {
        models
    } else {
        let m = with_contexts(models, ups.drop_last());
        let u = ups.last();
        match first_where(m, model_has_id(u.0)) {
            Some(j) => m.update(j, Model { max_input_tokens: Some(u.2), ..m[j] }),
            None => m,
        }
    }
}

/// Whether `m` is the model a sync creates for the entry at position `pos`.
pub open spec fn synced_model(m: Model, platform_id: Seq<char>, e: (Seq<char>, Seq<char>, Option<u64>), pos: int) -> bool {
    &&& m.id@.len() == 36
    &&& m.platform_id@ == platform_id
    &&& m.model_name@ == e.0
    &&& m.display_name@ == e.1
    &&& m.per_5hour == IMPORT_PER_5HOUR
    &&& m.per_day == IMPORT_PER_DAY
    &&& m.per_month == IMPORT_PER_MONTH
    &&& m.sort_order == pos as i32
    &&& m.max_input_tokens == e.2
}

/// The names of a list of entries.
pub open spec fn entry_names(es: Seq<(Seq<char>, Seq<char>, Option<u64>)>) -> Seq<Seq<char>> {
    es.map_values(|e: (Seq<char>, Seq<char>, Option<u64>)| e.0)
}

/// The names of the context-size changes.
pub open spec fn update_names(us: Seq<(Seq<char>, Seq<char>, u64)>) -> Seq<Seq<char>> {
    us.map_values(|u: (Seq<char>, Seq<char>, u64)| u.1)
}

/// The message of a sync: what was created, then what was updated, one per
/// line; when nothing changed, that all are in sync.
pub open spec fn sync_message(created: Seq<Seq<char>>, updated: Seq<Seq<char>>, total_upstream: nat, total_local: nat) -> Seq<char> {
    let c = "Created "@ + decimal(created.len()) + " new models: "@ + joined(created, ", "@);
    let u = "Updated context size for "@ + decimal(updated.len()) + " models: "@ + joined(updated, ", "@);
    if created.len() == 0 && updated.len() == 0 {
        "All "@ + decimal(total_upstream) + " upstream models already in sync ("@ + decimal(total_local) + " local models)"@
    } else if created.len() == 0 {
        u
    } else if updated.len() == 0 {
        c
    } else {
        c + "\n"@ + u
    }
}

proof fn lemma_with_contexts_ids(models: Seq<Model>, ups: Seq<(Seq<char>, Seq<char>, u64)>)
    ensures
        with_contexts(models, ups).len() == models.len(),
        forall|j: int| 0 <= j < models.len() ==> (#[trigger] with_contexts(models, ups)[j]).id == models[j].id,
    decreases ups.len(),
{
    if ups.len() > 0 {
        let m = with_contexts(models, ups.drop_last());
        lemma_with_contexts_ids(models, ups.drop_last());
        lemma_first_where_props(m, model_has_id(ups.last().0));
        assert forall|j: int| 0 <= j < models.len() implies (#[trigger] with_contexts(models, ups)[j]).id == models[j].id by {
            assert(m[j].id == models[j].id);
        }
    }
}

fn find_by_name(local: &Vec<Model>, name: &String) -> (r: Option<usize>)
    ensures
        match r {
            Some(i) => local_match(local@, name@) == Some(i as int) && i < local@.len(),
            None => local_match(local@, name@) is None,
        },
{
    let mut i: usize = 0;
    while i < local.len()
        invariant
            i <= local.len(),
            first_where(local@.take(i as int), model_name_is(name@)) is None,
        decreases local.len() - i,
    {
        proof {
            lemma_first_where(local@, model_name_is(name@), i as int);
        }
        if local[i].model_name == *name {
            proof {
                lemma_first_where(local@, model_name_is(name@), i + 1);
            }
            return Some(i);
        }
        i += 1;
    }
    proof {
        lemma_first_where(local@, model_name_is(name@), i as int);
    }
    None
}

fn push_sync_message(created: &Vec<String>, updated: &Vec<String>, total_upstream: usize, total_local: usize) -> (r: String)
    ensures
        r@ == sync_message(texts(created@), texts(updated@), total_upstream as nat, total_local as nat),
{
    let mut v: Vec<char> = Vec::new();
    if created.len() == 0 && updated.len() == 0 {
        push_str(&mut v, "All ");
        push_decimal(&mut v, total_upstream as u64);
        push_str(&mut v, " upstream models already in sync (");
        push_decimal(&mut v, total_local as u64);
        push_str(&mut v, " local models)");
    } else {
        if created.len() > 0 {
            push_str(&mut v, "Created ");
            push_decimal(&mut v, created.len() as u64);
            push_str(&mut v, " new models: ");
            push_joined(&mut v, created, ", ");
        }
        if updated.len() > 0 {
            if created.len() > 0 {
                push_str(&mut v, "\n");
            }
            push_str(&mut v, "Updated context size for ");
            push_decimal(&mut v, updated.len() as u64);
            push_str(&mut v, " models: ");
            push_joined(&mut v, updated, ", ");
        }
    }
    let r = string_from_chars(&v);
    proof {
        assert(r@ =~= sync_message(texts(created@), texts(updated@), total_upstream as nat, total_local as nat));
    }
    r
}

/// Syncs the platform's models with the upstream list. The local models are
/// those of the platform in sort order, taken before any change; an entry
/// whose name has a local model updates that model's context size when the
/// entry gives a different one; an entry whose name has none becomes a new
/// model (repeats included) with the import limits.
pub fn refresh_models_from_upstream(
    store: &mut ModelStore,
    platform_id: &str,
    upstream: &Vec<UpstreamEntry>,
) -> (r: Result<RefreshModelsResult, String>)
    ensures
        r matches Ok(res) && {
            let olds = old(store).models@;
            let local = sort_by_order(keep(olds, model_of_platform(platform_id@)));
            let up = entry_views(upstream@);
            let ups = context_updates(local, up);
            let creates = keep(up, unmatched(local));
            &&& texts(res.updated@) == update_names(ups)
            &&& texts(res.created@) == entry_names(creates)
            &&& res.total_upstream == up.len()
            &&& res.total_local_before == local.len()
            &&& res.message@ == sync_message(entry_names(creates), update_names(ups), up.len(), local.len())
            &&& final(store).models@.len() == olds.len() + creates.len()
            &&& final(store).models@.take(olds.len() as int) == with_contexts(olds, ups)
            &&& forall|k: int| 0 <= k < creates.len() ==>
                synced_model(#[trigger] final(store).models@[olds.len() + k], platform_id@, creates[k], olds.len() + k)
        },
{
    let ghost olds = store.models@;
    let local = match model_manager::list_models(store, platform_id) {
        Ok(v) => v,
        Err(e) => return Err(e),
    };
    let ghost up = entry_views(upstream@);
    let ghost kept = keep(olds, model_of_platform(platform_id@));
    proof {
        lemma_keep_props(olds, model_of_platform(platform_id@));
    }
    let mut updated: Vec<String> = Vec::new();
    let mut creates: Vec<UpstreamEntry> = Vec::new();
    let mut i: usize = 0;
    while i < upstream.len()
        invariant
            i <= upstream.len(),
            up == entry_views(upstream@),
            local@ == sort_by_order(kept),
            kept == keep(olds, model_of_platform(platform_id@)),
            forall|x: Model| kept.contains(x) ==> olds.contains(x),
            store.models@ == with_contexts(olds, context_updates(local@, up.take(i as int))),
            texts(updated@) == update_names(context_updates(local@, up.take(i as int))),
            entry_views(creates@) == keep(up.take(i as int), unmatched(local@)),
        decreases upstream.len() - i,
    {
        let ghost ui = up.take(i as int);
        let ghost cu = context_updates(local@, ui);
        proof {
            assert(up.take(i + 1).drop_last() =~= ui);
            assert(up.take(i + 1).last() == entry_view(upstream@[i as int]));
            lemma_with_contexts_ids(olds, cu);
        }
        match find_by_name(&local, &upstream[i].0) {
            Some(li) => {
                match upstream[i].2 {
                    Some(c) => {
                        if local[li].max_input_tokens != Some(c) {
                            proof {
                                let lm = local@[li as int];
                                lemma_sort_contains(kept, lm);
                                assert(local@.contains(lm));
                                assert(olds.contains(lm));
                                let j = choose|j: int| 0 <= j < olds.len() && olds[j] == lm;
                                assert(store.models@[j].id == lm.id);
                                lemma_first_where_props(store.models@, model_has_id(lm.id@));
                                assert(model_has_id(lm.id@)(store.models@[j]));
                            }
                            let _ = model_manager::update_model_context(&mut *store, local[li].id.as_str(), Some(c));
                            let ghost bu = updated@;
                            updated.push(local[li].model_name.clone());
                            proof {
                                assert(texts(updated@) =~= texts(bu).push(local@[li as int].model_name@));
                                let u = (local@[li as int].id@, local@[li as int].model_name@, c);
                                assert(context_updates(local@, up.take(i + 1)) == cu.push(u));
                                assert(cu.push(u).drop_last() =~= cu);
                                assert(cu.push(u).last() == u);
                                assert(update_names(cu.push((local@[li as int].id@, local@[li as int].model_name@, c))) =~= update_names(cu).push(local@[li as int].model_name@));
                            }
                        } else {
                            proof {
                                assert(context_updates(local@, up.take(i + 1)) == cu);
                            }
                        }
                    },
                    None => {
                        proof {
                            assert(context_updates(local@, up.take(i + 1)) == cu);
                        }
                    },
                }
                proof {
                    assert(!unmatched(local@)(up.take(i + 1).last()));
                }
            },
            None => {
                let ghost bc = creates@;
                creates.push((upstream[i].0.clone(), upstream[i].1.clone(), upstream[i].2));
                proof {
                    assert(context_updates(local@, up.take(i + 1)) == cu);
                    assert(unmatched(local@)(up.take(i + 1).last()));
                    assert(entry_views(creates@) =~= entry_views(bc).push(up.take(i + 1).last()));
                }
            },
        }
        i += 1;
    }
    proof {
        assert(up.take(i as int) =~= up);
    }
    let ghost cr = entry_views(creates@);
    let ghost mid = store.models@;
    proof {
        lemma_with_contexts_ids(olds, context_updates(local@, up));
    }
    let mut created: Vec<String> = Vec::new();
    let mut k: usize = 0;
    while k < creates.len()
        invariant
            k <= creates.len(),
            cr == entry_views(creates@),
            mid.len() == olds.len(),
            store.models@.len() == olds.len() + k,
            store.models@.take(olds.len() as int) == mid,
            texts(created@) == entry_names(cr.take(k as int)),
            forall|j: int| 0 <= j < k ==>
                synced_model(#[trigger] store.models@[olds.len() + j], platform_id@, cr[j], olds.len() + j),
        decreases creates.len() - k,
    {
        let ghost before = store.models@;
        let _ = model_manager::add_model_sized(
            &mut *store,
            owned(platform_id),
            creates[k].0.clone(),
            creates[k].1.clone(),
            Some(IMPORT_PER_5HOUR),
            Some(IMPORT_PER_DAY),
            Some(IMPORT_PER_MONTH),
            creates[k].2,
        );
        let ghost bc = created@;
        created.push(creates[k].0.clone());
        proof {
            assert(store.models@ == before.push(store.models@.last()));
            assert(store.models@.take(olds.len() as int) =~= before.take(olds.len() as int));
            assert(cr[k as int] == entry_view(creates@[k as int]));
            assert forall|j: int| 0 <= j < k + 1 implies
                synced_model(#[trigger] store.models@[olds.len() + j], platform_id@, cr[j], olds.len() + j) by {
                if j < k {
                    assert(store.models@[olds.len() + j] == before[olds.len() + j]);
                }
            }
            assert(cr.take(k + 1) =~= cr.take(k as int).push(cr[k as int]));
            assert(entry_names(cr.take(k + 1)) =~= entry_names(cr.take(k as int)).push(cr[k as int].0));
            assert(texts(created@) =~= texts(bc).push(creates@[k as int].0@));
        }
        k += 1;
    }
    proof {
        assert(cr.take(k as int) =~= cr);
    }
    let total_upstream = upstream.len();
    let total_local_before = local.len();
    let message = push_sync_message(&created, &updated, total_upstream, total_local_before);
    Ok(RefreshModelsResult { updated, created, total_upstream, total_local_before, message })
}

// ── Testing a model ──

/// The outcome of a test request.
#[derive(Debug, Clone)]
pub struct TestModelResult {
    pub success: bool,
    pub latency_ms: u64,
    pub model_name: String,
    pub message: String,
}

/// The address a test request goes to.
pub fn chat_completions_url(base_url: &str) -> (r: String)
    ensures
        r@ == joined_url(strip_trailing(base_url@, '/'), "/v1/chat/completions"@),
{
    let base = string_from_chars(&crate::text::trim_end_char(&str_chars(base_url), '/'));
    deduplicate_url_path(base.as_str(), "/v1/chat/completions")
}

fn int_json(n: u64) -> (r: Json)
    ensures
        r matches Json::Number(x) && x.as_u64 == Some(n) && x.text@ == decimal(n as nat),
{
    let mut t: Vec<char> = Vec::new();
    push_decimal(&mut t, n);
    let signed: Option<i64> = if n <= i64::MAX as u64 { Some(n as i64) } else { None };
    Json::Number(json::JsonNumber { as_u64: Some(n), as_i64: signed, text: string_from_chars(&t) })
}

/// The body of a test request: one user message "Hi", at most one token, no stream.
pub open spec fn test_request(j: Json, model_name: Seq<char>) -> bool {
    &&& get(j, "model"@) matches Some(Json::Str(m)) && m@ == model_name
    &&& get(j, "max_tokens"@) matches Some(Json::Number(n)) && n.as_u64 == Some(1u64)
    &&& get(j, "stream"@) == Some(Json::Bool(false))
    &&& get(j, "messages"@) matches Some(Json::Array(ms)) && ms@.len() == 1
        && str_of(get(ms@[0], "role"@)) == Some("user"@)
        && str_of(get(ms@[0], "content"@)) == Some("Hi"@)
}

/// Builds the body of a test request (members in key order).
pub fn test_model_request(model_name: &str) -> (r: Json)
    ensures
        test_request(r, model_name@),
        r is Object,
{
    let mut msg: Vec<(String, Json)> = Vec::new();
    msg.push((owned("content"), Json::Str(owned("Hi"))));
    msg.push((owned("role"), Json::Str(owned("user"))));
    let ghost msv = msg@;
    let mut messages: Vec<Json> = Vec::new();
    messages.push(Json::Object(msg));
    proof {
        reveal_strlit("content");
        reveal_strlit("role");
        reveal_with_fuel(json::member, 3);
        assert(msv[0].0@ == "content"@);
        assert(msv.drop_first()[0].0@ == "role"@);
        assert(get(messages@[0], "role"@) == Some(msv[1].1));
        assert(get(messages@[0], "content"@) == Some(msv[0].1));
    }
    let ghost mv = messages@;
    let mut es: Vec<(String, Json)> = Vec::new();
    es.push((owned("max_tokens"), int_json(1)));
    es.push((owned("messages"), Json::Array(messages)));
    es.push((owned("model"), Json::Str(owned(model_name))));
    es.push((owned("stream"), Json::Bool(false)));
    let ghost esv = es@;
    let r = Json::Object(es);
    proof {
        reveal_strlit("content");
        reveal_strlit("role");
        reveal_strlit("max_tokens");
        reveal_strlit("messages");
        reveal_strlit("model");
        reveal_strlit("stream");
        reveal_with_fuel(json::member, 5);
        let es = esv;
        assert(es[0].0@ == "max_tokens"@);
        assert(es.drop_first()[0].0@ == "messages"@);
        assert(es.drop_first().drop_first()[0].0@ == "model"@);
        assert(es.drop_first().drop_first().drop_first()[0].0@ == "stream"@);
        assert(get(r, "max_tokens"@) == Some(es[0].1));
        assert(get(r, "model"@) == Some(es[2].1));
        assert(get(r, "stream"@) == Some(es[3].1));
        assert(get(r, "messages"@) == Some(es[1].1));
        assert(es[1].1 == Json::Array(messages));
    }
    r
}

/// The first step of the pointer `/choices/0`: element 0 of an array, or
/// member "0" of an object.
pub open spec fn pointer_zero(j: Option<Json>) -> Option<Json> {
    match j {
        Some(Json::Array(v)) => if v@.len() > 0 { Some(v@[0]) } else { None },
        Some(Json::Object(es)) => json::member(es@, "0"@),
        _ => None,
    }
}

/// The model that answered: the answer's `model`, else the requested name.
pub open spec fn answering_model(body: Json, model_name: Seq<char>) -> Seq<char> {
    match str_of(get(body, "model"@)) {
        Some(s) => s,
        None => model_name,
    }
}

/// The finish reason of the answer's first choice, else "unknown".
pub open spec fn finish_reason(body: Json) -> Seq<char> {
    match str_of(json::get_opt(pointer_zero(get(body, "choices"@)), "finish_reason"@)) {
        Some(s) => s,
        None => "unknown"@,
    }
}

/// The outcome of a test that the model answered (a 2xx status with a JSON body).
pub fn model_answered(latency_ms: u64, model_name: &str, body: &Json) -> (r: TestModelResult)
    ensures
        r.success,
        r.latency_ms == latency_ms,
        r.model_name@ == answering_model(*body, model_name@),
        r.message@ == "Model '"@ + answering_model(*body, model_name@) + "' responded in "@ + decimal(latency_ms as nat)
            + "ms (finish_reason: "@ + finish_reason(*body) + ")"@,
{
    let used = match member_str(body, "model") {
        Some(s) => s.clone(),
        None => owned(model_name),
    };
    let choices = json::get_member(body, "choices");
    let first: Option<&Json> = match choices {
        Some(Json::Array(v)) => if v.len() > 0 { Some(&v[0]) } else { None },
        Some(Json::Object(_)) => json::get_member(choices.unwrap(), "0"),
        _ => None,
    };
    let finish = match json::as_str(json::get_in(first, "finish_reason")) {
        Some(s) => s.clone(),
        None => owned("unknown"),
    };
    let mut v: Vec<char> = Vec::new();
    push_str(&mut v, "Model '");
    push_str(&mut v, used.as_str());
    push_str(&mut v, "' responded in ");
    push_decimal(&mut v, latency_ms);
    push_str(&mut v, "ms (finish_reason: ");
    push_str(&mut v, finish.as_str());
    push_str(&mut v, ")");
    TestModelResult { success: true, latency_ms, model_name: used, message: string_from_chars(&v) }
}

/// The message of a test that the upstream refused with `status`.
pub open spec fn refused_message(status: u16, model_name: Seq<char>, error_body: Seq<char>) -> Seq<char> {
    if status == 401 || status == 403 {
        "Authentication failed (HTTP "@ + decimal(status as nat) + "). Check your API key."@
    } else if status == 404 {
        "Model '"@ + model_name + "' not found (HTTP 404). The model may not exist or is unavailable."@
    } else {
        "HTTP "@ + decimal(status as nat) + ": "@ + error_body.take(if error_body.len() < 200 { error_body.len() as int } else { 200 })
    }
}

/// The outcome of a test that the upstream answered with a status outside 2xx.
pub fn model_refused(status: u16, latency_ms: u64, model_name: &str, error_body: &str) -> (r: TestModelResult)
    ensures
        !r.success,
        r.latency_ms == latency_ms,
        r.model_name@ == model_name@,
        r.message@ == refused_message(status, model_name@, error_body@),
{
    let mut v: Vec<char> = Vec::new();
    if status == 401 || status == 403 {
        push_str(&mut v, "Authentication failed (HTTP ");
        push_decimal(&mut v, status as u64);
        push_str(&mut v, "). Check your API key.");
    } else if status == 404 {
        push_str(&mut v, "Model '");
        push_str(&mut v, model_name);
        push_str(&mut v, "' not found (HTTP 404). The model may not exist or is unavailable.");
    } else {
        push_str(&mut v, "HTTP ");
        push_decimal(&mut v, status as u64);
        push_str(&mut v, ": ");
        let body = str_chars(error_body);
        let n = if body.len() < 200 { body.len() } else { 200 };
        let head = crate::text::slice_chars(&body, 0, n);
        crate::text::push_all(&mut v, &head);
        proof {
            assert(head@ =~= body@.take(n as int));
        }
    }
    TestModelResult { success: false, latency_ms, model_name: owned(model_name), message: string_from_chars(&v) }
}

// ── The /v1/models answer ──

/// The OpenAI-style entry of a model owned by a platform.
pub open spec fn model_entry(m: Model, platform_id: Seq<char>) -> JsonV {
    JsonV::Object(seq![("created"@, i64_number(m.created_at)), ("id"@, JsonV::Str(m.model_name@))]
        + (match m.max_input_tokens {
            Some(c) => seq![("max_input_tokens"@, u64_number(c))],
            None => Seq::empty(),
        })
        + seq![("object"@, JsonV::Str("model"@)), ("owned_by"@, JsonV::Str(platform_id))])
}

/// The entries of every platform's models, platforms in configuration order,
/// each platform's models in sort order.
pub open spec fn model_entries(ps: Seq<crate::models::Platform>, models: Seq<Model>) -> Seq<JsonV>
    decreases ps.len(),
{
    if ps.len() == 0 {
        Seq::empty()
    } else {
        let p = ps.last();
        model_entries(ps.drop_last(), models)
            + sort_by_order(keep(models, model_of_platform(p.id@))).map_values(|m: Model| model_entry(m, p.id@))
    }
}

fn entry_json(m: &Model, platform_id: &String) -> (r: Json)
    ensures
        jv(r) == model_entry(*m, platform_id@),
{
    let mut es: Vec<(String, Json)> = Vec::new();
    es.push((owned("created"), i64_json(m.created_at)));
    es.push((owned("id"), Json::Str(m.model_name.clone())));
    match m.max_input_tokens {
        Some(c) => es.push((owned("max_input_tokens"), u64_json(c))),
        None => {},
    }
    es.push((owned("object"), Json::Str(owned("model"))));
    es.push((owned("owned_by"), Json::Str(platform_id.clone())));
    proof {
        json::lemma_jv_members(es@);
        match m.max_input_tokens {
            Some(c) => {
                assert(jv_members(es@) =~= seq![("created"@, i64_number(m.created_at)), ("id"@, JsonV::Str(m.model_name@))]
                    + seq![("max_input_tokens"@, u64_number(c))]
                    + seq![("object"@, JsonV::Str("model"@)), ("owned_by"@, JsonV::Str(platform_id@))]);
            },
            None => {
                assert(jv_members(es@) =~= seq![("created"@, i64_number(m.created_at)), ("id"@, JsonV::Str(m.model_name@))]
                    + Seq::<(Seq<char>, JsonV)>::empty()
                    + seq![("object"@, JsonV::Str("model"@)), ("owned_by"@, JsonV::Str(platform_id@))]);
            },
        }
    }
    Json::Object(es)
}

/// The `/v1/models` answer: `{"data": [...], "object": "list"}` with an entry
/// for every model of every configured platform.
pub fn models_list(config: &crate::models::AppConfig, store: &ModelStore) -> (r: Json)
    ensures
        jv(r) == JsonV::Object(seq![
            ("data"@, JsonV::Array(model_entries(config.platforms@, store.models@))),
            ("object"@, JsonV::Str("list"@)),
        ]),
{
    let ps = &config.platforms;
    let mut data: Vec<Json> = Vec::new();
    let mut i: usize = 0;
    proof {
        assert(ps@.take(0) =~= Seq::<crate::models::Platform>::empty());
        assert(json::jv_seq(data@) =~= Seq::<JsonV>::empty());
    }
    while i < ps.len()
        invariant
            i <= ps.len(),
            json::jv_seq(data@) == model_entries(ps@.take(i as int), store.models@),
        decreases ps.len() - i,
    {
        let p = &ps[i];
        let models = match model_manager::list_models(store, p.id.as_str()) {
            Ok(v) => v,
            Err(_) => Vec::new(),
        };
        let ghost start = json::jv_seq(data@);
        let mut k: usize = 0;
        while k < models.len()
            invariant
                k <= models.len(),
                json::jv_seq(data@) == start + models@.take(k as int).map_values(|m: Model| model_entry(m, p.id@)),
            decreases models.len() - k,
        {
            let e = entry_json(&models[k], &p.id);
            let ghost b = data@;
            data.push(e);
            proof {
                assert(data@.drop_last() =~= b);
                assert(models@.take(k + 1).map_values(|m: Model| model_entry(m, p.id@))
                    =~= models@.take(k as int).map_values(|m: Model| model_entry(m, p.id@)).push(model_entry(models@[k as int], p.id@)));
            }
            k += 1;
        }
        proof {
            assert(models@.take(k as int) =~= models@);
            assert(ps@.take(i + 1).drop_last() =~= ps@.take(i as int));
            assert(ps@.take(i + 1).last() == *p);
        }
        i += 1;
    }
    proof {
        assert(ps@.take(i as int) =~= ps@);
    }
    let ghost dv = json::jv_seq(data@);
    let mut es: Vec<(String, Json)> = Vec::new();
    es.push((owned("data"), Json::Array(data)));
    es.push((owned("object"), Json::Str(owned("list"))));
    proof {
        json::lemma_jv_members(es@);
        assert(jv_members(es@) =~= seq![("data"@, JsonV::Array(dv)), ("object"@, JsonV::Str("list"@))]);
    }
    Json::Object(es)
}

} // verus!
