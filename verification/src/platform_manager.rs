//! Platform list: listing, adding, editing, deleting and reordering.

use vstd::prelude::*;
use crate::clock;
use crate::keystore::KeyStore;
use crate::models::{ApiKey, AppConfig, Platform};
use crate::sorting::{
    Ordered, all_same, copy_all, first_where, keep, lemma_first_where, lemma_first_where_props,
    lemma_sort_same, sort_by_order, stable_sort,
};
use crate::text::{owned, push_str, string_from_chars};

verus! {

/// The message of a missing platform.
pub open spec fn platform_not_found(platform_id: Seq<char>) -> Seq<char> {
    "Platform not found: "@ + platform_id
}

/// Whether a platform has the given id.
pub open spec fn platform_has_id(platform_id: Seq<char>) -> spec_fn(Platform) -> bool {
    |p: Platform| p.id@ == platform_id
}

/// Whether a key does not belong to the given platform.
pub open spec fn key_not_of_platform(platform_id: Seq<char>) -> spec_fn(ApiKey) -> bool {
    |k: ApiKey| k.platform_id@ != platform_id
}

/// Whether everything but the platform list is the same.
pub open spec fn same_but_platforms(a: AppConfig, b: AppConfig) -> bool {
    &&& a.language == b.language
    &&& a.theme == b.theme
    &&& a.proxy_port == b.proxy_port
    &&& a.proxy_host == b.proxy_host
    &&& a.auto_switch == b.auto_switch
    &&& a.codex_profiles == b.codex_profiles
    &&& a.provider_profiles == b.provider_profiles
}

fn not_found(platform_id: &str) -> (r: String)
    ensures
        r@ == platform_not_found(platform_id@),
{
    let mut v: Vec<char> = Vec::new();
    push_str(&mut v, "Platform not found: ");
    push_str(&mut v, platform_id);
    string_from_chars(&v)
}

fn find_platform(platforms: &Vec<Platform>, platform_id: &str) -> (r: Option<usize>)
    ensures
        r matches Some(i) ==> first_where(platforms@, platform_has_id(platform_id@)) == Some(i as int) && i < platforms@.len(),
        r is None ==> first_where(platforms@, platform_has_id(platform_id@)) is None,
{
    let id = owned(platform_id);
    let mut i: usize = 0;
    while i < platforms.len()
        invariant
            i <= platforms.len(),
            id@ == platform_id@,
            first_where(platforms@.take(i as int), platform_has_id(platform_id@)) is None,
        decreases platforms.len() - i,
    {
        proof {
            lemma_first_where(platforms@, platform_has_id(platform_id@), i as int);
        }
        if platforms[i].id == id {
            proof {
                lemma_first_where(platforms@, platform_has_id(platform_id@), i + 1);
            }
            return Some(i);
        }
        i += 1;
    }
    proof {
        lemma_first_where(platforms@, platform_has_id(platform_id@), i as int);
    }
    None
}

/// The platform with the id (a copy of the first one), or `Platform not found: <id>`.
pub fn get_platform(config: &AppConfig, platform_id: &str) -> (r: Result<Platform, String>)
    ensures
        match first_where(config.platforms@, platform_has_id(platform_id@)) {
            Some(i) => r matches Ok(p) && p.same_platform(&config.platforms@[i]),
            None => r matches Err(e) && e@ == platform_not_found(platform_id@),
        },
{
    match find_platform(&config.platforms, platform_id) {
        Some(i) => Ok(config.platforms[i].duplicate()),
        None => Err(not_found(platform_id)),
    }
}

/// All platforms, ordered by sort order (stable).
pub fn list_platforms(config: &AppConfig) -> (r: Vec<Platform>)
    ensures
        all_same(r@, sort_by_order(config.platforms@)),
{
    let copies = copy_all(&config.platforms);
    let ghost c = copies@;
    let sorted = stable_sort(copies);
    proof {
        lemma_sort_same(c, config.platforms@);
    }
    sorted
}

/// Adds a platform with a fresh id; its sort order is its position in the list.
pub fn add_platform(
    config: &mut AppConfig,
    name: String,
    base_url: String,
    path_prefix: String,
    notes: Option<String>,
) -> (r: Platform)
    ensures
        r.id@.len() == 36,
        r.name == name,
        r.base_url == base_url,
        r.path_prefix == path_prefix,
        r.notes == notes,
        r.sort_order == old(config).platforms@.len() as i32,
        r.base_url_overrides@.len() == 0,
        r.default_model is None,
        final(config).platforms@.len() == old(config).platforms@.len() + 1,
        final(config).platforms@.drop_last() == old(config).platforms@,
        final(config).platforms@.last().same_platform(&r),
        same_but_platforms(*final(config), *old(config)),
{
    let id = clock::new_uuid();
    let mut platform = Platform::new(id, name, base_url, path_prefix);
    platform.notes = notes;
    platform.sort_order = config.platforms.len() as i32;
    let copy = platform.duplicate();
    let ghost before = config.platforms@;
    config.platforms.push(copy);
    proof {
        assert(config.platforms@.drop_last() =~= before);
    }
    platform
}

/// The platform after an update: given fields replace the stored ones and the
/// notes are always replaced.
pub open spec fn updated_platform(
    p: Platform,
    name: Option<String>,
    base_url: Option<String>,
    path_prefix: Option<String>,
    notes: Option<String>,
) -> Platform {
    Platform {
        name: match name { Some(v) => v, None => p.name },
        base_url: match base_url { Some(v) => v, None => p.base_url },
        path_prefix: match path_prefix { Some(v) => v, None => p.path_prefix },
        notes,
        ..p
    }
}

/// Updates a platform's name, base URL, path prefix and notes.
pub fn update_platform(
    config: &mut AppConfig,
    platform_id: &str,
    name: Option<String>,
    base_url: Option<String>,
    path_prefix: Option<String>,
    notes: Option<String>,
) -> (r: Result<Platform, String>)
    ensures
        same_but_platforms(*final(config), *old(config)),
        match first_where(old(config).platforms@, platform_has_id(platform_id@)) {
            None => r matches Err(e) && e@ == platform_not_found(platform_id@)
                && final(config).platforms@ == old(config).platforms@,
            Some(i) => r matches Ok(p)
                && final(config).platforms@ == old(config).platforms@.update(i,
                    updated_platform(old(config).platforms@[i], name, base_url, path_prefix, notes))
                && p.same_platform(&updated_platform(old(config).platforms@[i], name, base_url, path_prefix, notes)),
        },
{
    match find_platform(&config.platforms, platform_id) {
        None => Err(not_found(platform_id)),
        Some(i) => {
            proof {
                lemma_first_where_props(config.platforms@, platform_has_id(platform_id@));
            }
            if let Some(v) = name {
                config.platforms[i].name = v;
            }
            if let Some(v) = base_url {
                config.platforms[i].base_url = v;
            }
            if let Some(v) = path_prefix {
                config.platforms[i].path_prefix = v;
            }
            config.platforms[i].notes = notes;
            Ok(config.platforms[i].duplicate())
        },
    }
}

/// Deletes a platform and every API key of it.
pub fn delete_platform(config: &mut AppConfig, key_store: &mut KeyStore, platform_id: &str) -> (r: Result<(), String>)
    ensures
        same_but_platforms(*final(config), *old(config)),
        final(key_store).rotation_index@ == old(key_store).rotation_index@,
        match first_where(old(config).platforms@, platform_has_id(platform_id@)) {
            None => r matches Err(e) && e@ == platform_not_found(platform_id@)
                && final(config).platforms@ == old(config).platforms@
                && final(key_store).keys@ == old(key_store).keys@,
            Some(i) => r is Ok
                && final(config).platforms@ == old(config).platforms@.remove(i)
                && final(key_store).keys@ == keep(old(key_store).keys@, key_not_of_platform(platform_id@)),
        },
{
    match find_platform(&config.platforms, platform_id) {
        None => Err(not_found(platform_id)),
        Some(i) => {
            config.platforms.remove(i);
            let pid = owned(platform_id);
            let ghost orig = key_store.keys@;
            let mut kept: Vec<ApiKey> = Vec::new();
            let mut j: usize = 0;
            while j < key_store.keys.len()
                invariant
                    j <= key_store.keys.len(),
                    orig == key_store.keys@,
                    pid@ == platform_id@,
                    kept@ == keep(orig.take(j as int), key_not_of_platform(platform_id@)),
                decreases key_store.keys.len() - j,
            {
                proof {
                    assert(orig.take(j + 1).drop_last() =~= orig.take(j as int));
                    assert(orig.take(j + 1).last() == orig[j as int]);
                }
                if key_store.keys[j].platform_id != pid {
                    kept.push(key_store.keys[j].duplicate());
                }
                j += 1;
            }
            proof {
                assert(orig.take(j as int) =~= orig);
            }
            key_store.keys = kept;
            Ok(())
        },
    }
}

/// Whether one of the strings has the given characters.
pub open spec fn id_listed(ids: Seq<String>, id: Seq<char>) -> bool {
    exists|j: int| 0 <= j < ids.len() && (#[trigger] ids[j])@ == id
}

/// The listed platforms, in the order of the list: for each listed id that a
/// platform has, the first such platform with the id's position as its sort order.
pub open spec fn reorder_listed(ps: Seq<Platform>, ids: Seq<String>) -> Seq<Platform>
    decreases ids.len(),
{
    if ids.len() == 0 {
        Seq::empty()
    } else {
        let prev = reorder_listed(ps, ids.drop_last());
        match first_where(ps, platform_has_id(ids.last()@)) {
            Some(j) => prev.push(Platform { sort_order: (ids.len() - 1) as i32, ..ps[j] }),
            None => prev,
        }
    }
}

/// The platforms that are not listed, in their order, numbered on from `base`.
pub open spec fn reorder_rest(ps: Seq<Platform>, ids: Seq<String>, base: int) -> Seq<Platform>
    decreases ps.len(),
{
    if ps.len() == 0 {
        Seq::empty()
    } else {
        let prev = reorder_rest(ps.drop_last(), ids, base);
        if id_listed(ids, ps.last().id@) {
            prev
        } else {
            prev.push(Platform { sort_order: (base + prev.len()) as i32, ..ps.last() })
        }
    }
}

/// The platform list after a reorder.
pub open spec fn reordered(ps: Seq<Platform>, ids: Seq<String>) -> Seq<Platform> {
    let listed = reorder_listed(ps, ids);
    listed + reorder_rest(ps, ids, listed.len() as int)
}

fn is_listed(ids: &Vec<String>, id: &String) -> (r: bool)
    ensures
        r == id_listed(ids@, id@),
{
    let mut j: usize = 0;
    while j < ids.len()
        invariant
            j <= ids.len(),
            forall|x: int| 0 <= x < j ==> (#[trigger] ids@[x])@ != id@,
        decreases ids.len() - j,
    {
        if ids[j] == *id {
            proof {
                assert(ids@[j as int]@ == id@);
            }
            return true;
        }
        j += 1;
    }
    false
}

/// Gives the listed platforms the sort order of their position in the list,
/// and the others the following numbers in their current order.
pub fn reorder_platforms(config: &mut AppConfig, platform_ids: Vec<String>) -> (r: Result<(), String>)
    ensures
        r is Ok,
        same_but_platforms(*final(config), *old(config)),
        all_same(final(config).platforms@, reordered(old(config).platforms@, platform_ids@)),
{
    let ghost ps = config.platforms@;
    let ghost ids = platform_ids@;
    let mut out: Vec<Platform> = Vec::new();
    let mut i: usize = 0;
    while i < platform_ids.len()
        invariant
            i <= platform_ids.len(),
            ps == config.platforms@,
            ids == platform_ids@,
            all_same(out@, reorder_listed(ps, ids.take(i as int))),
        decreases platform_ids.len() - i,
    {
        proof {
            assert(ids.take(i + 1).drop_last() =~= ids.take(i as int));
            assert(ids.take(i + 1).last() == ids[i as int]);
        }
        match find_platform(&config.platforms, platform_ids[i].as_str()) {
            Some(j) => {
                let mut p = config.platforms[j].duplicate();
                p.sort_order = i as i32;
                let ghost before = out@;
                out.push(p);
                proof {
                    let exp = reorder_listed(ps, ids.take(i + 1));
                    assert forall|k: int| 0 <= k < out@.len() implies #[trigger] out@[k].same(&exp[k]) by {
                        if k < before.len() {
                            assert(before[k].same(&reorder_listed(ps, ids.take(i as int))[k]));
                        }
                    }
                }
            },
            None => {},
        }
        i += 1;
    }
    proof {
        assert(ids.take(i as int) =~= ids);
    }
    let ghost listed = reorder_listed(ps, ids);
    let ghost base = out@.len();
    let mut k: usize = 0;
    while k < config.platforms.len()
        invariant
            k <= config.platforms.len(),
            ps == config.platforms@,
            ids == platform_ids@,
            listed == reorder_listed(ps, ids),
            base == listed.len(),
            all_same(out@, listed + reorder_rest(ps.take(k as int), ids, base as int)),
        decreases config.platforms.len() - k,
    {
        proof {
            assert(ps.take(k + 1).drop_last() =~= ps.take(k as int));
            assert(ps.take(k + 1).last() == ps[k as int]);
        }
        if !is_listed(&platform_ids, &config.platforms[k].id) {
            let mut p = config.platforms[k].duplicate();
            p.sort_order = out.len() as i32;
            let ghost before = out@;
            out.push(p);
            proof {
                let rest_prev = reorder_rest(ps.take(k as int), ids, base as int);
                let exp = listed + reorder_rest(ps.take(k + 1), ids, base as int);
                assert(exp =~= (listed + rest_prev).push(Platform { sort_order: (base + rest_prev.len()) as i32, ..ps[k as int] }));
                assert forall|x: int| 0 <= x < out@.len() implies #[trigger] out@[x].same(&exp[x]) by {
                    if x < before.len() {
                        assert(before[x].same(&(listed + rest_prev)[x]));
                    }
                }
            }
        } else {
            proof {
                assert(listed + reorder_rest(ps.take(k + 1), ids, base as int)
                    =~= listed + reorder_rest(ps.take(k as int), ids, base as int));
            }
        }
        k += 1;
    }
    proof {
        assert(ps.take(k as int) =~= ps);
    }
    config.platforms = out;
    Ok(())
}

} // verus!
