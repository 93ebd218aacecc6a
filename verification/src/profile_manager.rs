//! Saved platform + model profiles.

use vstd::prelude::*;
use crate::clock;
use crate::models::{AppConfig, ProviderProfile};
use crate::sorting::{first_where, keep, lemma_first_where, lemma_first_where_props};
use crate::text::{owned, push_str, string_from_chars};

verus! {

/// Whether everything but the provider profiles is the same.
pub open spec fn same_but_profiles(a: AppConfig, b: AppConfig) -> bool {
    &&& a.language == b.language
    &&& a.theme == b.theme
    &&& a.proxy_port == b.proxy_port
    &&& a.proxy_host == b.proxy_host
    &&& a.auto_switch == b.auto_switch
    &&& a.platforms == b.platforms
    &&& a.codex_profiles == b.codex_profiles
}

/// The message of a missing profile.
pub open spec fn profile_not_found(profile_id: Seq<char>) -> Seq<char> {
    "Profile not found: "@ + profile_id
}

/// Whether a profile does not have the given id.
pub open spec fn profile_other(profile_id: Seq<char>) -> spec_fn(ProviderProfile) -> bool {
    |p: ProviderProfile| p.id@ != profile_id
}

/// Index of the first profile with the given id.
pub open spec fn profile_index(ps: Seq<ProviderProfile>, id: Seq<char>) -> Option<int> {
    first_where(ps, |p: ProviderProfile| p.id@ == id)
}

/// All saved profiles.
pub fn list_profiles(config: &AppConfig) -> (r: Vec<ProviderProfile>)
    ensures
        r@ == config.provider_profiles@,
{
    let mut out: Vec<ProviderProfile> = Vec::new();
    let mut i: usize = 0;
    while i < config.provider_profiles.len()
        invariant
            i <= config.provider_profiles.len(),
            out@ == config.provider_profiles@.take(i as int),
        decreases config.provider_profiles.len() - i,
    {
        out.push(config.provider_profiles[i].duplicate());
        i += 1;
        assert(out@ =~= config.provider_profiles@.take(i as int));
    }
    assert(config.provider_profiles@.take(i as int) =~= config.provider_profiles@);
    out
}

fn find_profile(ps: &Vec<ProviderProfile>, id: &String) -> (r: Option<usize>)
    ensures
        r matches Some(k) ==> k < ps@.len() && profile_index(ps@, id@) == Some(k as int),
        r is None ==> profile_index(ps@, id@) is None,
{
    let ghost f = |p: ProviderProfile| p.id@ == id@;
    let mut i: usize = 0;
    while i < ps.len()
        invariant
            i <= ps.len(),
            f == (|p: ProviderProfile| p.id@ == id@),
            first_where(ps@.take(i as int), f) is None,
        decreases ps.len() - i,
    {
        proof {
            lemma_first_where(ps@, f, i as int);
        }
        if ps[i].id == *id {
            proof {
                lemma_first_where(ps@, f, i + 1);
            }
            return Some(i);
        }
        i += 1;
    }
    proof {
        lemma_first_where(ps@, f, i as int);
    }
    None
}

/// Saves a profile at time `now`: when `id` names an existing profile (first
/// match) it is updated in place, otherwise a profile with id `new_id` is added.
pub fn save_profile_at(
    config: &mut AppConfig,
    id: Option<String>,
    name: String,
    platform_id: String,
    model_id: String,
    notes: Option<String>,
    now: i64,
    new_id: String,
) -> (r: Result<ProviderProfile, String>)
    ensures
        same_but_profiles(*final(config), *old(config)),
        r is Ok,
        match (match id { Some(x) => if x@.len() > 0 { profile_index(old(config).provider_profiles@, x@) } else { None }, None => None }) {
            Some(i) => r matches Ok(p) && p == (ProviderProfile {
                    name, platform_id, model_id, notes, updated_at: now, ..old(config).provider_profiles@[i]
                }) && final(config).provider_profiles@ == old(config).provider_profiles@.update(i, p),
            None => r matches Ok(p) && p == (ProviderProfile {
                    id: new_id, name, platform_id, model_id, notes, created_at: now, updated_at: now,
                }) && final(config).provider_profiles@ == old(config).provider_profiles@.push(p),
        },
{
    let found: Option<usize> = match id {
        Some(ref existing) => if !existing.as_str().is_empty() { find_profile(&config.provider_profiles, existing) } else { None },
        None => None,
    };
    proof {
        lemma_first_where_props(config.provider_profiles@, |p: ProviderProfile| p.id@ == id.unwrap()@);
    }
    match found {
        Some(i) => {
            config.provider_profiles[i].name = name;
            config.provider_profiles[i].platform_id = platform_id;
            config.provider_profiles[i].model_id = model_id;
            config.provider_profiles[i].notes = notes;
            config.provider_profiles[i].updated_at = now;
            Ok(config.provider_profiles[i].duplicate())
        },
        None => {
            let profile = ProviderProfile {
                id: new_id,
                name,
                platform_id,
                model_id,
                notes,
                created_at: now,
                updated_at: now,
            };
            config.provider_profiles.push(profile.duplicate());
            Ok(profile)
        },
    }
}

/// Saves a profile now; a new profile gets a fresh random id.
pub fn save_profile(
    config: &mut AppConfig,
    id: Option<String>,
    name: String,
    platform_id: String,
    model_id: String,
    notes: Option<String>,
) -> (r: Result<ProviderProfile, String>)
    ensures
        same_but_profiles(*final(config), *old(config)),
        exists|now: i64, new_id: String| 0 <= now && new_id@.len() == 36 && #[trigger] saved(*old(config), *final(config), r,
            id, name, platform_id, model_id, notes, now, new_id),
{
    let t = clock::now_unix_seconds();
    let now: i64 = if t < 0 { 0 } else { t };
    let new_id = clock::new_uuid();
    let ghost nid = new_id;
    let r = save_profile_at(config, id, name, platform_id, model_id, notes, now, new_id);
    assert(saved(*old(config), *config, r, id, name, platform_id, model_id, notes, now, nid));
    r
}

/// What `save_profile_at` gives for the given time and fresh id.
pub open spec fn saved(
    before: AppConfig,
    after: AppConfig,
    r: Result<ProviderProfile, String>,
    id: Option<String>,
    name: String,
    platform_id: String,
    model_id: String,
    notes: Option<String>,
    now: i64,
    new_id: String,
) -> bool {
    match (match id { Some(x) => if x@.len() > 0 { profile_index(before.provider_profiles@, x@) } else { None }, None => None }) {
        Some(i) => r matches Ok(p) && p == (ProviderProfile {
                name, platform_id, model_id, notes, updated_at: now, ..before.provider_profiles@[i]
            }) && after.provider_profiles@ == before.provider_profiles@.update(i, p),
        None => r matches Ok(p) && p == (ProviderProfile {
                id: new_id, name, platform_id, model_id, notes, created_at: now, updated_at: now,
            }) && after.provider_profiles@ == before.provider_profiles@.push(p),
    }
}

fn not_found(profile_id: &str) -> (r: String)
    ensures
        r@ == profile_not_found(profile_id@),
{
    let mut v: Vec<char> = Vec::new();
    push_str(&mut v, "Profile not found: ");
    push_str(&mut v, profile_id);
    string_from_chars(&v)
}

/// Deletes every profile with the given id; an error when there is none.
pub fn delete_profile(config: &mut AppConfig, profile_id: &str) -> (r: Result<(), String>)
    ensures
        same_but_profiles(*final(config), *old(config)),
        final(config).provider_profiles@ == keep(old(config).provider_profiles@, profile_other(profile_id@)),
        (exists|i: int| 0 <= i < old(config).provider_profiles@.len() && (#[trigger] old(config).provider_profiles@[i]).id@ == profile_id@)
            ==> r is Ok,
        !(exists|i: int| 0 <= i < old(config).provider_profiles@.len() && (#[trigger] old(config).provider_profiles@[i]).id@ == profile_id@)
            ==> (r matches Err(e) && e@ == profile_not_found(profile_id@)),
{
    let pid = owned(profile_id);
    let ghost orig = config.provider_profiles@;
    let mut kept: Vec<ProviderProfile> = Vec::new();
    let mut removed = false;
    let mut i: usize = 0;
    while i < config.provider_profiles.len()
        invariant
            i <= config.provider_profiles.len(),
            orig == config.provider_profiles@,
            pid@ == profile_id@,
            kept@ == keep(orig.take(i as int), profile_other(profile_id@)),
            removed == exists|j: int| 0 <= j < i && (#[trigger] orig[j]).id@ == profile_id@,
        decreases config.provider_profiles.len() - i,
    {
        proof {
            assert(orig.take(i + 1).drop_last() =~= orig.take(i as int));
            assert(orig.take(i + 1).last() == orig[i as int]);
        }
        if config.provider_profiles[i].id != pid {
            kept.push(config.provider_profiles[i].duplicate());
        } else {
            removed = true;
        }
        i += 1;
    }
    proof {
        assert(orig.take(i as int) =~= orig);
    }
    config.provider_profiles = kept;
    if !removed {
        return Err(not_found(profile_id));
    }
    Ok(())
}

} // verus!
