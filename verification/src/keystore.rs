//! The API key store: listing, adding, editing, deleting and enabling keys.

use vstd::prelude::*;
use crate::clock;
use crate::models::{ApiKey, KeyStatus};
use crate::sorting::{Ordered, first_where, keep, lemma_first_where, lemma_first_where_props, sort_by_order, stable_sort};
use crate::text::{push_str, string_from_chars};

verus! {

/// All API keys, with a round-robin position per platform.
#[derive(Debug, Clone)]
pub struct KeyStore {
    pub keys: Vec<ApiKey>,
    /// Round-robin index per platform (platform id, next index).
    pub rotation_index: Vec<(String, usize)>,
}

impl KeyStore {
    /// An empty store.
    pub fn new() -> (r: Self)
        ensures
            r.keys@.len() == 0,
            r.rotation_index@.len() == 0,
    {
        KeyStore { keys: Vec::new(), rotation_index: Vec::new() }
    }
}

/// The message of a missing key.
pub open spec fn key_not_found(key_id: Seq<char>) -> Seq<char> {
    "Key not found: "@ + key_id
}

/// Whether a key has the given id.
pub open spec fn has_id(key_id: Seq<char>) -> spec_fn(ApiKey) -> bool {
    |k: ApiKey| k.id@ == key_id
}

/// Whether a key belongs to the given platform.
pub open spec fn of_platform(platform_id: Seq<char>) -> spec_fn(ApiKey) -> bool {
    |k: ApiKey| k.platform_id@ == platform_id
}

fn not_found(key_id: &str) -> (r: String)
    ensures
        r@ == key_not_found(key_id@),
{
    let mut v: Vec<char> = Vec::new();
    push_str(&mut v, "Key not found: ");
    push_str(&mut v, key_id);
    string_from_chars(&v)
}

/// Index of the first key with the given id.
fn find_key(keys: &Vec<ApiKey>, key_id: &str) -> (r: Option<usize>)
    ensures
        r matches Some(i) ==> first_where(keys@, has_id(key_id@)) == Some(i as int) && i < keys@.len(),
        r is None ==> first_where(keys@, has_id(key_id@)) is None,
{
    let id = crate::text::owned(key_id);
    let mut i: usize = 0;
    while i < keys.len()
        invariant
            i <= keys.len(),
            id@ == key_id@,
            first_where(keys@.take(i as int), has_id(key_id@)) is None,
        decreases keys.len() - i,
    {
        proof {
            lemma_first_where(keys@, has_id(key_id@), i as int);
        }
        if keys[i].id == id {
            proof {
                lemma_first_where(keys@, has_id(key_id@), i + 1);
            }
            return Some(i);
        }
        i += 1;
    }
    proof {
        lemma_first_where(keys@, has_id(key_id@), i as int);
    }
    None
}

/// The keys of a platform, ordered by sort order (stable).
pub fn list_keys(store: &KeyStore, platform_id: &str) -> (r: Result<Vec<ApiKey>, String>)
    ensures
        r matches Ok(v) && v@ == sort_by_order(keep(store.keys@, of_platform(platform_id@))),
{
    let pid = crate::text::owned(platform_id);
    let mut picked: Vec<ApiKey> = Vec::new();
    let mut i: usize = 0;
    while i < store.keys.len()
        invariant
            i <= store.keys.len(),
            pid@ == platform_id@,
            picked@ == keep(store.keys@.take(i as int), of_platform(platform_id@)),
        decreases store.keys.len() - i,
    {
        proof {
            assert(store.keys@.take(i + 1).drop_last() =~= store.keys@.take(i as int));
            assert(store.keys@.take(i + 1).last() == store.keys@[i as int]);
        }
        if store.keys[i].platform_id == pid {
            picked.push(store.keys[i].duplicate());
        }
        i += 1;
    }
    proof {
        assert(store.keys@.take(i as int) =~= store.keys@);
    }
    Ok(stable_sort(picked))
}

/// Adds a new active key at the end of the store; its sort order is its position.
pub fn add_key(store: &mut KeyStore, platform_id: String, name: String, key_value: String) -> (r: Result<ApiKey, String>)
    ensures
        r matches Ok(k) && {
            &&& k.id@.len() == 36
            &&& k.platform_id == platform_id
            &&& k.name == name
            &&& k.key_value == key_value
            &&& k.status == KeyStatus::Active
            &&& k.disabled_reason is None
            &&& k.disabled_until is None
            &&& k.sort_order == old(store).keys@.len() as i32
            &&& final(store).keys@ == old(store).keys@.push(k)
        },
        final(store).rotation_index@ == old(store).rotation_index@,
{
    let id = clock::new_uuid();
    let mut key = ApiKey::new(id, platform_id, name, key_value);
    key.sort_order = store.keys.len() as i32;
    let copy = key.duplicate();
    store.keys.push(copy);
    Ok(key)
}

/// Renames a key and/or replaces its secret.
pub fn update_key(store: &mut KeyStore, key_id: &str, name: Option<String>, key_value: Option<String>) -> (r: Result<ApiKey, String>)
    ensures
        match first_where(old(store).keys@, has_id(key_id@)) {
            None => r matches Err(e) && e@ == key_not_found(key_id@) && final(store).keys@ == old(store).keys@,
            Some(i) => r matches Ok(k) && k == (ApiKey {
                    name: match name { Some(n) => n, None => old(store).keys@[i].name },
                    key_value: match key_value { Some(v) => v, None => old(store).keys@[i].key_value },
                    ..old(store).keys@[i]
                }) && final(store).keys@ == old(store).keys@.update(i, k),
        },
        final(store).rotation_index@ == old(store).rotation_index@,
{
    match find_key(&store.keys, key_id) {
        None => Err(not_found(key_id)),
        Some(i) => {
            proof {
                lemma_first_where_props(store.keys@, has_id(key_id@));
            }
            if let Some(n) = name {
                store.keys[i].name = n;
            }
            if let Some(v) = key_value {
                store.keys[i].key_value = v;
            }
            Ok(store.keys[i].duplicate())
        },
    }
}

/// Deletes the first key with the given id.
pub fn delete_key(store: &mut KeyStore, key_id: &str) -> (r: Result<(), String>)
    ensures
        match first_where(old(store).keys@, has_id(key_id@)) {
            None => r matches Err(e) && e@ == key_not_found(key_id@) && final(store).keys@ == old(store).keys@,
            Some(i) => r is Ok && final(store).keys@ == old(store).keys@.remove(i),
        },
        final(store).rotation_index@ == old(store).rotation_index@,
{
    match find_key(&store.keys, key_id) {
        None => Err(not_found(key_id)),
        Some(i) => {
            store.keys.remove(i);
            Ok(())
        },
    }
}

/// The key after enabling (`disabled == false`: reason and end cleared) or
/// disabling it (with the given reason and end).
pub open spec fn with_status(k: ApiKey, disabled: bool, reason: Option<String>, disabled_until: Option<i64>) -> ApiKey {
    if disabled {
        ApiKey { status: KeyStatus::Disabled, disabled_reason: reason, disabled_until, ..k }
    } else {
        ApiKey { status: KeyStatus::Active, disabled_reason: None, disabled_until: None, ..k }
    }
}

/// Enables or disables a key.
pub fn set_key_status(
    store: &mut KeyStore,
    key_id: &str,
    disabled: bool,
    reason: Option<String>,
    disabled_until: Option<i64>,
) -> (r: Result<ApiKey, String>)
    ensures
        match first_where(old(store).keys@, has_id(key_id@)) {
            None => r matches Err(e) && e@ == key_not_found(key_id@) && final(store).keys@ == old(store).keys@,
            Some(i) => r matches Ok(k) && k == with_status(old(store).keys@[i], disabled, reason, disabled_until)
                && final(store).keys@ == old(store).keys@.update(i, k),
        },
        final(store).rotation_index@ == old(store).rotation_index@,
{
    match find_key(&store.keys, key_id) {
        None => Err(not_found(key_id)),
        Some(i) => {
            if disabled {
                store.keys[i].status = KeyStatus::Disabled;
                store.keys[i].disabled_reason = reason;
                store.keys[i].disabled_until = disabled_until;
            } else {
                store.keys[i].status = KeyStatus::Active;
                store.keys[i].disabled_reason = None;
                store.keys[i].disabled_until = None;
            }
            Ok(store.keys[i].duplicate())
        },
    }
}

} // verus!
