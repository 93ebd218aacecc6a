use antigravity_hub::config::{set_proxy_host, set_proxy_port};
use antigravity_hub::key_model_map::{
    associate_key_with_model, disassociate_key_from_model, get_keys_for_model, get_models_for_key,
    remove_key_associations, remove_model_associations, remove_platform_associations, KeyModelMap,
};
use antigravity_hub::keystore::{add_key, delete_key, list_keys, set_key_status, update_key, KeyStore};
use antigravity_hub::model_manager::{
    add_model, add_model_sized, delete_model, delete_platform_models, list_models, update_model, update_model_context,
    ModelStore,
};
use antigravity_hub::models::{default_proxy_host, default_proxy_port, AppConfig, KeyStatus};
use antigravity_hub::platform_manager::{add_platform, delete_platform, list_platforms, reorder_platforms, update_platform};
use antigravity_hub::profile_manager::{delete_profile, list_profiles, save_profile, save_profile_at};
use antigravity_hub::proxy::ProxyRuntime;

#[test]
fn keys_are_listed_per_platform_in_order() {
    let mut store = KeyStore::new();
    let a = add_key(&mut store, "p1".into(), "first".into(), "sk-1".into()).unwrap();
    let _b = add_key(&mut store, "p2".into(), "other".into(), "sk-2".into()).unwrap();
    let c = add_key(&mut store, "p1".into(), "second".into(), "sk-3".into()).unwrap();
    assert_eq!(a.id.len(), 36);
    assert_eq!(a.sort_order, 0);
    assert_eq!(c.sort_order, 2);
    assert_eq!(a.status, KeyStatus::Active);
    let p1 = list_keys(&store, "p1").unwrap();
    assert_eq!(p1.len(), 2);
    assert_eq!(p1[0].name, "first");
    assert_eq!(p1[1].name, "second");
}

#[test]
fn key_update_status_and_delete() {
    let mut store = KeyStore::new();
    let a = add_key(&mut store, "p1".into(), "first".into(), "sk-1".into()).unwrap();
    let renamed = update_key(&mut store, &a.id, Some("renamed".into()), None).unwrap();
    assert_eq!(renamed.name, "renamed");
    assert_eq!(renamed.key_value, "sk-1");
    let off = set_key_status(&mut store, &a.id, true, Some("quota".into()), Some(123)).unwrap();
    assert_eq!(off.status, KeyStatus::Disabled);
    assert_eq!(off.disabled_reason.as_deref(), Some("quota"));
    assert_eq!(off.disabled_until, Some(123));
    let on = set_key_status(&mut store, &a.id, false, Some("ignored".into()), Some(5)).unwrap();
    assert_eq!(on.status, KeyStatus::Active);
    assert_eq!(on.disabled_reason, None);
    assert_eq!(on.disabled_until, None);
    assert!(delete_key(&mut store, &a.id).is_ok());
    assert_eq!(delete_key(&mut store, &a.id), Err(format!("Key not found: {}", a.id)));
    assert_eq!(update_key(&mut store, "nope", None, None).unwrap_err(), "Key not found: nope");
}

#[test]
fn models_add_update_and_delete() {
    let mut store = ModelStore::new();
    let mut map = KeyModelMap::new();
    let m = add_model(&mut store, "p1".into(), "gpt".into(), "GPT".into(), Some(5), None, None).unwrap();
    assert_eq!(m.per_5hour, 5);
    assert_eq!(m.per_day, 10000);
    assert_eq!(m.per_month, 100000);
    assert_eq!(m.max_input_tokens, None);
    let sized = add_model_sized(&mut store, "p1".into(), "big".into(), "Big".into(), None, None, None, Some(200000)).unwrap();
    assert_eq!(sized.max_input_tokens, Some(200000));
    assert_eq!(sized.sort_order, 1);
    let u = update_model(&mut store, &m.id, None, Some("Renamed".into()), None, Some(7), None).unwrap();
    assert_eq!(u.display_name, "Renamed");
    assert_eq!(u.per_day, 7);
    let c = update_model_context(&mut store, &m.id, Some(4096)).unwrap();
    assert_eq!(c.max_input_tokens, Some(4096));
    assert_eq!(list_models(&store, "p1").unwrap().len(), 2);
    associate_key_with_model(&mut map, "k1", &m.id).unwrap();
    delete_model(&mut store, &mut map, &m.id).unwrap();
    assert!(get_models_for_key(&map, "k1").unwrap().is_empty());
    assert_eq!(delete_model(&mut store, &mut map, "nope").unwrap_err(), "Model not found: nope");
    delete_platform_models(&mut store, "p1").unwrap();
    assert!(list_models(&store, "p1").unwrap().is_empty());
}

#[test]
fn key_model_associations() {
    let mut map = KeyModelMap::new();
    associate_key_with_model(&mut map, "k1", "m1").unwrap();
    associate_key_with_model(&mut map, "k1", "m1").unwrap();
    associate_key_with_model(&mut map, "k2", "m1").unwrap();
    associate_key_with_model(&mut map, "k1", "m2").unwrap();
    assert_eq!(map.mappings.len(), 3);
    assert_eq!(get_keys_for_model(&map, "m1").unwrap(), vec!["k1".to_string(), "k2".to_string()]);
    assert_eq!(get_models_for_key(&map, "k1").unwrap(), vec!["m1".to_string(), "m2".to_string()]);
    disassociate_key_from_model(&mut map, "k1", "m1").unwrap();
    assert_eq!(get_keys_for_model(&map, "m1").unwrap(), vec!["k2".to_string()]);
    remove_key_associations(&mut map, "k2").unwrap();
    assert_eq!(map.mappings.len(), 1);
    remove_model_associations(&mut map, "m2").unwrap();
    assert!(map.mappings.is_empty());
}

#[test]
fn platform_associations_follow_its_models() {
    let mut store = ModelStore::new();
    let mut map = KeyModelMap::new();
    let a = add_model(&mut store, "p1".into(), "a".into(), "A".into(), None, None, None).unwrap();
    let b = add_model(&mut store, "p2".into(), "b".into(), "B".into(), None, None, None).unwrap();
    associate_key_with_model(&mut map, "k1", &a.id).unwrap();
    associate_key_with_model(&mut map, "k1", &b.id).unwrap();
    remove_platform_associations(&mut map, &store, "p1").unwrap();
    assert_eq!(get_models_for_key(&map, "k1").unwrap(), vec![b.id.clone()]);
}

#[test]
fn platforms_add_update_reorder_delete() {
    let mut config = AppConfig::new();
    let mut keys = KeyStore::new();
    let p1 = add_platform(&mut config, "One".into(), "https://one".into(), "/one".into(), None);
    let p2 = add_platform(&mut config, "Two".into(), "https://two".into(), "/two".into(), Some("n".into()));
    assert_eq!(p1.sort_order, 0);
    assert_eq!(p2.sort_order, 1);
    assert_eq!(p2.notes.as_deref(), Some("n"));
    let u = update_platform(&mut config, &p2.id, Some("Deux".into()), None, None, None).unwrap();
    assert_eq!(u.name, "Deux");
    assert_eq!(u.notes, None);
    reorder_platforms(&mut config, vec![p2.id.clone()]).unwrap();
    let listed = list_platforms(&config);
    assert_eq!(listed[0].id, p2.id);
    assert_eq!(listed[1].id, p1.id);
    add_key(&mut keys, p1.id.clone(), "k".into(), "sk".into()).unwrap();
    add_key(&mut keys, p2.id.clone(), "k".into(), "sk".into()).unwrap();
    delete_platform(&mut config, &mut keys, &p1.id).unwrap();
    assert_eq!(config.platforms.len(), 1);
    assert_eq!(keys.keys.len(), 1);
    assert_eq!(delete_platform(&mut config, &mut keys, "nope").unwrap_err(), "Platform not found: nope");
}

#[test]
fn profiles_save_update_delete() {
    let mut config = AppConfig::new();
    let p = save_profile_at(&mut config, None, "Main".into(), "p1".into(), "m1".into(), None, 100, "id-1".into()).unwrap();
    assert_eq!(p.id, "id-1");
    assert_eq!(p.created_at, 100);
    let q = save_profile_at(&mut config, Some("id-1".into()), "Renamed".into(), "p2".into(), "m2".into(), Some("x".into()), 200, "unused".into()).unwrap();
    assert_eq!(q.id, "id-1");
    assert_eq!(q.name, "Renamed");
    assert_eq!(q.created_at, 100);
    assert_eq!(q.updated_at, 200);
    assert_eq!(list_profiles(&config).len(), 1);
    let fresh = save_profile(&mut config, None, "Other".into(), "p1".into(), "m1".into(), None).unwrap();
    assert_eq!(fresh.id.len(), 36);
    delete_profile(&mut config, "id-1").unwrap();
    assert_eq!(list_profiles(&config).len(), 1);
    assert_eq!(delete_profile(&mut config, "id-1").unwrap_err(), "Profile not found: id-1");
}

#[test]
fn proxy_settings_go_to_runtime_and_config() {
    let mut rt = ProxyRuntime::new();
    let mut config = AppConfig::new();
    assert_eq!(config.proxy_port, default_proxy_port());
    assert_eq!(config.proxy_host, default_proxy_host());
    set_proxy_port(&mut rt, &mut config, 9090).unwrap();
    set_proxy_host(&mut rt, &mut config, "0.0.0.0".into()).unwrap();
    assert_eq!(rt.port, 9090);
    assert_eq!(config.proxy_port, 9090);
    assert_eq!(rt.host, "0.0.0.0");
    assert_eq!(config.proxy_host, "0.0.0.0");
}
