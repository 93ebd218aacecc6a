use antigravity_hub::json;
use antigravity_hub::model_manager::{add_model_sized, ModelStore};
use antigravity_hub::models::ApiKey;
use antigravity_hub::upstream_models::{
    chat_completions_url, fetch_failed_message, first_active_key_at, import_models, list_upstream_models,
    model_answered, model_refused, parse_upstream_models, refresh_models_from_upstream, test_model_request,
    upstream_model_urls,
};

fn entries(text: &str) -> Vec<(String, String, Option<u64>)> {
    let body = json::parse(text).expect("valid json");
    parse_upstream_models(&body).expect("list")
}

#[test]
fn upstream_list_from_data_or_bare_array() {
    let a = entries(r#"{"data":[{"id":"m1","display_name":"Model One","context_window":8192},{"id":""},{"name":"x"},{"id":"m2","name":"Two"}]}"#);
    assert_eq!(a, vec![
        ("m1".to_string(), "Model One".to_string(), Some(8192)),
        ("m2".to_string(), "Two".to_string(), None),
    ]);
    let b = entries(r#"[{"id":"m3","max_input_tokens":100,"context_window":5}]"#);
    assert_eq!(b, vec![("m3".to_string(), "m3".to_string(), Some(100))]);
}

#[test]
fn upstream_list_unrecognized_format() {
    let body = json::parse(r#"{"object":"list"}"#).unwrap();
    let err = parse_upstream_models(&body).unwrap_err();
    assert!(err.starts_with("Upstream response format not recognized."));
    assert!(err.ends_with(r#"First 200 chars: {"object":"list"}"#));
}

#[test]
fn model_list_urls_do_not_double_version() {
    assert_eq!(upstream_model_urls("https://api.x.com/v1/"), vec![
        "https://api.x.com/v1/models".to_string(),
        "https://api.x.com/v1/models".to_string(),
    ]);
    assert_eq!(upstream_model_urls("https://api.x.com"), vec![
        "https://api.x.com/v1/models".to_string(),
        "https://api.x.com/models".to_string(),
    ]);
    assert_eq!(chat_completions_url("https://a.b/v1"), "https://a.b/v1/chat/completions");
    let msg = fetch_failed_message(&upstream_model_urls("https://h"), "boom");
    assert_eq!(msg, "Failed to fetch models from upstream. Tried:\n  https://h/v1/models\n  https://h/models\nAll attempts failed. Last error: boom");
}

#[test]
fn first_active_key_skips_disabled_ones() {
    let mut a = ApiKey::new("a".into(), "p".into(), "A".into(), "sk-a".into());
    a.status = antigravity_hub::models::KeyStatus::Disabled;
    a.disabled_until = Some(100);
    let b = ApiKey::new("b".into(), "p".into(), "B".into(), "sk-b".into());
    let keys = vec![a, b];
    assert_eq!(first_active_key_at(&keys, "Plat", 50), Ok("sk-b".to_string()));
    assert_eq!(first_active_key_at(&keys, "Plat", 100), Ok("sk-a".to_string()));
    assert_eq!(
        first_active_key_at(&Vec::new(), "Plat", 0),
        Err("No active API keys available for platform 'Plat'. Please add at least one active API key first.".to_string())
    );
}

#[test]
fn listing_marks_imported_models() {
    let mut store = ModelStore::new();
    add_model_sized(&mut store, "p1".into(), "m1".into(), "M1".into(), None, None, None, None).unwrap();
    let up = vec![("m1".to_string(), "M1".to_string(), None), ("m2".to_string(), "M2".to_string(), Some(4))];
    let listed = list_upstream_models(&up, &store.models);
    assert!(listed[0].already_imported);
    assert!(!listed[1].already_imported);
    assert_eq!(listed[1].max_input_tokens, Some(4));
}

#[test]
fn import_skips_existing_and_uses_upstream_details() {
    let mut store = ModelStore::new();
    add_model_sized(&mut store, "p1".into(), "m1".into(), "M1".into(), None, None, None, None).unwrap();
    let up = vec![("m2".to_string(), "Model Two".to_string(), Some(32000))];
    let res = import_models(&mut store, "p1", &up, vec!["m1".into(), "m2".into(), "m3".into()]).unwrap();
    assert_eq!(res.imported, vec!["m2".to_string(), "m3".to_string()]);
    assert_eq!(res.skipped, vec!["m1".to_string()]);
    assert_eq!(res.message, "Imported 2 model(s): m2, m3");
    assert_eq!(store.models.len(), 3);
    assert_eq!(store.models[1].display_name, "Model Two");
    assert_eq!(store.models[1].max_input_tokens, Some(32000));
    assert_eq!(store.models[1].per_5hour, 10000);
    assert_eq!(store.models[1].per_day, 50000);
    assert_eq!(store.models[1].per_month, 100000);
    assert_eq!(store.models[2].display_name, "m3");
    assert_eq!(store.models[2].sort_order, 2);
    let again = import_models(&mut store, "p1", &up, vec!["m2".into()]).unwrap();
    assert_eq!(again.message, "No new models imported (1 skipped: already exist)");
}

#[test]
fn refresh_creates_new_and_updates_context_sizes() {
    let mut store = ModelStore::new();
    add_model_sized(&mut store, "p1".into(), "m1".into(), "M1".into(), None, None, None, Some(1000)).unwrap();
    add_model_sized(&mut store, "p1".into(), "m2".into(), "M2".into(), None, None, None, Some(2000)).unwrap();
    let up = vec![
        ("m1".to_string(), "M1".to_string(), Some(4000)),
        ("m2".to_string(), "M2".to_string(), Some(2000)),
        ("m3".to_string(), "M3".to_string(), None),
    ];
    let res = refresh_models_from_upstream(&mut store, "p1", &up).unwrap();
    assert_eq!(res.updated, vec!["m1".to_string()]);
    assert_eq!(res.created, vec!["m3".to_string()]);
    assert_eq!(res.total_upstream, 3);
    assert_eq!(res.total_local_before, 2);
    assert_eq!(res.message, "Created 1 new models: m3\nUpdated context size for 1 models: m1");
    assert_eq!(store.models[0].max_input_tokens, Some(4000));
    assert_eq!(store.models[2].model_name, "m3");
    let again = refresh_models_from_upstream(&mut store, "p1", &up[..2].to_vec()).unwrap();
    assert_eq!(again.message, "All 2 upstream models already in sync (3 local models)");
}

#[test]
fn test_request_body_and_outcomes() {
    let body = json::print(&test_model_request("gpt-x"));
    assert_eq!(body, r#"{"max_tokens":1,"messages":[{"content":"Hi","role":"user"}],"model":"gpt-x","stream":false}"#);
    let answer = json::parse(r#"{"model":"gpt-x-2024","choices":[{"finish_reason":"length"}]}"#).unwrap();
    let ok = model_answered(42, "gpt-x", &answer);
    assert!(ok.success);
    assert_eq!(ok.model_name, "gpt-x-2024");
    assert_eq!(ok.message, "Model 'gpt-x-2024' responded in 42ms (finish_reason: length)");
    let bare = json::parse("{}").unwrap();
    assert_eq!(model_answered(1, "m", &bare).message, "Model 'm' responded in 1ms (finish_reason: unknown)");
    assert_eq!(model_refused(401, 5, "m", "").message, "Authentication failed (HTTP 401). Check your API key.");
    assert_eq!(model_refused(404, 5, "m", "").message, "Model 'm' not found (HTTP 404). The model may not exist or is unavailable.");
    let long = "x".repeat(300);
    let other = model_refused(500, 5, "m", &long);
    assert!(!other.success);
    assert_eq!(other.message, format!("HTTP 500: {}", "x".repeat(200)));
}
