use antigravity_hub::codex_translator::{extract_json_object, repair_truncated_json, sanitize_tool_arguments};
use antigravity_hub::diagnostics::{analyze_transcript, Category};
use antigravity_hub::json;
use antigravity_hub::key_model_map::{
    associate_key_with_model, disassociate_key_from_model, get_keys_for_model, get_models_for_key, remove_key_associations,
    remove_model_associations, KeyModelMap,
};
use antigravity_hub::proxy::deduplicate_url_path;
use antigravity_hub::responses_bridge::{SessionContext, SessionStore};
use antigravity_hub::token_stats::TokenStats;

#[test]
fn law_example_sanitized_arguments_parse() {
    for raw in ["", "   ", "{\"a\":1}", "say {\"b\": 2} ok", "{\"c\": [1, 2", "not json at all"] {
        let s = sanitize_tool_arguments(raw);
        assert!(s == "{}" || json::parse(&s).is_some(), "{:?} -> {:?}", raw, s);
    }
}

#[test]
fn law_example_first_object_is_braced() {
    let o = extract_json_object("text {\"x\": {\"y\": \"}\"}} tail").unwrap();
    assert!(o.starts_with('{') && o.ends_with('}'));
    assert_eq!(o, "{\"x\": {\"y\": \"}\"}}");
}

#[test]
fn law_example_repair_extends() {
    let r = repair_truncated_json("{\"a\": {\"b\": 1").unwrap();
    assert!(r.starts_with("{\"a\": {\"b\": 1"));
    assert_eq!(r, "{\"a\": {\"b\": 1}}");
}

#[test]
fn law_example_associations_removed() {
    let mut m = KeyModelMap::new();
    associate_key_with_model(&mut m, "k1", "m1").unwrap();
    associate_key_with_model(&mut m, "k1", "m2").unwrap();
    associate_key_with_model(&mut m, "k2", "m1").unwrap();
    disassociate_key_from_model(&mut m, "k1", "m1").unwrap();
    assert_eq!(get_keys_for_model(&m, "m1").unwrap(), vec!["k2".to_string()]);
    assert_eq!(get_models_for_key(&m, "k1").unwrap(), vec!["m2".to_string()], "other pairs stay");
    remove_key_associations(&mut m, "k1").unwrap();
    assert!(get_models_for_key(&m, "k1").unwrap().is_empty());
    remove_model_associations(&mut m, "m1").unwrap();
    assert!(get_keys_for_model(&m, "m1").unwrap().is_empty());
}

#[test]
fn law_example_session_read_after_write() {
    let mut s = SessionStore::with_capacity(2);
    s.update("a", SessionContext { previous_response_id: Some("resp_a".to_string()), processed_msg_len: 3 });
    s.update("b", SessionContext { previous_response_id: Some("resp_b".to_string()), processed_msg_len: 1 });
    let a = s.get("a");
    assert_eq!(a.previous_response_id.as_deref(), Some("resp_a"));
    assert_eq!(a.processed_msg_len, 3);
    let b = s.get("b");
    assert_eq!(b.previous_response_id.as_deref(), Some("resp_b"));
}

#[test]
fn law_example_usage_counters_grow() {
    let mut t = TokenStats::new();
    t.add(10, 5, 100);
    let before = t.clone();
    t.add(1, 2, 200);
    assert!(t.prompt_tokens >= before.prompt_tokens && t.completion_tokens >= before.completion_tokens);
    assert_eq!(t.request_count, before.request_count + 1);
    assert_eq!(t.total_tokens, 18);
}

#[test]
fn law_example_joined_url_keeps_base() {
    let u = deduplicate_url_path("https://api.example.com/v1/", "/v1/chat/completions");
    assert!(u.starts_with("https://api.example.com/v1"));
}

#[test]
fn law_example_unclean_stream_is_truncation() {
    let r = analyze_transcript("data: {\"choices\":[{\"delta\":{\"content\":\"partial\"}}]}\n");
    assert!(!r.ended_cleanly);
    assert_eq!(r.category, Category::A);
}
