use std::hash::Hasher;
use antigravity_hub::json;
use antigravity_hub::responses_bridge::{BridgeConfig, SessionContext, SessionStore};
use antigravity_hub::responses_relay::{is_context_error, RelayConfig};

#[test]
fn test_session_store_eviction() {
    let mut store = SessionStore::with_capacity(2);
    store.update("k1", SessionContext { previous_response_id: Some("r1".into()), processed_msg_len: 1 });
    store.update("k2", SessionContext { previous_response_id: Some("r2".into()), processed_msg_len: 1 });
    store.update("k3", SessionContext { previous_response_id: Some("r3".into()), processed_msg_len: 1 });
    assert_eq!(store.len(), 2, "should evict oldest entry");
    assert!(store.get("k1").previous_response_id.is_none(), "k1 should be evicted");
    assert!(store.get("k3").previous_response_id.is_some());
}

#[test]
fn test_session_store_context() {
    let mut store = SessionStore::new();
    let parsed = json::parse(r#"[
        {"role": "user", "content": "帮我查一下北京的天气"},
        {"role": "assistant", "content": null, "tool_calls": [{"id": "c1", "type": "function", "function": {"name": "weather", "arguments": "{}"}}]},
        {"role": "tool", "tool_call_id": "c1", "content": "25C"}
    ]"#).unwrap();
    let messages = match parsed {
        json::Json::Array(v) => v,
        _ => panic!("array expected"),
    };
    let key1 = SessionStore::key_for_request("gpt-4", &messages);
    let key2 = SessionStore::key_for_request("gpt-4", &messages);
    assert_eq!(key1, key2, "session key should be stable");
    let ctx = store.get(&key1);
    assert!(ctx.previous_response_id.is_none());
    assert_eq!(ctx.processed_msg_len, 0);
    store.update(&key1, SessionContext { previous_response_id: Some("resp_round1".to_string()), processed_msg_len: 3 });
    let ctx = store.get(&key1);
    assert_eq!(ctx.previous_response_id.as_deref(), Some("resp_round1"));
    assert_eq!(ctx.processed_msg_len, 3);
    store.clear(&key1);
    assert!(store.get(&key1).previous_response_id.is_none());
}

#[test]
fn session_key_shape() {
    let key = SessionStore::key_for_request("org/model:v1 x", &Vec::new());
    assert!(key.starts_with("org_model_v1_x-"));
    assert_eq!(key.len(), "org_model_v1_x-".len() + 16);
}

#[test]
fn session_update_keeps_place_of_existing_key() {
    let mut store = SessionStore::with_capacity(2);
    store.update("a", SessionContext { previous_response_id: None, processed_msg_len: 1 });
    store.update("b", SessionContext { previous_response_id: None, processed_msg_len: 2 });
    store.update("a", SessionContext { previous_response_id: None, processed_msg_len: 5 });
    store.update("c", SessionContext { previous_response_id: None, processed_msg_len: 7 });
    assert_eq!(store.len(), 2);
    assert_eq!(store.get("a").processed_msg_len, 0);
    assert_eq!(store.get("b").processed_msg_len, 2);
    assert_eq!(store.get("c").processed_msg_len, 7);
    let zero = SessionStore::with_capacity(0);
    assert!(zero.is_empty());
}

#[test]
fn bridge_defaults_and_relay_mapping() {
    let d = BridgeConfig::default();
    assert_eq!(d.heartbeat_interval_secs, 15);
    assert_eq!(d.upstream_read_timeout_secs, 600);
    let mut r = RelayConfig::new();
    r.heartbeat_interval_secs = 7;
    let b = r.bridge_config();
    assert_eq!(b.heartbeat_interval_secs, 7);
    assert_eq!(b.chunk_idle_timeout_secs, 300);
    assert!(r.use_response_id_context());
    r.context_mode = "RESPONSE_ID".to_string();
    assert!(r.use_response_id_context());
    r.context_mode = "full".to_string();
    assert!(!r.use_response_id_context());
}

#[test]
fn relay_detects_context_errors() {
    assert!(is_context_error("Invalid PREVIOUS_RESPONSE_ID: not found"));
    assert!(is_context_error("unknown previous response"));
    assert!(!is_context_error("rate limited"));
}

#[test]
fn session_key_hashes_model_bar_and_root() {
    let parsed = json::parse(r#"[{"role": "system", "content": "s"}, {"role": "user", "content": "héllo"}]"#).unwrap();
    let messages = match parsed {
        json::Json::Array(v) => v,
        _ => panic!("array expected"),
    };
    let mut h = std::collections::hash_map::DefaultHasher::new();
    h.write("m/1".as_bytes());
    h.write(b"|");
    h.write("héllo".as_bytes());
    let expected = format!("m_1-{:016x}", h.finish());
    assert_eq!(SessionStore::key_for_request("m/1", &messages), expected);
}
