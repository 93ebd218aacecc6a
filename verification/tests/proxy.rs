use antigravity_hub::proxy::{translation_failed_body, translation_failed_json};
use antigravity_hub::proxy::{
    deduplicate_url_path, extract_json_from_http_text, looks_like_http_request_text, stop_proxy, begin_start, get_proxy_status, ProxyRuntime,
    SSE_KEEPALIVE_BYTES, SSE_KEEPALIVE_INTERVAL_SECS,
};

#[test]
fn test_looks_like_http_request_text_full() {
    let raw = b"POST http://192.168.9.193:5343/sensenova/v1/chat/completions HTTP/1.1\r\nAccept: application/json\r\nContent-Type: application/json\r\nx-stainless-lang: js\r\n\r\n{\"model\":\"test\"}";
    assert!(looks_like_http_request_text(raw), "full HTTP request with JSON body");
}

#[test]
fn test_looks_like_http_request_text_headers_only() {
    let raw = b"POST http://192.168.9.193:5343/sensenova/v1/chat/completions HTTP/1.1\r\nAccept: application/json\r\nContent-Type: application/json";
    assert!(looks_like_http_request_text(raw), "headers-only probe must be detected");
}

#[test]
fn test_looks_like_http_request_text_plain_text_returns_false() {
    assert!(!looks_like_http_request_text(b"hello world"));
}

#[test]
fn test_looks_like_http_request_text_valid_json_returns_false() {
    assert!(!looks_like_http_request_text(br#"{"model":"test"}"#), "pure JSON must not match");
}

#[test]
fn test_looks_like_http_request_text_empty_returns_false() {
    assert!(!looks_like_http_request_text(b""), "empty body must not match");
}

#[test]
fn test_looks_like_http_request_text_get_method() {
    assert!(looks_like_http_request_text(b"GET /v1/models HTTP/1.1\r\nHost: localhost"), "GET must be detected");
}

#[test]
fn test_sse_keepalive_bytes_constant() {
    assert_eq!(&SSE_KEEPALIVE_BYTES, b": ping\n\n");
    assert_eq!(SSE_KEEPALIVE_INTERVAL_SECS, 25);
}

#[test]
fn invalid_utf8_is_not_http_text() {
    assert!(!looks_like_http_request_text(&[0x50, 0x4f, 0x53, 0x54, 0x20, 0xff]));
}

#[test]
fn url_join_drops_duplicate_version() {
    assert_eq!(deduplicate_url_path("https://api.sensenova.com/v1", "/v1/chat/completions"), "https://api.sensenova.com/v1/chat/completions");
    assert_eq!(deduplicate_url_path("https://api.x.com/v1/", "v1/models"), "https://api.x.com/v1/models");
    assert_eq!(deduplicate_url_path("https://g.com/v1beta/openai", "/v1/chat/completions"), "https://g.com/v1beta/openai/chat/completions");
    assert_eq!(deduplicate_url_path("https://api.x.com", "/v1/chat"), "https://api.x.com/v1/chat");
    assert_eq!(deduplicate_url_path("https://api.x.com//", ""), "https://api.x.com");
    assert_eq!(deduplicate_url_path("https://api.x.com/v2", "/v1/chat"), "https://api.x.com/v2/v1/chat");
    assert_eq!(deduplicate_url_path("https://api.x.com/v1", "/vx/chat"), "https://api.x.com/v1/vx/chat");
}

#[test]
fn proxy_start_and_stop_cycle() {
    let mut rt = ProxyRuntime::new();
    assert_eq!(stop_proxy(&mut rt, true), Err("Proxy was not running".to_string()));
    let (host, port) = begin_start(&mut rt).unwrap();
    assert_eq!(host, "127.0.0.1");
    assert_eq!(port, 8045);
    antigravity_hub::proxy::set_running(&mut rt, true);
    assert_eq!(begin_start(&mut rt), Err("Proxy is already running".to_string()));
    assert!(get_proxy_status(&rt).running);
    assert_eq!(stop_proxy(&mut rt, true), Ok(()));
    assert!(!get_proxy_status(&rt).running);
}

#[test]
fn test_extract_json_from_http_text_crlf() {
    let raw = b"POST http://192.168.9.193:5343/sensenova/v1/chat/completions HTTP/1.1\r\nAccept: application/json\r\nContent-Type: application/json\r\nx-stainless-lang: js\r\nX-Conversation-ID: abc123\r\n\r\n{\"model\":\"sensenova-6.8-flash-lite\",\"messages\":[{\"role\":\"user\",\"content\":\"hi\"}]}";
    let inner = extract_json_from_http_text(raw).expect("should extract embedded JSON");
    let v: serde_json::Value = serde_json::from_slice(inner.as_bytes()).expect("embedded payload must be valid JSON");
    assert_eq!(v["model"], "sensenova-6.8-flash-lite");
    assert_eq!(v["messages"][0]["role"], "user");
}

#[test]
fn test_extract_json_from_http_text_lf() {
    let raw = b"POST /v1/chat/completions HTTP/1.1\nHost: localhost\nContent-Type: application/json\n\n{\"model\":\"gpt-4\"}";
    let inner = extract_json_from_http_text(raw).expect("should extract");
    let v: serde_json::Value = serde_json::from_slice(inner.as_bytes()).unwrap();
    assert_eq!(v["model"], "gpt-4");
}

#[test]
fn test_extract_json_from_http_text_single_crlf_no_blank_line() {
    let raw = b"POST /wb/v1/chat/completions HTTP/1.1\r\nHost: 127.0.0.1\r\nContent-Type: application/json\r\n{\"model\":\"sensenova-6.8-flash-lite\",\"messages\":[{\"role\":\"user\",\"content\":\"hi\"}]}";
    let inner = extract_json_from_http_text(raw).expect("single-CRLF JSON must be extracted");
    let v: serde_json::Value = serde_json::from_slice(inner.as_bytes()).expect("embedded payload must be valid JSON");
    assert_eq!(v["model"], "sensenova-6.8-flash-lite");
    assert_eq!(v["messages"][0]["role"], "user");
}

#[test]
fn test_extract_json_from_http_text_single_lf_no_blank_line() {
    let raw = b"POST /v1/chat/completions HTTP/1.1\nHost: localhost\nContent-Type: application/json\n{\"model\":\"gpt-4\"}";
    let inner = extract_json_from_http_text(raw).expect("single-LF JSON must be extracted");
    let v: serde_json::Value = serde_json::from_slice(inner.as_bytes()).unwrap();
    assert_eq!(v["model"], "gpt-4");
}

#[test]
fn test_extract_json_from_http_text_headers_only_still_none() {
    let raw = b"POST http://x HTTP/1.1\r\nContent-Type: application/json";
    assert!(extract_json_from_http_text(raw).is_none(), "headers-only probe must not match");
}

#[test]
fn test_extract_json_from_http_text_returns_none_for_normal_json() {
    let json = br#"{"model":"sensenova-6.8-flash-lite","messages":[]}"#;
    assert!(extract_json_from_http_text(json).is_none(), "normal JSON must not match");
}

#[test]
fn test_extract_json_from_http_text_returns_none_for_plain_text() {
    let plain = b"hello world, this is not an http request";
    assert!(extract_json_from_http_text(plain).is_none());
}

#[test]
fn test_extract_json_from_http_text_returns_none_for_bad_inner_json() {
    let raw = b"POST http://x HTTP/1.1\r\nContent-Type: application/json\r\n\r\n{not-json}";
    assert!(extract_json_from_http_text(raw).is_none());
}

#[test]
fn test_extract_json_from_http_text_returns_none_without_header_sep() {
    let raw = b"POST http://x HTTP/1.1\r\nContent-Type: application/json";
    assert!(extract_json_from_http_text(raw).is_none(), "no blank line separator");
    assert!(looks_like_http_request_text(raw), "must still be detected as HTTP request text");
}

#[test]
fn translation_failure_body() {
    let j = translation_failed_json("resp_1", 1700000000, "gpt-x");
    let v: serde_json::Value = serde_json::from_str(&antigravity_hub::json::print(&j)).unwrap();
    assert_eq!(v["id"], "resp_1");
    assert_eq!(v["object"], "response");
    assert_eq!(v["created_at"], 1700000000i64);
    assert_eq!(v["model"], "gpt-x");
    assert_eq!(v["status"], "failed");
    assert_eq!(v["error"]["code"], "response_translation_failed");
    assert_eq!(v["error"]["message"], "Upstream returned an unparseable response. The provider may use an incompatible format.");
    assert_eq!(v["output"].as_array().unwrap().len(), 0);
    let fresh: serde_json::Value = serde_json::from_str(&antigravity_hub::json::print(&translation_failed_body("m"))).unwrap();
    let id = fresh["id"].as_str().unwrap();
    assert!(id.starts_with("resp_") && id.len() == 37 && !id.contains('-'));
}
