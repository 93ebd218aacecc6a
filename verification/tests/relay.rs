use antigravity_hub::responses_relay::{on_refusal, on_upstream_head, HeadAction, RefusalAction};
use antigravity_hub::json::{print, Json};
use antigravity_hub::responses_bridge::SessionContext;
use antigravity_hub::responses_relay::{
    answered_response_id, may_reject_context, parse_relay_request, relay_context, relay_models, upstream_error_json,
};

#[test]
fn relay_request_fields_and_defaults() {
    let r = parse_relay_request(br#"{"model":"m1","stream":true,"api_key":"k","messages":[{"role":"user","content":"hi"}]}"#, "dflt")
        .unwrap();
    assert!(r.stream);
    assert_eq!(r.model, "m1");
    assert_eq!(r.api_key.as_deref(), Some("k"));
    assert_eq!(r.messages.len(), 1);
    let d = parse_relay_request(br#"{"stream":"yes"}"#, "dflt").unwrap();
    assert!(!d.stream, "only a JSON true streams");
    assert_eq!(d.model, "dflt");
    assert!(d.api_key.is_none());
    assert!(d.messages.is_empty());
    assert!(parse_relay_request(b"not json", "dflt").is_none());
}

#[test]
fn relay_context_incremental_rounds() {
    let none = SessionContext { previous_response_id: None, processed_msg_len: 0 };
    let c = relay_context(&none, 3, true);
    assert!(c.previous_response_id.is_none() && c.incremental_from.is_none());
    let prev = SessionContext { previous_response_id: Some("resp_1".to_string()), processed_msg_len: 2 };
    let c = relay_context(&prev, 5, true);
    assert_eq!(c.previous_response_id.as_deref(), Some("resp_1"));
    assert_eq!(c.incremental_from, Some(2));
    let c = relay_context(&prev, 2, true);
    assert_eq!(c.incremental_from, Some(2), "nothing new: an empty increment");
    let c = relay_context(&prev, 5, false);
    assert!(c.previous_response_id.is_none() && c.incremental_from.is_none(), "full mode ignores the context");
}

#[test]
fn relay_context_rejection_statuses() {
    assert!(may_reject_context(true, 400));
    assert!(may_reject_context(true, 422));
    assert!(may_reject_context(true, 404));
    assert!(!may_reject_context(true, 500));
    assert!(!may_reject_context(false, 400));
}

#[test]
fn relay_upstream_error_bodies() {
    let j = upstream_error_json(400, r#"{"error":{"message":"bad id","code":"invalid"}}"#);
    let t = print(&j);
    assert!(t.contains("\"message\":\"bad id\"") && t.contains("\"code\":\"invalid\"") && t.contains("\"type\":\"upstream_error\""));
    let j = upstream_error_json(500, r#"{"message":"flat"}"#);
    let t = print(&j);
    assert!(t.contains("\"message\":\"flat\"") && t.contains("\"code\":\"upstream_error\""));
    let j = upstream_error_json(503, "<html>down</html>");
    assert!(print(&j).contains("Upstream error: HTTP 503 Service Unavailable"));
}

#[test]
fn relay_response_id_and_models() {
    assert_eq!(answered_response_id(br#"{"id":"resp_9"}"#).as_deref(), Some("resp_9"));
    assert!(answered_response_id(br#"{"id":""}"#).is_none());
    assert!(answered_response_id(b"[]").is_none());
    let m: Json = relay_models("gpt-x");
    let t = print(&m);
    assert!(t.contains("\"id\":\"gpt-x\"") && t.contains("\"owned_by\":\"responses-relay\"") && t.contains("1677610602"));
}

#[test]
fn upstream_head_decides_stream_buffer_or_refusal() {
    assert_eq!(on_upstream_head(200, true, Some("text/event-stream; charset=utf-8")), HeadAction::Stream);
    assert_eq!(on_upstream_head(200, true, Some("application/json")), HeadAction::Buffer);
    assert_eq!(on_upstream_head(200, false, Some("text/event-stream")), HeadAction::Buffer);
    assert_eq!(on_upstream_head(204, true, None), HeadAction::Buffer);
    assert_eq!(on_upstream_head(400, true, Some("text/event-stream")), HeadAction::ReadRefusal);
    assert_eq!(on_upstream_head(199, false, None), HeadAction::ReadRefusal);
}

#[test]
fn refusal_retries_only_a_rejected_context_once() {
    let body = r#"{"error":{"message":"Invalid previous_response_id"}}"#;
    assert_eq!(on_refusal(true, true, 400, body), RefusalAction::RetryFull);
    assert_eq!(on_refusal(true, true, 404, "Previous Response not found"), RefusalAction::RetryFull);
    assert_eq!(on_refusal(true, true, 422, "bad field"), RefusalAction::Relay { status: 400 });
    assert_eq!(on_refusal(true, false, 400, body), RefusalAction::Relay { status: 400 });
    assert_eq!(on_refusal(false, true, 404, body), RefusalAction::Relay { status: 404 });
    assert_eq!(on_refusal(true, true, 500, body), RefusalAction::Relay { status: 500 });
}
