use antigravity_hub::bridge_response::transform_responses_to_chat_completions;

#[test]
fn test_responses_to_chat_simple() {
    let body = br#"{
        "id": "resp_abc123",
        "object": "response",
        "status": "completed",
        "model": "gpt-4",
        "output": [
            {"type": "message", "role": "assistant", "content": [{"type": "output_text", "text": "Hello!"}]}
        ],
        "usage": {"input_tokens": 5, "output_tokens": 3}
    }"#;

    let out = transform_responses_to_chat_completions(body).expect("should succeed");
    let v: serde_json::Value = serde_json::from_slice(&out).expect("valid json");

    assert_eq!(v["object"], "chat.completion");
    assert!(v["id"].as_str().unwrap().starts_with("chatcmpl-"));
    assert_eq!(v["choices"][0]["message"]["role"], "assistant");
    assert_eq!(v["choices"][0]["message"]["content"], "Hello!");
    assert_eq!(v["choices"][0]["finish_reason"], "stop");
    assert_eq!(v["usage"]["prompt_tokens"], 5);
    assert_eq!(v["usage"]["completion_tokens"], 3);
}

#[test]
fn test_responses_to_chat_with_tool_calls() {
    let body = br#"{
        "id": "resp_abc123",
        "object": "response",
        "status": "completed",
        "output": [
            {"type": "message", "role": "assistant", "content": [{"type": "output_text", "text": "Let me check."}]},
            {"type": "function_call", "id": "fc_1", "call_id": "call_abc", "name": "get_weather", "arguments": "{\"city\": \"Beijing\"}"}
        ],
        "usage": {"input_tokens": 10, "output_tokens": 20}
    }"#;

    let out = transform_responses_to_chat_completions(body).expect("should succeed");
    let v: serde_json::Value = serde_json::from_slice(&out).expect("valid json");

    let msg = &v["choices"][0]["message"];
    assert_eq!(msg["content"], "Let me check.");
    assert_eq!(msg["role"], "assistant");

    let tool_calls = msg["tool_calls"].as_array().expect("tool_calls array");
    assert_eq!(tool_calls.len(), 1);
    assert_eq!(tool_calls[0]["id"], "call_abc");
    assert_eq!(tool_calls[0]["function"]["name"], "get_weather");
    assert_eq!(tool_calls[0]["function"]["arguments"], "{\"city\": \"Beijing\"}");

    assert_eq!(v["choices"][0]["finish_reason"], "tool_calls");
}

#[test]
fn test_responses_to_chat_incomplete_status() {
    let body = br#"{
        "id": "resp_incomplete",
        "object": "response",
        "status": "incomplete",
        "output": [
            {"type": "message", "role": "assistant", "content": [{"type": "output_text", "text": "Partial..."}]}
        ]
    }"#;

    let out = transform_responses_to_chat_completions(body).expect("should succeed");
    let v: serde_json::Value = serde_json::from_slice(&out).expect("valid json");
    assert_eq!(v["choices"][0]["finish_reason"], "length");
}

#[test]
fn test_responses_to_chat_no_output() {
    let body = br#"{
        "id": "resp_empty",
        "object": "response",
        "status": "completed",
        "output": []
    }"#;

    let out = transform_responses_to_chat_completions(body).expect("should succeed");
    let v: serde_json::Value = serde_json::from_slice(&out).expect("valid json");
    assert_eq!(v["choices"][0]["message"]["content"], "");
    assert_eq!(v["choices"][0]["finish_reason"], "stop");
}

#[test]
fn responses_answer_refusal_and_failed_status() {
    let body = br#"{"id":"resp_resp_x","status":"failed","output":[{"type":"message","content":[{"type":"refusal","refusal":"no"}]},{"type":"message","content":"direct"}],"usage":{"input_tokens":1,"total_tokens":3}}"#;
    let out = transform_responses_to_chat_completions(body).expect("object");
    let v: serde_json::Value = serde_json::from_slice(&out).unwrap();
    assert_eq!(v["id"], "chatcmpl-x");
    assert_eq!(v["object"], "chat.completion");
    assert_eq!(v["choices"][0]["message"]["content"], "[refusal: no]directdirect");
    assert_eq!(v["choices"][0]["finish_reason"], "error");
    assert_eq!(v["choices"][0]["index"], 0);
    assert_eq!(v["usage"]["prompt_tokens"], 1);
    assert_eq!(v["usage"]["total_tokens"], 3);
    assert!(v.get("status").is_none());
    assert!(v.get("output").is_none());
    assert!(transform_responses_to_chat_completions(b"\"text\"").is_none());
}
