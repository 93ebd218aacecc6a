use antigravity_hub::codex_bodies::{
    sanitize_reasoning_effort_for_model, transform_chat_completions_to_responses,
    transform_chat_completions_to_responses_with_id,
};

fn parse(bytes: &[u8]) -> serde_json::Value {
    serde_json::from_slice(bytes).expect("valid json")
}

#[test]
fn reasoning_effort_removed_only_for_refusing_models() {
    let body = br#"{"model":"x","reasoning_effort":"high","messages":[]}"#;
    for model in ["codestral-latest", "Mistral-Small", "open-mistral-nemo", "pixtral-12b", "gemini-2.0-flash"] {
        let out = sanitize_reasoning_effort_for_model(body, model).expect("removed");
        let v = parse(&out);
        assert!(v.get("reasoning_effort").is_none());
        assert_eq!(v["model"], "x");
    }
    assert!(sanitize_reasoning_effort_for_model(body, "gpt-4o").is_none());
    assert!(sanitize_reasoning_effort_for_model(br#"{"model":"x"}"#, "gemini-pro").is_none());
    assert!(sanitize_reasoning_effort_for_model(b"not json", "gemini-pro").is_none());
}

#[test]
fn chat_answer_becomes_responses_answer() {
    let body = br#"{
        "id": "chatcmpl-1",
        "object": "chat.completion",
        "created": 1700000000,
        "choices": [{"index": 0, "message": {"role": "assistant", "content": "Hello there",
            "tool_calls": [{"id": "call_1", "type": "function", "function": {"name": "ls", "arguments": "{\"a\":1"}}]}}],
        "usage": {"prompt_tokens": 3, "completion_tokens": 4, "total_tokens": 7}
    }"#;
    let out = transform_chat_completions_to_responses(body).expect("object");
    let v = parse(&out);
    assert_eq!(v["id"], "chatcmpl-1");
    assert_eq!(v["object"], "response");
    assert_eq!(v["status"], "completed");
    assert_eq!(v["created_at"], 1700000000);
    assert!(v.get("created").is_none());
    assert!(v.get("choices").is_none());
    let output = v["output"].as_array().expect("output");
    assert_eq!(output.len(), 2);
    assert_eq!(output[0]["type"], "message");
    assert_eq!(output[0]["role"], "assistant");
    assert_eq!(output[0]["content"][0]["type"], "output_text");
    assert_eq!(output[0]["content"][0]["text"], "Hello there");
    assert_eq!(output[1]["type"], "function_call");
    assert_eq!(output[1]["call_id"], "call_1");
    assert_eq!(output[1]["name"], "ls");
    assert_eq!(output[1]["arguments"], "{\"a\":1}");
    assert_eq!(v["usage"]["input_tokens"], 3);
    assert_eq!(v["usage"]["output_tokens"], 4);
    assert_eq!(v["usage"]["total_tokens"], 7);
    assert!(v["usage"].get("prompt_tokens").is_none());
}

#[test]
fn missing_id_gets_fresh_response_id_and_error_marks_failed() {
    let out = transform_chat_completions_to_responses(br#"{"error":{"message":"x"}}"#).unwrap();
    let v = parse(&out);
    assert_eq!(v["status"], "failed");
    let id = v["id"].as_str().unwrap();
    assert!(id.starts_with("resp_"));
    assert_eq!(id.len(), 37);
    let fixed = transform_chat_completions_to_responses_with_id(br#"{"id":""}"#, "resp_fixed").unwrap();
    assert_eq!(parse(&fixed)["id"], "resp_fixed");
    assert!(transform_chat_completions_to_responses(b"[1,2]").is_none());
}

#[test]
fn thinking_and_reasoning_fields_become_reasoning_items() {
    let body = br#"{"id":"r","choices":[{"message":{"content":"","reasoning_content":"step by step"}}],"status":"in_progress"}"#;
    let v = parse(&transform_chat_completions_to_responses(body).unwrap());
    assert_eq!(v["status"], "in_progress");
    let output = v["output"].as_array().unwrap();
    assert_eq!(output.len(), 1);
    assert_eq!(output[0]["type"], "reasoning");
    assert_eq!(output[0]["reasoning"], "step by step");
}
