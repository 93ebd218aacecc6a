use antigravity_hub::bridge_request::{transform_chat_to_responses_request, transform_chat_to_responses_request_ctx};
use antigravity_hub::responses_bridge::RequestContext;

#[test]
fn test_chat_to_responses_simple_text() {
    let body = br#"{
        "model": "gpt-4",
        "messages": [
            {"role": "system", "content": "You are helpful."},
            {"role": "user", "content": "Hello"}
        ],
        "max_tokens": 100
    }"#;

    let out = transform_chat_to_responses_request(body).expect("should succeed");
    let v: serde_json::Value = serde_json::from_slice(&out).expect("valid json");

    assert_eq!(v["instructions"], "You are helpful.");

    let input = v["input"].as_array().expect("input array");
    assert_eq!(input.len(), 1);
    assert_eq!(input[0]["type"], "message");
    assert_eq!(input[0]["role"], "user");
    assert_eq!(input[0]["content"][0]["type"], "input_text");
    assert_eq!(input[0]["content"][0]["text"], "Hello");

    assert_eq!(v["max_output_tokens"], 100);
    assert!(v.get("max_tokens").is_none(), "max_tokens should be removed");
}

#[test]
fn test_chat_to_responses_tool_calls() {
    let body = br#"{
        "model": "gpt-4",
        "messages": [
            {"role": "system", "content": "You are helpful."},
            {"role": "user", "content": "List files"},
            {"role": "assistant", "content": null, "tool_calls": [
                {"id": "call_1", "type": "function", "function": {"name": "list_files", "arguments": "{}"}}
            ]},
            {"role": "tool", "tool_call_id": "call_1", "content": "file1.txt\nfile2.txt"},
            {"role": "assistant", "content": "Here are the files: file1.txt, file2.txt"}
        ],
        "tools": [{"type": "function", "function": {"name": "list_files", "description": "List files", "parameters": {"type": "object"}}}]
    }"#;

    let out = transform_chat_to_responses_request(body).expect("should succeed");
    let v: serde_json::Value = serde_json::from_slice(&out).expect("valid json");

    let input = v["input"].as_array().expect("input array");
    assert_eq!(input.len(), 4, "expected 4 input items");

    assert_eq!(input[0]["type"], "message");
    assert_eq!(input[0]["role"], "user");

    assert_eq!(input[1]["type"], "function_call");
    assert_eq!(input[1]["call_id"], "call_1");
    assert_eq!(input[1]["name"], "list_files");

    assert_eq!(input[2]["type"], "function_call_output");
    assert_eq!(input[2]["call_id"], "call_1");
    assert_eq!(input[2]["output"], "file1.txt\nfile2.txt");

    assert_eq!(input[3]["type"], "message");
    assert_eq!(input[3]["role"], "assistant");

    let tools = v["tools"].as_array().expect("tools array");
    assert_eq!(tools.len(), 1);
    assert_eq!(tools[0]["type"], "function");
    assert_eq!(tools[0]["name"], "list_files");
    assert!(tools[0].get("function").is_none(), "function should not be nested");
}

#[test]
fn test_chat_to_responses_multi_tool_rounds() {
    let body = br#"{
        "model": "gpt-4",
        "messages": [
            {"role": "system", "content": "You are a helpful assistant."},
            {"role": "user", "content": "Search for weather and then send email"},
            {"role": "assistant", "content": null, "tool_calls": [
                {"id": "call_weather", "type": "function", "function": {"name": "get_weather", "arguments": "{\"city\": \"Beijing\"}"}}
            ]},
            {"role": "tool", "tool_call_id": "call_weather", "content": "25C, Sunny"},
            {"role": "assistant", "content": null, "tool_calls": [
                {"id": "call_email", "type": "function", "function": {"name": "send_email", "arguments": "{\"to\": \"user@example.com\", \"body\": \"Weather is 25 C and Sunny\"}"}}
            ]},
            {"role": "tool", "tool_call_id": "call_email", "content": "Email sent successfully"}
        ]
    }"#;

    let out = transform_chat_to_responses_request(body).expect("should succeed");
    let v: serde_json::Value = serde_json::from_slice(&out).expect("valid json");

    let input = v["input"].as_array().expect("input array");
    assert_eq!(input.len(), 5, "expected 5 input items");

    assert_eq!(input[1]["type"], "function_call");
    assert_eq!(input[1]["call_id"], "call_weather");
    assert_eq!(input[1]["name"], "get_weather");

    assert_eq!(input[2]["type"], "function_call_output");
    assert_eq!(input[2]["call_id"], "call_weather");

    assert_eq!(input[3]["type"], "function_call");
    assert_eq!(input[3]["call_id"], "call_email");
    assert_eq!(input[3]["name"], "send_email");

    assert_eq!(input[4]["type"], "function_call_output");
    assert_eq!(input[4]["call_id"], "call_email");
}

#[test]
fn test_chat_to_responses_response_format() {
    let body = br#"{
        "model": "gpt-4",
        "messages": [{"role": "user", "content": "Generate JSON"}],
        "response_format": {
            "type": "json_schema",
            "json_schema": {
                "name": "answer",
                "schema": {"type": "object", "properties": {"ok": {"type": "boolean"}}},
                "strict": true
            }
        }
    }"#;

    let out = transform_chat_to_responses_request(body).expect("should succeed");
    let v: serde_json::Value = serde_json::from_slice(&out).expect("valid json");

    let text = v.get("text").expect("text field should exist");
    let format = text.get("format").expect("format should exist");
    assert_eq!(format["type"], "json_schema");
    assert_eq!(format["name"], "answer");
    assert_eq!(format["schema"]["type"], "object");
    assert_eq!(format["strict"], true);
    assert!(v.get("response_format").is_none(), "response_format should be removed");
}

#[test]
fn test_chat_to_responses_with_previous_response_id() {
    let body = br#"{
        "model": "gpt-4",
        "messages": [
            {"role": "user", "content": "Search weather"},
            {"role": "assistant", "content": null, "tool_calls": [
                {"id": "call_1", "type": "function", "function": {"name": "search", "arguments": "{\"q\":\"weather\"}"}}
            ]},
            {"role": "tool", "tool_call_id": "call_1", "content": "sunny"}
        ]
    }"#;

    let ctx = RequestContext {
        previous_response_id: Some("resp_abc123".to_string()),
        incremental_from: None,
    };
    let out = transform_chat_to_responses_request_ctx(body, &ctx).expect("should succeed");
    let v: serde_json::Value = serde_json::from_slice(&out).expect("valid json");

    assert_eq!(v["previous_response_id"], "resp_abc123");

    let input = v["input"].as_array().expect("input array");
    assert_eq!(input.len(), 3);
}

#[test]
fn test_chat_to_responses_incremental_mode() {
    let body = br#"{
        "model": "gpt-4",
        "messages": [
            {"role": "user", "content": "Search weather"},
            {"role": "assistant", "content": null, "tool_calls": [
                {"id": "call_1", "type": "function", "function": {"name": "search", "arguments": "{}"}}
            ]},
            {"role": "tool", "tool_call_id": "call_1", "content": "sunny"}
        ]
    }"#;

    let ctx = RequestContext {
        previous_response_id: Some("resp_abc123".to_string()),
        incremental_from: Some(2),
    };
    let out = transform_chat_to_responses_request_ctx(body, &ctx).expect("should succeed");
    let v: serde_json::Value = serde_json::from_slice(&out).expect("valid json");

    assert_eq!(v["previous_response_id"], "resp_abc123");

    let input = v["input"].as_array().expect("input array");
    assert_eq!(input.len(), 1, "incremental input should contain only new messages");
    assert_eq!(input[0]["type"], "function_call_output");
    assert_eq!(input[0]["call_id"], "call_1");
    assert_eq!(input[0]["output"], "sunny");

    assert!(v.get("instructions").is_none(), "no instructions in incremental mode");
}

#[test]
fn test_chat_to_responses_stream_flag() {
    let body = br#"{
        "model": "gpt-4",
        "messages": [{"role": "user", "content": "Hi"}],
        "stream": true
    }"#;

    let out = transform_chat_to_responses_request(body).expect("should succeed");
    let v: serde_json::Value = serde_json::from_slice(&out).expect("valid json");
    assert_eq!(v["stream"], true, "stream flag should be preserved");
}

#[test]
fn test_chat_to_responses_tool_choice_auto() {
    let body = br#"{
        "model": "gpt-4",
        "messages": [{"role": "user", "content": "Hi"}],
        "tool_choice": "auto"
    }"#;

    let out = transform_chat_to_responses_request(body).expect("should succeed");
    let v: serde_json::Value = serde_json::from_slice(&out).expect("valid json");
    assert_eq!(v["tool_choice"], "auto", "string tool_choice should pass through");
}

#[test]
fn test_chat_to_responses_tool_choice_function() {
    let body = br#"{
        "model": "gpt-4",
        "messages": [{"role": "user", "content": "Hi"}],
        "tool_choice": {"type": "function", "function": {"name": "my_tool"}}
    }"#;

    let out = transform_chat_to_responses_request(body).expect("should succeed");
    let v: serde_json::Value = serde_json::from_slice(&out).expect("valid json");
    let tc = v.get("tool_choice").expect("tool_choice should exist");
    assert_eq!(tc["type"], "function");
    assert_eq!(tc["name"], "my_tool", "name should be at top level");
    assert!(tc.get("function").is_none(), "function nesting should be removed");
}

#[test]
fn test_chat_to_responses_image_content() {
    let body = br#"{
        "model": "gpt-4",
        "messages": [{
            "role": "user",
            "content": [
                {"type": "text", "text": "What is in this image?"},
                {"type": "image_url", "image_url": {"url": "https://example.com/img.jpg"}}
            ]
        }]
    }"#;

    let out = transform_chat_to_responses_request(body).expect("should succeed");
    let v: serde_json::Value = serde_json::from_slice(&out).expect("valid json");

    let content = &v["input"][0]["content"];
    assert_eq!(content[0]["type"], "input_text", "text should become input_text");
    assert_eq!(content[0]["text"], "What is in this image?");
    assert_eq!(content[1]["type"], "input_image", "image_url should become input_image");
    assert_eq!(content[1]["image_url"]["url"], "https://example.com/img.jpg");
}

#[test]
fn test_chat_to_responses_assistant_text_before_tool_calls() {
    let body = br#"{
        "model": "gpt-4",
        "messages": [
            {"role": "user", "content": "Check weather in Beijing"},
            {"role": "assistant", "content": "I'll check the weather for you.", "tool_calls": [
                {"id": "call_1", "type": "function", "function": {"name": "get_weather", "arguments": "{\"city\":\"Beijing\"}"}}]}
        ]
    }"#;

    let out = transform_chat_to_responses_request(body).expect("should succeed");
    let v: serde_json::Value = serde_json::from_slice(&out).expect("valid json");

    let input = v["input"].as_array().expect("input array");
    assert_eq!(input.len(), 3);

    assert_eq!(input[1]["type"], "message");
    assert_eq!(input[1]["role"], "assistant");
    assert_eq!(input[1]["content"][0]["type"], "output_text");
    assert_eq!(input[1]["content"][0]["text"], "I'll check the weather for you.");

    assert_eq!(input[2]["type"], "function_call");
    assert_eq!(input[2]["name"], "get_weather");
}
