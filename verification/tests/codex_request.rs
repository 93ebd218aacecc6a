use antigravity_hub::codex_bodies::sanitize_reasoning_effort_for_model;
use antigravity_hub::codex_request::transform_responses_to_chat_completions;

#[test]
fn sanitize_history_messages_strips_responses_api_fields() {
    let body = br#"{
        "model": "codestral-latest",
        "input": [
            {"type": "message", "role": "system", "id": "msg_sys_1", "status": "completed",
             "content": [{"type": "input_text", "text": "You are helpful."}]},
            {"type": "message", "role": "user", "id": "msg_user_1", "status": "completed",
             "content": [{"type": "input_text", "text": "hi"}],
             "metadata": {"thread_id": "t1"}},
            {"type": "message", "role": "assistant", "id": "msg_asst_1", "status": "completed",
             "output": [
                {"type": "output_text", "text": "Let me look."},
                {"type": "function_call", "id": "call_1", "name": "shell",
                 "arguments": "{\"command\": \"ls\"}"}
             ]}
        ],
        "max_output_tokens": 16
    }"#;

    let out = transform_responses_to_chat_completions(body).expect("transform should succeed");
    let json: serde_json::Value = serde_json::from_slice(&out).expect("output should be valid JSON");

    let messages = json.get("messages").and_then(|m| m.as_array()).expect("messages array");
    assert_eq!(messages.len(), 3);

    let content_text = |msg: &serde_json::Value| -> String {
        msg.get("content")
            .and_then(|c| c.as_array())
            .and_then(|arr| arr.first())
            .and_then(|p| p.get("text"))
            .and_then(|t| t.as_str())
            .unwrap_or("")  .to_string()
    };

    let sys = &messages[0];
    assert!(sys.get("id").is_none(), "system message must not carry id");
    assert!(sys.get("status").is_none(), "system message must not carry status");
    assert_eq!(content_text(sys), "You are helpful.");
    assert_eq!(sys["content"][0]["type"], "text");

    let user = &messages[1];
    assert!(user.get("id").is_none());
    assert!(user.get("status").is_none());
    assert!(user.get("metadata").is_none(), "user message must not carry metadata");
    assert_eq!(content_text(user), "hi");

    let asst = &messages[2];
    assert!(asst.get("id").is_none());
    assert!(asst.get("status").is_none());
    assert!(asst.get("output").is_none(), "assistant message must not carry output");
    assert_eq!(content_text(asst), "Let me look.");
    assert_eq!(asst["content"][0]["type"], "text", "output_text part must be converted to text");
    let tool_calls = asst.get("tool_calls").and_then(|t| t.as_array()).expect("tool_calls");
    assert_eq!(tool_calls.len(), 1);
    assert_eq!(tool_calls[0]["function"]["name"], "shell");
    assert_eq!(tool_calls[0]["function"]["arguments"], "{\"command\": \"ls\"}");
}

#[test]
fn tool_choice_dropped_when_no_tools_remain() {
    let body = br#"{
        "model": "gpt-5",
        "input": "hi",
        "tools": [
            {"type": "namespace", "name": "my_namespace"},
            {"type": "web_search"}
        ],
        "tool_choice": {"type": "function", "name": "my_namespace"}
    }"#;
    let out = transform_responses_to_chat_completions(body).expect("transform should succeed");
    let v: serde_json::Value = serde_json::from_slice(&out).expect("valid json");
    assert!(v.get("tools").is_none(), "tools must be removed");
    assert!(
        v.get("tool_choice").is_none(),
        "tool_choice must be dropped when no tools remain"
    );
}

#[test]
fn function_tool_strict_moved_into_function_object() {
    let body = br#"{
        "model": "gpt-5",
        "input": "hi",
        "tools": [
            {
                "type": "function",
                "name": "shell_command",
                "description": "Runs a command",
                "parameters": {"type": "object", "properties": {"cmd": {"type": "string"}}},
                "strict": false
            }
        ]
    }"#;
    let out = transform_responses_to_chat_completions(body).expect("transform should succeed");
    let v: serde_json::Value = serde_json::from_slice(&out).expect("valid json");
    let tools = v.get("tools").and_then(|t| t.as_array()).expect("tools must remain");
    let tool = &tools[0];
    assert_eq!(tool["type"], "function");
    assert!(
        tool.get("strict").is_none(),
        "top-level strict must be removed from the tool object"
    );
    let fn_obj = tool.get("function").expect("function must be nested");
    assert_eq!(fn_obj["name"], "shell_command");
    assert_eq!(fn_obj["description"], "Runs a command");
    assert_eq!(fn_obj["strict"], false, "strict must live inside function");
    assert_eq!(fn_obj["parameters"]["type"], "object");
}

#[test]
fn already_nested_tool_strict_swept_into_function() {
    let body = br#"{
        "model": "gpt-5",
        "input": "hi",
        "tools": [
            {
                "type": "function",
                "strict": true,
                "function": {"name": "get_weather", "parameters": {"type": "object"}}
            }
        ]
    }"#;
    let out = transform_responses_to_chat_completions(body).expect("transform should succeed");
    let v: serde_json::Value = serde_json::from_slice(&out).expect("valid json");
    let tools = v.get("tools").and_then(|t| t.as_array()).expect("tools must remain");
    let tool = &tools[0];
    assert!(tool.get("strict").is_none(), "top-level strict must be swept");
    assert_eq!(tool["function"]["strict"], true);
}

#[test]
fn tool_metadata_and_choice_strict_whitelisted() {
    let body = br#"{
        "model": "gpt-5",
        "input": "hi",
        "tools": [
            {
                "type": "function",
                "name": "shell_command",
                "description": "Runs a command",
                "parameters": {"type": "object"},
                "strict": false,
                "metadata": {"some": "value"}
            }
        ],
        "tool_choice": {"type": "function", "name": "shell_command", "strict": true}
    }"#;
    let out = transform_responses_to_chat_completions(body).expect("transform should succeed");
    let v: serde_json::Value = serde_json::from_slice(&out).expect("valid json");
    let tools = v.get("tools").and_then(|t| t.as_array()).expect("tools must remain");
    let tool = &tools[0];
    assert!(tool.get("metadata").is_none(), "tool metadata must be stripped");
    assert!(tool.get("strict").is_none(), "top-level tool strict must be stripped");
    assert!(tool.get("name").is_none(), "top-level tool name must be moved into function");
    assert_eq!(tool["type"], "function");
    assert_eq!(tool["function"]["strict"], false);
    let tc = v.get("tool_choice").expect("tool_choice must remain");
    assert!(tc.get("strict").is_none(), "tool_choice strict must be stripped");
    assert_eq!(tc["function"]["name"], "shell_command");
}

#[test]
fn reasoning_effort_stripped_for_mistral_and_gemini() {

    let body = br#"{
        "model": "codestral-latest",
        "input": "hi",
        "reasoning": {"effort": "low"}
    }"#;
    let translated = transform_responses_to_chat_completions(body).expect("transform should succeed");
    let out = sanitize_reasoning_effort_for_model(&translated, "codestral-latest").expect("sanitize should apply");
    let v: serde_json::Value = serde_json::from_slice(&out).expect("valid json");
    assert!(
        v.get("reasoning_effort").is_none(),
        "reasoning_effort must be removed for codestral"
    );

    for effort in ["medium", "high", "none", "maximum"] {
        let body = format!(
            r#"{{"model": "codestral-latest", "input": "hi", "reasoning": {{"effort": "{}"}}}}"#,
            effort
        );
        let translated = transform_responses_to_chat_completions(body.as_bytes()).expect("transform should succeed");
        let out = sanitize_reasoning_effort_for_model(&translated, "codestral-latest").expect("sanitize should apply");
        let v: serde_json::Value = serde_json::from_slice(&out).expect("valid json");
        assert!(
            v.get("reasoning_effort").is_none(),
            "reasoning_effort '{}' must be removed for codestral",
            effort
        );
    }

    for model in ["mistral-small-latest", "open-mistral-nemo", "pixtral-12b", "mistral-large-latest"] {
        let body = format!(
            r#"{{"model": "{}", "input": "hi", "reasoning": {{"effort": "low"}}}}"#,
            model
        );
        let translated = transform_responses_to_chat_completions(body.as_bytes()).expect("transform should succeed");
        let out = sanitize_reasoning_effort_for_model(&translated, model).expect("sanitize should apply");
        let v: serde_json::Value = serde_json::from_slice(&out).expect("valid json");
        assert!(
            v.get("reasoning_effort").is_none(),
            "reasoning_effort must be removed for '{}'",
            model
        );
    }

    let body = br#"{
        "model": "gemini-2.0-flash",
        "input": "hi",
        "reasoning": {"effort": "low"}
    }"#;
    let translated = transform_responses_to_chat_completions(body).expect("transform should succeed");
    let out = sanitize_reasoning_effort_for_model(&translated, "gemini-2.0-flash").expect("sanitize should apply");
    let v: serde_json::Value = serde_json::from_slice(&out).expect("valid json");
    assert!(
        v.get("reasoning_effort").is_none(),
        "reasoning_effort must be removed for gemini"
    );

    for model in ["gpt-5.6", "llama-3.3-70b", "deepseek-v4-flash", "qwen3-coder"] {
        let body = format!(
            r#"{{"model": "{}", "input": "hi", "reasoning": {{"effort": "low"}}}}"#,
            model
        );
        let translated = transform_responses_to_chat_completions(body.as_bytes()).expect("transform should succeed");
        assert!(
            sanitize_reasoning_effort_for_model(&translated, model).is_none(),
            "model '{}' must pass through unchanged",
            model
        );
    }

    let body = br#"{"model": "codestral-latest", "input": "hi"}"#;
    let translated = transform_responses_to_chat_completions(body).expect("transform should succeed");
    assert!(
        sanitize_reasoning_effort_for_model(&translated, "codestral-latest").is_none(),
        "body without reasoning_effort must be unchanged"
    );
}

#[test]
fn tool_choice_dropped_when_referencing_removed_tool() {
    let body = br#"{
        "model": "gpt-5",
        "input": "hi",
        "tools": [
            {"type": "function", "name": "keep_me", "description": "d", "parameters": {"type": "object"}},
            {"type": "web_search"}
        ],
        "tool_choice": {"type": "function", "name": "web_search"}
    }"#;
    let out = transform_responses_to_chat_completions(body).expect("transform should succeed");
    let v: serde_json::Value = serde_json::from_slice(&out).expect("valid json");
    assert!(v.get("tools").is_some(), "tools must remain");
    assert!(
        v.get("tool_choice").is_none(),
        "tool_choice referencing a removed tool must be dropped"
    );
}

#[test]
fn tool_choice_kept_and_converted_for_surviving_tool() {
    let body = br#"{
        "model": "gpt-5",
        "input": "hi",
        "tools": [
            {"type": "function", "name": "my_tool", "description": "d", "parameters": {"type": "object"}}
        ],
        "tool_choice": {"type": "function", "name": "my_tool"}
    }"#;
    let out = transform_responses_to_chat_completions(body).expect("transform should succeed");
    let v: serde_json::Value = serde_json::from_slice(&out).expect("valid json");
    let tc = v.get("tool_choice").expect("tool_choice must be kept");
    assert_eq!(tc["type"], "function");
    assert_eq!(
        tc["function"]["name"],
        "my_tool",
        "must be converted to chat completions format"
    );
}

#[test]
fn tool_call_id_uses_call_id_not_item_id() {
    let body = br#"{
        "model": "codestral-latest",
        "input": [
            {"type": "message", "role": "user", "content": [{"type": "input_text", "text": "list files"}]},
            {"type": "function_call", "id": "fc_item_1", "call_id": "call_abc123", "name": "shell_command", "arguments": "{}"},
            {"type": "function_call_output", "call_id": "call_abc123", "output": "file1\nfile2"}
        ]
    }"#;
    let out = transform_responses_to_chat_completions(body).expect("transform should succeed");
    let v: serde_json::Value = serde_json::from_slice(&out).expect("valid json");
    let messages = v["messages"].as_array().expect("messages array");

    let assistant = messages.iter()
        .find(|m| m["role"] == "assistant" && m.get("tool_calls").is_some())
        .expect("assistant tool_calls message");
    assert_eq!(
        assistant["tool_calls"][0]["id"], "call_abc123",
        "assistant tool_call id must use call_id (not item id fc_item_1)"
    );

    let tool_msg = messages.iter()
        .find(|m| m["role"] == "tool")
        .expect("tool message");
    assert_eq!(
        tool_msg["tool_call_id"], "call_abc123",
        "tool message tool_call_id must match assistant tool_call id"
    );
}

#[test]
fn orphan_tool_message_is_dropped() {
    let body = br#"{
        "model": "codestral-latest",
        "input": [
            {"type": "message", "role": "user", "content": [{"type": "input_text", "text": "continue"}]},
            {"type": "function_call_output", "call_id": "call_orphan_1", "output": "result text"}
        ]
    }"#;
    let out = transform_responses_to_chat_completions(body).expect("transform should succeed");
    let v: serde_json::Value = serde_json::from_slice(&out).expect("valid json");
    let messages = v["messages"].as_array().expect("messages array");
    assert!(
        messages.iter().all(|m| m["role"] != "tool"),
        "orphan tool message must be dropped (no matching assistant tool_call)"
    );
}

#[test]
fn tool_choice_dropped_for_non_function_type() {
    let body = br#"{
        "model": "gpt-5",
        "input": "hi",
        "tools": [
            {"type": "function", "name": "keep_me", "description": "d", "parameters": {"type": "object"}}
        ],
        "tool_choice": {"type": "web_search_preview"}
    }"#;
    let out = transform_responses_to_chat_completions(body).expect("transform should succeed");
    let v: serde_json::Value = serde_json::from_slice(&out).expect("valid json");
    assert!(v.get("tools").is_some(), "tools must remain");
    assert!(v.get("tool_choice").is_none(), "non-function tool_choice must be dropped");
}

#[test]
fn response_format_text_is_omitted() {
    let body = br#"{
        "model": "gpt-5",
        "input": "hi",
        "text": {"format": {"type": "text"}}
    }"#;
    let out = transform_responses_to_chat_completions(body).expect("transform should succeed");
    let v: serde_json::Value = serde_json::from_slice(&out).expect("valid json");
    assert!(v.get("response_format").is_none(), "text format must be omitted");
}

#[test]
fn tool_choice_string_passes_through_when_tools_remain() {
    let body = br#"{
        "model": "gpt-5",
        "input": "hi",
        "tools": [
            {"type": "function", "name": "my_tool", "parameters": {"type": "object"}}
        ],
        "tool_choice": "auto"
    }"#;
    let out = transform_responses_to_chat_completions(body).expect("transform should succeed");
    let v: serde_json::Value = serde_json::from_slice(&out).expect("valid json");
    assert_eq!(v["tool_choice"], "auto");
}

#[test]
fn response_format_json_schema_is_nested() {
    let body = br#"{
        "model": "gpt-5",
        "input": "hi",
        "text": {
            "format": {
                "type": "json_schema",
                "name": "answer",
                "schema": {"type": "object", "properties": {"ok": {"type": "boolean"}}},
                "strict": true
            }
        }
    }"#;
    let out = transform_responses_to_chat_completions(body).expect("transform should succeed");
    let v: serde_json::Value = serde_json::from_slice(&out).expect("valid json");
    let rf = v.get("response_format").expect("response_format must be present");
    assert_eq!(rf["type"], "json_schema");
    assert_eq!(
        rf["json_schema"]["name"], "answer",
        "schema fields must be nested under json_schema"
    );
    assert_eq!(rf["json_schema"]["schema"]["type"], "object");
    assert_eq!(rf["json_schema"]["strict"], true);
}

#[test]
fn response_format_json_object_passes_through() {
    let body = br#"{
        "model": "gpt-5",
        "input": "hi",
        "text": {"format": {"type": "json_object"}}
    }"#;
    let out = transform_responses_to_chat_completions(body).expect("transform should succeed");
    let v: serde_json::Value = serde_json::from_slice(&out).expect("valid json");
    assert_eq!(v["response_format"]["type"], "json_object");
}

#[test]
fn chat_request_from_parsed_members() {
    let body = r#"{"model":"gpt-4o","instructions":"Be brief.","input":"hi","max_output_tokens":50,"store":true}"#;
    let members = match antigravity_hub::json::parse(body).unwrap() {
        antigravity_hub::json::Json::Object(es) => es,
        _ => panic!("object expected"),
    };
    let out = antigravity_hub::codex_request::chat_request(members);
    let printed = antigravity_hub::json::print(&antigravity_hub::json::Json::Object(out));
    let v: serde_json::Value = serde_json::from_str(&printed).unwrap();
    assert_eq!(v["messages"][0]["role"], "system");
    assert_eq!(v["messages"][0]["content"], "Be brief.");
    assert_eq!(v["messages"][1]["role"], "user");
    assert_eq!(v["messages"][1]["content"], "hi");
    assert_eq!(v["max_tokens"], 50);
    assert!(v.get("input").is_none() && v.get("instructions").is_none() && v.get("store").is_none());
    let direct = transform_responses_to_chat_completions(body.as_bytes()).unwrap();
    let w: serde_json::Value = serde_json::from_slice(&direct).unwrap();
    assert_eq!(v, w);
}
