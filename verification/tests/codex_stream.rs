use antigravity_hub::bridge_stream::sse_frame;
use antigravity_hub::codex_stream::StreamState;
use antigravity_hub::json::Json;

fn run(pieces: &[&str]) -> (String, StreamState) {
    let mut st = StreamState::new("glm-4");
    let mut out: Vec<Json> = Vec::new();
    for p in pieces {
        st.feed_bytes(&mut out, p.as_bytes());
    }
    st.end_of_input(&mut out);
    let text: String = out.iter().map(sse_frame).collect();
    (text, st)
}

fn types(text: &str) -> Vec<String> {
    text.split("\"type\":\"")
        .skip(1)
        .map(|s| s.split('"').next().unwrap().to_string())
        .filter(|t| t.starts_with("response."))
        .collect()
}

#[test]
fn codex_stream_text_then_finish() {
    let (text, st) = run(&[
        "data: {\"id\":\"chatcmpl-42\",\"model\":\"glm-4\",\"choices\":[{\"index\":0,\"delta\":{\"content\":\"Hel\"}}]}\n\n",
        "data: {\"id\":\"chatcmpl-42\",\"choices\":[{\"index\":0,\"delta\":{\"content\":\"lo\"},\"finish_reason\":\"stop\"}]}\n\n",
        "data: [DONE]\n\n",
    ]);
    assert!(st.is_completed);
    assert_eq!(st.response_id, "resp_42");
    assert_eq!(st.text_buffer, "Hello");
    assert_eq!(
        types(&text),
        vec![
            "response.created",
            "response.in_progress",
            "response.output_item.added",
            "response.content_part.added",
            "response.output_text.delta",
            "response.output_text.delta",
            "response.output_text.done",
            "response.content_part.done",
            "response.output_item.done",
            "response.completed",
            // [DONE] after completion sends nothing more
        ]
    );
    assert!(text.contains("\"text\":\"Hello\""));
    assert_eq!(text.matches("response.completed").count(), 1);
}

#[test]
fn codex_stream_tool_calls_are_closed_in_index_order() {
    let (text, _) = run(&[
        "data: {\"choices\":[{\"delta\":{\"tool_calls\":[{\"index\":1,\"id\":\"call_b\",\"function\":{\"name\":\"b\",\"arguments\":\"\"}}]}}]}\n",
        "data: {\"choices\":[{\"delta\":{\"tool_calls\":[{\"index\":0,\"id\":\"call_a\",\"function\":{\"name\":\"a\",\"arguments\":\"{\\\"x\\\":\"}}]}}]}\n",
        "data: {\"choices\":[{\"delta\":{\"tool_calls\":[{\"index\":0,\"function\":{\"arguments\":\"1}\"}}]}}]}\n",
        "data: {\"choices\":[{\"delta\":{},\"finish_reason\":\"tool_calls\"}]}\n",
    ]);
    let done: Vec<&str> = text.split("\n\n").filter(|f| f.contains("response.function_call_arguments.done")).collect();
    assert_eq!(done.len(), 2, "{}", text);
    assert!(done[0].contains("\"item_id\":\"call_a\"") && done[0].contains("\"arguments\":\"{\\\"x\\\":1}\""), "{}", done[0]);
    assert!(done[1].contains("\"item_id\":\"call_b\"") && done[1].contains("\"arguments\":\"{}\""), "{}", done[1]);
    assert_eq!(text.matches("response.function_call_arguments.delta").count(), 2);
}

#[test]
fn codex_stream_inline_thinking_goes_to_reasoning() {
    let (text, st) = run(&[
        "data: {\"choices\":[{\"delta\":{\"content\":\"<think>plan it\"}}]}\n",
        "data: {\"choices\":[{\"delta\":{\"content\":\"</think>\\n\\nAnswer\"},\"finish_reason\":\"stop\"}]}\n",
    ]);
    assert!(st.has_sent_reasoning);
    assert_eq!(st.reasoning_buffer, "<think>plan it");
    assert_eq!(st.text_buffer, "Answer");
    assert_eq!(st.output_index, 1);
    assert!(text.contains("\"type\":\"reasoning\""));
    assert!(text.contains("\"delta\":\"Answer\""));
}

#[test]
fn codex_stream_reasoning_field() {
    let (text, st) = run(&[
        "data: {\"choices\":[{\"delta\":{\"reasoning_content\":\"hmm\"}}]}\n",
        "data: {\"choices\":[{\"delta\":{\"content\":\"ok\"},\"finish_reason\":\"length\"}]}\n",
    ]);
    assert_eq!(st.reasoning_buffer, "hmm");
    assert_eq!(st.reasoning_output_index, 0);
    assert!(text.contains("\"reasoning\":\"hmm\""));
    assert!(st.is_completed);
}

#[test]
fn codex_stream_error_chunk_fails_response() {
    let (text, st) = run(&["data: {\"error\":{\"message\":\"quota\",\"code\":\"429\"}}\n"]);
    assert!(st.is_completed);
    assert_eq!(types(&text), vec!["response.created"]);
    assert!(text.contains("\"status\":\"failed\""));
    assert!(text.contains("Upstream error: quota (code: 429)"));
}

#[test]
fn codex_stream_empty_stream_fails() {
    let (text, st) = run(&[]);
    assert!(st.is_completed);
    assert!(text.contains("proxy_upstream_error"));
    assert!(text.contains("Upstream returned an empty or unparseable streaming response."));
}

#[test]
fn codex_stream_done_before_data_fails() {
    let (text, _) = run(&["data: [DONE]\n"]);
    assert!(text.contains("Upstream returned no streaming data ([DONE] with empty body)."));
}

#[test]
fn codex_stream_control_tokens_removed() {
    let (text, st) = run(&["data: {\"choices\":[{\"delta\":{\"content\":\"hi<|endoftext|>\"}}]}\n"]);
    assert_eq!(st.text_buffer, "hi");
    assert!(!text.contains("endoftext"));
}

#[test]
fn codex_stream_split_payload_is_reassembled() {
    let (text, st) = run(&[
        "data: {\"choices\":[{\"delta\":{\"content\":\"wra",
        "pped\"}}]}\n",
    ]);
    assert_eq!(st.text_buffer, "wrapped", "{}", text);
}

#[test]
fn codex_stream_upstream_error_after_start() {
    let mut st = StreamState::new("m");
    let mut out: Vec<Json> = Vec::new();
    st.feed_bytes(&mut out, b"data: {\"choices\":[{\"delta\":{\"content\":\"a\"}}]}\n");
    st.upstream_error(&mut out, "reset");
    let text: String = out.iter().map(sse_frame).collect();
    assert!(text.contains("\"type\":\"response.failed\""));
    assert!(text.contains("Upstream stream error: reset"));
    assert_eq!(st.timeout_secs(), 300);
    let mut fresh = StreamState::new("m");
    assert_eq!(fresh.timeout_secs(), 120);
    fresh.timed_out(&mut out);
    assert!(fresh.is_completed);
}
