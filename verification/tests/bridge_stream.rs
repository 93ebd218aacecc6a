use antigravity_hub::bridge_stream::{
    on_timeout, session_expired, sse_frame, wait_budget_ns, LineOutcome, StreamTranslatorState, TimerAction, DONE_FRAME,
    PING_FRAME,
};
use antigravity_hub::json::Json;
use antigravity_hub::responses_bridge::BridgeConfig;

/// Feeds the pieces as they would arrive, then ends the stream as the
/// upstream end of data does, and returns the client stream as text.
fn run(pieces: &[&str]) -> (String, StreamTranslatorState) {
    let mut st = StreamTranslatorState::new("gpt-4");
    let mut out: Vec<Json> = Vec::new();
    for p in pieces {
        let fed = st.feed_bytes(&mut out, p.as_bytes());
        if fed.terminated {
            break;
        }
    }
    st.end_of_input();
    st.finish(&mut out);
    let mut text = String::new();
    for j in &out {
        text.push_str(&sse_frame(j));
    }
    text.push_str(DONE_FRAME);
    (text, st)
}

#[test]
fn test_stream_simple_text() {
    let events = vec![
        "data: {\"type\":\"response.created\",\"response\":{\"id\":\"resp_abc\",\"model\":\"gpt-4\",\"status\":\"in_progress\",\"output\":[]}}\n\n",
        "data: {\"type\":\"response.output_item.added\",\"output_index\":0,\"item\":{\"id\":\"msg_1\",\"type\":\"message\",\"role\":\"assistant\",\"content\":[]}}\n\n",
        "data: {\"type\":\"response.content_part.added\",\"item_id\":\"msg_1\",\"output_index\":0,\"content_index\":0,\"part\":{\"type\":\"output_text\",\"text\":\"\"}}\n\n",
        "data: {\"type\":\"response.output_text.delta\",\"delta\":\"Hello\",\"item_id\":\"msg_1\",\"output_index\":0,\"content_index\":0}\n\n",
        "data: {\"type\":\"response.output_text.delta\",\"delta\":\" World\",\"item_id\":\"msg_1\",\"output_index\":0,\"content_index\":0}\n\n",
        "data: {\"type\":\"response.completed\",\"response\":{\"id\":\"resp_abc\",\"status\":\"completed\",\"output\":[{\"id\":\"msg_1\",\"type\":\"message\",\"role\":\"assistant\",\"content\":[{\"type\":\"output_text\",\"text\":\"Hello World\"}]}]}}\n\n",
        "data: [DONE]\n\n",
    ];
    let (output, _) = run(&events);
    assert!(output.contains("data: "), "should contain SSE data");
    assert!(output.contains("[DONE]"), "should end with [DONE]");
    assert!(output.contains("Hello"), "should contain 'Hello'");
    assert!(output.contains("World"), "should contain 'World'");
    assert!(output.contains("\"role\":\"assistant\""), "should set role");
    let stop_pos = output.find("\"finish_reason\":\"stop\"");
    let done_pos = output.find("[DONE]");
    assert!(stop_pos.is_some(), "should end with stop");
    assert!(done_pos.is_some());
    assert!(stop_pos.unwrap() < done_pos.unwrap(), "finish should come before [DONE]");
}

#[test]
fn test_stream_tool_call() {
    let events = vec![
        "data: {\"type\":\"response.created\",\"response\":{\"id\":\"resp_abc\",\"model\":\"gpt-4\",\"status\":\"in_progress\",\"output\":[]}}\n\n",
        "data: {\"type\":\"response.output_item.added\",\"output_index\":0,\"item\":{\"id\":\"msg_1\",\"type\":\"message\",\"role\":\"assistant\",\"content\":[]}}\n\n",
        "data: {\"type\":\"response.content_part.added\",\"item_id\":\"msg_1\",\"output_index\":0,\"content_index\":0,\"part\":{\"type\":\"output_text\",\"text\":\"\"}}\n\n",
        "data: {\"type\":\"response.output_text.delta\",\"delta\":\"I will check the weather.\",\"item_id\":\"msg_1\",\"output_index\":0,\"content_index\":0}\n\n",
        "data: {\"type\":\"response.output_item.added\",\"output_index\":1,\"item\":{\"id\":\"fc_1\",\"type\":\"function_call\",\"call_id\":\"call_weather\",\"name\":\"get_weather\",\"arguments\":\"\"}}\n\n",
        "data: {\"type\":\"response.function_call_arguments.delta\",\"delta\":\"{\\\"city\\\":\",\"item_id\":\"fc_1\",\"output_index\":1}\n\n",
        "data: {\"type\":\"response.function_call_arguments.delta\",\"delta\":\" \\\"Beijing\\\"}\",\"item_id\":\"fc_1\",\"output_index\":1}\n\n",
        "data: {\"type\":\"response.completed\",\"response\":{\"id\":\"resp_abc\",\"status\":\"completed\",\"output\":[{\"id\":\"msg_1\",\"type\":\"message\",\"role\":\"assistant\",\"content\":[{\"type\":\"output_text\",\"text\":\"I will check the weather.\"}]},{\"id\":\"fc_1\",\"type\":\"function_call\",\"call_id\":\"call_weather\",\"name\":\"get_weather\",\"arguments\":\"{\\\"city\\\": \\\"Beijing\\\"}\"}]}}\n\n",
        "data: [DONE]\n\n",
    ];
    let (output, _) = run(&events);
    assert!(output.contains("I will check the weather."));
    assert!(output.contains("tool_calls"), "should contain tool_calls");
    assert!(output.contains("call_weather"), "should contain tool call id");
    assert!(output.contains("get_weather"), "should contain tool name");
    assert!(output.contains("Beijing"), "should contain argument");
    assert!(output.contains("\"finish_reason\":\"tool_calls\""), "finish_reason should be tool_calls");
}

#[test]
fn test_stream_multi_round_tool_calls() {
    let events = vec![
        "data: {\"type\":\"response.created\",\"response\":{\"id\":\"resp_multi\",\"model\":\"gpt-4\",\"status\":\"in_progress\",\"output\":[]}}\n\n",
        "data: {\"type\":\"response.output_item.added\",\"output_index\":0,\"item\":{\"id\":\"fc_1\",\"type\":\"function_call\",\"call_id\":\"call_search\",\"name\":\"search_tool\",\"arguments\":\"\"}}\n\n",
        "data: {\"type\":\"response.function_call_arguments.delta\",\"delta\":\"{\\\"query\\\":\",\"item_id\":\"fc_1\",\"output_index\":0}\n\n",
        "data: {\"type\":\"response.function_call_arguments.delta\",\"delta\":\" \\\"weather\\\"}\",\"item_id\":\"fc_1\",\"output_index\":0}\n\n",
        "data: {\"type\":\"response.output_item.added\",\"output_index\":1,\"item\":{\"id\":\"fc_2\",\"type\":\"function_call\",\"call_id\":\"call_email\",\"name\":\"send_email\",\"arguments\":\"\"}}\n\n",
        "data: {\"type\":\"response.function_call_arguments.delta\",\"delta\":\"{\\\"to\\\":\\\"a@b.com\\\",\",\"item_id\":\"fc_2\",\"output_index\":1}\n\n",
        "data: {\"type\":\"response.function_call_arguments.delta\",\"delta\":\"\\\"body\\\":\\\"Done\\\"}\",\"item_id\":\"fc_2\",\"output_index\":1}\n\n",
        "data: {\"type\":\"response.completed\",\"response\":{\"id\":\"resp_multi\",\"status\":\"completed\",\"output\":[{\"id\":\"fc_1\",\"type\":\"function_call\",\"call_id\":\"call_search\",\"name\":\"search_tool\",\"arguments\":\"{\\\"query\\\": \\\"weather\\\"}\"},{\"id\":\"fc_2\",\"type\":\"function_call\",\"call_id\":\"call_email\",\"name\":\"send_email\",\"arguments\":\"{\\\"to\\\":\\\"a@b.com\\\",\\\"body\\\":\\\"Done\\\"}\"}]}}\n\n",
        "data: [DONE]\n\n",
    ];
    let (output, _) = run(&events);
    assert!(output.contains("call_search"), "should contain first call id");
    assert!(output.contains("call_email"), "should contain second call id");
    assert!(output.contains("search_tool"), "should contain first tool name");
    assert!(output.contains("send_email"), "should contain second tool name");
    assert!(output.contains("weather"), "should contain search query");
    assert!(output.contains("a@b.com"), "should contain email recipient");
    assert!(output.contains("\"index\":0"), "first tool call should have index 0");
    assert!(output.contains("\"index\":1"), "second tool call should have index 1");
    assert!(output.contains("\"finish_reason\":\"tool_calls\""));
}

#[test]
fn test_stream_multi_response_no_premature_stop() {
    let events = vec![
        "data: {\"type\":\"response.created\",\"response\":{\"id\":\"resp_1\",\"model\":\"gpt-4\",\"status\":\"in_progress\",\"output\":[]}}\n\n",
        "data: {\"type\":\"response.output_item.added\",\"output_index\":0,\"item\":{\"id\":\"msg_1\",\"type\":\"message\",\"role\":\"assistant\",\"content\":[]}}\n\n",
        "data: {\"type\":\"response.output_text.delta\",\"delta\":\"我已经搜索到第一轮结果，\",\"item_id\":\"msg_1\",\"output_index\":0,\"content_index\":0}\n\n",
        "data: {\"type\":\"response.output_text.delta\",\"delta\":\"接下来继续查找更多资料。\",\"item_id\":\"msg_1\",\"output_index\":0,\"content_index\":0}\n\n",
        "data: {\"type\":\"response.completed\",\"response\":{\"id\":\"resp_1\",\"status\":\"completed\",\"output\":[{\"id\":\"msg_1\",\"type\":\"message\",\"role\":\"assistant\",\"content\":[{\"type\":\"output_text\",\"text\":\"我已经搜索到第一轮结果，接下来继续查找更多资料。\"}]}]}}\n\n",
        "data: {\"type\":\"response.created\",\"response\":{\"id\":\"resp_2\",\"model\":\"gpt-4\",\"status\":\"in_progress\",\"output\":[]}}\n\n",
        "data: {\"type\":\"response.output_item.added\",\"output_index\":0,\"item\":{\"id\":\"fc_2\",\"type\":\"function_call\",\"call_id\":\"call_search_2\",\"name\":\"web_search\",\"arguments\":\"\"}}\n\n",
        "data: {\"type\":\"response.function_call_arguments.delta\",\"delta\":\"{\\\"query\\\":\",\"item_id\":\"fc_2\",\"output_index\":0}\n\n",
        "data: {\"type\":\"response.function_call_arguments.delta\",\"delta\":\"\\\"deep research\\\"}\",\"item_id\":\"fc_2\",\"output_index\":0}\n\n",
        "data: {\"type\":\"response.completed\",\"response\":{\"id\":\"resp_2\",\"status\":\"completed\",\"output\":[{\"id\":\"fc_2\",\"type\":\"function_call\",\"call_id\":\"call_search_2\",\"name\":\"web_search\",\"arguments\":\"{\\\"query\\\":\\\"deep research\\\"}\"}]}}\n\n",
        "data: [DONE]\n\n",
    ];
    let (output, _) = run(&events);
    assert!(output.contains("我已经搜索到第一轮结果"), "first response text must be present");
    assert!(output.contains("call_search_2"), "second response tool call must be present");
    assert!(output.contains("web_search"), "second response tool name must be present");
    assert!(!output.contains("\"finish_reason\":\"stop\""), "must NOT inject stop mid-stream: {}", output);
    assert!(output.contains("\"finish_reason\":\"tool_calls\""), "final finish should be tool_calls");
    assert_eq!(output.matches("\"finish_reason\":\"tool_calls\"").count(), 1, "only one valued finish_reason");
    assert_eq!(output.matches("\"finish_reason\":\"stop\"").count(), 0, "no stop ever");
}

#[test]
fn test_stream_done_midstream_not_terminate() {
    let events = vec![
        "data: {\"type\":\"response.created\",\"response\":{\"id\":\"resp_done\",\"model\":\"gpt-4\",\"status\":\"in_progress\",\"output\":[]}}\n\n",
        "data: {\"type\":\"response.output_item.added\",\"output_index\":0,\"item\":{\"id\":\"fc_1\",\"type\":\"function_call\",\"call_id\":\"call_a\",\"name\":\"tool_a\",\"arguments\":\"\"}}\n\n",
        "data: {\"type\":\"response.function_call_arguments.delta\",\"delta\":\"{\\\"a\\\":1}\",\"item_id\":\"fc_1\",\"output_index\":0}\n\n",
        "data: [DONE]\n\n",
        "data: {\"type\":\"response.output_item.added\",\"output_index\":1,\"item\":{\"id\":\"fc_2\",\"type\":\"function_call\",\"call_id\":\"call_b\",\"name\":\"tool_b\",\"arguments\":\"\"}}\n\n",
        "data: {\"type\":\"response.function_call_arguments.delta\",\"delta\":\"{\\\"b\\\":2}\",\"item_id\":\"fc_2\",\"output_index\":1}\n\n",
        "data: {\"type\":\"response.completed\",\"response\":{\"id\":\"resp_done\",\"status\":\"completed\",\"output\":[{\"id\":\"fc_1\",\"type\":\"function_call\",\"call_id\":\"call_a\",\"name\":\"tool_a\",\"arguments\":\"{\\\"a\\\":1}\"},{\"id\":\"fc_2\",\"type\":\"function_call\",\"call_id\":\"call_b\",\"name\":\"tool_b\",\"arguments\":\"{\\\"b\\\":2}\"}]}}\n\n",
    ];
    let (output, _) = run(&events);
    assert!(output.contains("call_b"), "tool call after mid-stream [DONE] must be delivered");
    assert!(output.contains("tool_b"), "tool name after [DONE] must be delivered");
    assert_eq!(output.matches("\"finish_reason\":\"stop\"").count(), 0, "must not inject stop");
    assert_eq!(output.matches("\"finish_reason\":\"tool_calls\"").count(), 1, "only one valued finish_reason");
}

#[test]
fn test_stream_arg_deltas_forwarded_as_is() {
    let events = vec![
        "data: {\"type\":\"response.created\",\"response\":{\"id\":\"resp_frag\",\"model\":\"gpt-4\",\"status\":\"in_progress\",\"output\":[]}}\n\n",
        "data: {\"type\":\"response.output_item.added\",\"output_index\":0,\"item\":{\"id\":\"fc_1\",\"type\":\"function_call\",\"call_id\":\"call_x\",\"name\":\"search\",\"arguments\":\"\"}}\n\n",
        "data: {\"type\":\"response.function_call_arguments.delta\",\"delta\":\"{\\\"q\\\":\",\"item_id\":\"fc_1\",\"output_index\":0}\n\n",
        "data: {\"type\":\"response.function_call_arguments.delta\",\"delta\":\" \\\"x\\\",\\\"n\\\":\",\"item_id\":\"fc_1\",\"output_index\":0}\n\n",
        "data: {\"type\":\"response.function_call_arguments.delta\",\"delta\":\"1}\",\"item_id\":\"fc_1\",\"output_index\":0}\n\n",
        "data: [DONE]\n\n",
    ];
    let (output, _) = run(&events);
    assert_eq!(output.matches("\\\"q\\\":").count(), 1, "first fragment");
    assert!(output.contains(" \\\"x\\\",\\\"n\\\":"), "second fragment must be forwarded as-is");
    assert!(output.contains("1}"), "third fragment");
    assert_eq!(output.matches("\"arguments\":\"").count(), 4, "initial(1) + three arg deltas(3)");
}

#[test]
fn test_stream_malformed_chunk_skipped() {
    let events = vec![
        "data: {\"type\":\"response.created\",\"response\":{\"id\":\"resp_bad\",\"model\":\"gpt-4\",\"status\":\"in_progress\",\"output\":[]}}\n\n",
        "data: {this is not valid json\n\n",
        "data: {\"type\":\"response.output_item.added\",\"output_index\":0,\"item\":{\"id\":\"msg_1\",\"type\":\"message\",\"role\":\"assistant\",\"content\":[]}}\n\n",
        "data: {\"type\":\"response.output_text.delta\",\"delta\":\"still alive\",\"item_id\":\"msg_1\",\"output_index\":0,\"content_index\":0}\n\n",
        "data: {\"type\":\"response.completed\",\"response\":{\"id\":\"resp_bad\",\"status\":\"completed\",\"output\":[{\"id\":\"msg_1\",\"type\":\"message\",\"role\":\"assistant\",\"content\":[{\"type\":\"output_text\",\"text\":\"still alive\"}]}]}}\n\n",
        "data: [DONE]\n\n",
    ];
    let (output, _) = run(&events);
    assert!(output.contains("still alive"), "stream must survive malformed chunk");
    assert!(output.contains("[DONE]"), "stream must end normally");
    assert!(output.contains("\"finish_reason\":\"stop\""));
}

#[test]
fn test_stream_complete_hook_fires() {
    let events = vec![
        "data: {\"type\":\"response.created\",\"response\":{\"id\":\"resp_hook\",\"model\":\"gpt-4\",\"status\":\"in_progress\",\"output\":[]}}\n\n",
        "data: {\"type\":\"response.output_item.added\",\"output_index\":0,\"item\":{\"id\":\"msg_1\",\"type\":\"message\",\"role\":\"assistant\",\"content\":[]}}\n\n",
        "data: {\"type\":\"response.output_text.delta\",\"delta\":\"done\",\"item_id\":\"msg_1\",\"output_index\":0,\"content_index\":0}\n\n",
        "data: {\"type\":\"response.completed\",\"response\":{\"id\":\"resp_hook\",\"status\":\"completed\",\"output\":[{\"id\":\"msg_1\",\"type\":\"message\",\"role\":\"assistant\",\"content\":[{\"type\":\"output_text\",\"text\":\"done\"}]}]}}\n\n",
        "data: [DONE]\n\n",
    ];
    let (output, st) = run(&events);
    assert!(!output.is_empty());
    let (rid, has_tools, has_text) = st.completion();
    assert_eq!(rid.as_deref(), Some("resp_hook"));
    assert!(!has_tools);
    assert!(has_text);
}

#[test]
fn test_stream_survives_arbitrary_byte_chunking() {
    let transcript = [
        "data: {\"type\":\"response.created\",\"response\":{\"id\":\"resp_split\",\"model\":\"gpt-4\",\"status\":\"in_progress\",\"output\":[]}}\n\n",
        "data: {\"type\":\"response.output_item.added\",\"output_index\":0,\"item\":{\"id\":\"msg_1\",\"type\":\"message\",\"role\":\"assistant\",\"content\":[]}}\n\n",
        "data: {\"type\":\"response.output_text.delta\",\"delta\":\"页面能访问，状态码 200。\",\"item_id\":\"msg_1\",\"output_index\":0,\"content_index\":0}\n\n",
        "data: {\"type\":\"response.output_text.delta\",\"delta\":\"让我看看内容。\",\"item_id\":\"msg_1\",\"output_index\":0,\"content_index\":0}\n\n",
        "data: {\"type\":\"response.completed\",\"response\":{\"id\":\"resp_split\",\"status\":\"completed\",\"output\":[{\"id\":\"msg_1\",\"type\":\"message\",\"role\":\"assistant\",\"content\":[{\"type\":\"output_text\",\"text\":\"页面能访问，状态码 200。让我看看内容。\"}]}]}}\n\n",
        "data: [DONE]\n\n",
    ]
    .concat();
    for chunk_size in [1usize, 2, 3, 5, 7, 13, 64, 137] {
        let mut st = StreamTranslatorState::new("gpt-4");
        let mut out: Vec<Json> = Vec::new();
        for c in transcript.as_bytes().chunks(chunk_size) {
            st.feed_bytes(&mut out, c);
        }
        st.end_of_input();
        st.finish(&mut out);
        let output: String = out.iter().map(sse_frame).collect();
        assert!(output.contains("状态码 200"), "{} byte pieces: multi-byte text intact; got {}", chunk_size, output);
        assert!(output.contains("让我看看内容"), "{} byte pieces: later delta kept; got {}", chunk_size, output);
        assert!(!output.contains('\u{FFFD}'), "{} byte pieces: no replacement character; got {}", chunk_size, output);
    }
}

#[test]
fn stream_failed_event_ends_with_error_chunk() {
    let events = vec![
        "data: {\"type\":\"response.created\",\"response\":{\"id\":\"resp_f\",\"model\":\"gpt-4\"}}\n\n",
        "data: {\"type\":\"response.failed\",\"response\":{\"error\":{\"message\":\"boom\",\"code\":\"rate_limit\"}}}\n\n",
        "data: {\"type\":\"response.output_text.delta\",\"delta\":\"never\"}\n\n",
    ];
    let (output, st) = run(&events);
    assert!(st.is_finished);
    assert!(output.contains("\"finish_reason\":\"error\""));
    assert!(output.contains("Upstream error: boom (code: rate_limit)"));
    assert!(!output.contains("never"), "nothing is read after a failure");
    assert!(!output.contains("\"finish_reason\":\"stop\""), "no second finish after an error");
    assert!(output.contains("\"id\":\"chatcmpl-f\""), "chunk id follows the response id");
}

#[test]
fn stream_error_event_and_passthrough() {
    let mut st = StreamTranslatorState::new("m");
    let mut out: Vec<Json> = Vec::new();
    let o = st.feed_line(&mut out, "data: {\"choices\":[{\"index\":0}]}");
    assert_eq!(o, LineOutcome::Activity);
    assert_eq!(out.len(), 1, "a chat chunk without type is forwarded");
    assert_eq!(st.feed_line(&mut out, "event: response.created"), LineOutcome::Quiet);
    assert_eq!(st.feed_line(&mut out, ": keep-alive"), LineOutcome::Activity);
    assert_eq!(st.feed_line(&mut out, "data: [DONE]"), LineOutcome::Quiet);
    assert!(st.seen_done && !st.is_finished);
    let o = st.feed_line(&mut out, "data: {\"type\":\"error\",\"message\":\"bad\"}");
    assert_eq!(o, LineOutcome::Terminated);
    let last = sse_frame(out.last().unwrap());
    assert!(last.contains("\"error\":{\"message\":\"bad\"}"));
    assert!(last.contains("\"finish_reason\":\"error\""));
}

#[test]
fn stream_unknown_event_text_is_forwarded() {
    let mut st = StreamTranslatorState::new("m");
    let mut out: Vec<Json> = Vec::new();
    st.feed_line(&mut out, "data: {\"type\":\"custom.thing\",\"delta\":\"a\",\"text\":\"b\"}");
    let text: String = out.iter().map(sse_frame).collect();
    assert_eq!(out.len(), 3, "role chunk, then the two texts");
    assert!(text.contains("\"content\":\"a\"") && text.contains("\"content\":\"b\""));
}

#[test]
fn stream_line_buffer_waits_for_line_end() {
    let mut st = StreamTranslatorState::new("m");
    let mut out: Vec<Json> = Vec::new();
    let fed = st.feed_bytes(&mut out, b"data: {\"type\":\"response.output_text.delta\",\"delta\":\"x\"}");
    assert!(!fed.data_seen && out.is_empty());
    let fed = st.feed_bytes(&mut out, b"\n");
    assert!(fed.data_seen);
    assert_eq!(out.len(), 2);
    assert_eq!(st.end_of_input(), 0);
    st.feed_bytes(&mut out, b"partial");
    assert_eq!(st.end_of_input(), 7);
}

#[test]
fn stream_finish_is_sent_once() {
    let mut st = StreamTranslatorState::new("m");
    let mut out: Vec<Json> = Vec::new();
    st.finish(&mut out);
    st.finish(&mut out);
    assert_eq!(out.len(), 1);
    assert!(sse_frame(&out[0]).contains("\"finish_reason\":\"stop\""));
}

#[test]
fn stream_args_for_unknown_call_are_skipped() {
    let mut st = StreamTranslatorState::new("m");
    let mut out: Vec<Json> = Vec::new();
    st.feed_line(&mut out, "data: {\"type\":\"response.function_call_arguments.delta\",\"delta\":\"{}\",\"item_id\":\"nope\"}");
    assert!(out.is_empty());
}

#[test]
fn stream_timer_decisions() {
    let config = BridgeConfig {
        heartbeat_interval_secs: 1,
        first_chunk_timeout_secs: 60,
        chunk_idle_timeout_secs: 5,
        session_max_duration_secs: 4,
        ..Default::default()
    };
    let s: u128 = 1_000_000_000;
    assert_eq!(wait_budget_ns(&config, true, 0, 0), s);
    assert_eq!(wait_budget_ns(&config, true, 0, 5 * s - 10), 10);
    assert_eq!(wait_budget_ns(&config, false, 2 * s, 0), 0);
    assert_eq!(on_timeout(&config, false, true, s, 2 * s), TimerAction::Ping);
    assert_eq!(on_timeout(&config, false, true, s / 2, 5 * s), TimerAction::Stop);
    assert_eq!(on_timeout(&config, false, false, s / 2, 5 * s), TimerAction::Wait);
    assert_eq!(on_timeout(&config, true, true, 0, 0), TimerAction::Stop);
    let zero = BridgeConfig { heartbeat_interval_secs: 0, ..Default::default() };
    assert_eq!(on_timeout(&zero, false, true, s, 0), TimerAction::Ping, "a zero interval counts as one second");
    assert!(session_expired(&config, 5));
    assert!(!session_expired(&config, 4));
    assert_eq!(PING_FRAME, ": ping\n\n");
}

#[test]
fn one_finish_chunk_per_stream() {
    let mut st = StreamTranslatorState::new("gpt-4");
    let mut out: Vec<Json> = Vec::new();
    let text = "data: {\"type\":\"response.created\",\"response\":{\"id\":\"resp_1\"}}\n\ndata: {\"type\":\"response.output_text.delta\",\"delta\":\"Hi\"}\n\ndata: {\"type\":\"response.completed\",\"response\":{}}\n\ndata: [DONE]\n\n";
    for piece in text.as_bytes().chunks(7) {
        st.feed_bytes(&mut out, piece);
    }
    st.finish(&mut out);
    st.finish(&mut out);
    let finishes = out
        .iter()
        .filter(|j| sse_frame(j).contains("\"finish_reason\":\"stop\""))
        .count();
    assert_eq!(finishes, 1);
}
