use antigravity_hub::diagnostics::{analyze_pair, analyze_transcript, how_to_capture_logs, Category, LastDeltaType, SuspectedLayer};

#[test]
fn test_b_active_end() {
    let log = r#"[
      {"choices":[{"delta":{"role":"assistant","tool_calls":[{"index":0,"id":"call_1","type":"function","function":{"name":"shell","arguments":""}}]}}]},
      {"choices":[{"delta":{"tool_calls":[{"index":0,"function":{"arguments":"{\"cmd\":\"ls\"}"}}]}}]},
      {"choices":[{"delta":{},"finish_reason":"tool_calls"}]},
      {"role":"tool","tool_call_id":"call_1","name":"shell","content":"file1\nfile2"},
      {"choices":[{"delta":{"role":"assistant","content":"这个目录有两个文件。"}}]},
      {"choices":[{"delta":{},"finish_reason":"stop"}]}
    ]"#;
    let r = analyze_transcript(log);
    assert_eq!(r.category, Category::B, "应为 B 类主动结束: {}", r.reasoning);
    assert_eq!(r.tool_invocations, 1);
    assert_eq!(r.tool_results_observed, 1);
    assert_eq!(r.last_delta_type, LastDeltaType::Content);
    assert_eq!(r.finish_reason.as_deref(), Some("stop"));
}

#[test]
fn test_a_stream_cut_mid_tool_call() {
    let log = "data: {\"choices\":[{\"delta\":{\"role\":\"assistant\",\"content\":\"好的，我来调用工具查看。\"}}]}\n\
data: {\"choices\":[{\"delta\":{\"tool_calls\":[{\"index\":0,\"id\":\"call_2\",\"type\":\"function\",\"function\":{\"name\":\"shell\",\"arguments\":\"\"}}]}}]}\n\
data: {\"choices\":[{\"delta\":{\"tool_calls\":[{\"index\":0,\"function\":{\"arguments\":\"{\\\"cmd\\\":\\\"cat \"}}]}}]}";
    let r = analyze_transcript(log);
    assert_eq!(r.category, Category::A, "应为 A 类截断: {}", r.reasoning);
    assert_eq!(r.last_delta_type, LastDeltaType::ToolCalls);
    assert!(!r.ended_cleanly);
}

#[test]
fn test_a_content_only_with_intent() {
    let log = "data: {\"choices\":[{\"delta\":{\"role\":\"assistant\",\"content\":\"好的，我来调用工具查看这个页面。\"}}]}\n\
data: {\"choices\":[{\"delta\":{}, \"finish_reason\":\"stop\"}]}";
    let r = analyze_transcript(log);
    assert_eq!(r.category, Category::A, "纯文本+意图词应判 A: {}", r.reasoning);
    assert_eq!(r.tool_invocations, 0);
}

#[test]
fn test_responses_api_tool_call_then_completed() {
    let log = r#"{"type":"response.output_item.added","item":{"type":"function_call","name":"read_file","arguments":"","call_id":"fc_1"}}
{"type":"response.output_item.delta","item":{"type":"function_call","arguments":"{\"path\":\"/x\"}"}}
{"type":"response.output_item.done","item":{"type":"function_call","name":"read_file","arguments":"{\"path\":\"/x\"}","call_id":"fc_1"}}
{"type":"response.completed","response":{"output":[{"type":"function_call","name":"read_file","arguments":"{\"path\":\"/x\"}","call_id":"fc_1"}]}}"#;
    let r = analyze_transcript(log);
    assert_eq!(r.source_format, "responses_api");
    assert_eq!(r.tool_invocations, 1);
    assert_eq!(r.category, Category::Other);
}

#[test]
fn test_pair_pins_proxy_layer() {
    let upstream = "data: {\"choices\":[{\"delta\":{\"tool_calls\":[{\"index\":0,\"id\":\"c1\",\"function\":{\"name\":\"shell\",\"arguments\":\"{\\\"cmd\\\":\\\"ls\\\"}\"}}]}}]}\n\
data: {\"choices\":[{\"delta\":{}, \"finish_reason\":\"tool_calls\"}]}";
    let proxy = "{\"type\":\"response.output_item.added\",\"item\":{\"type\":\"message\",\"content\":\"好的\"}}\n\
{\"type\":\"response.completed\",\"response\":{\"output\":[{\"type\":\"message\",\"content\":\"好的\"}]}}";
    let p = analyze_pair(upstream, proxy);
    assert_eq!(p.pinned_layer, SuspectedLayer::Proxy, "代理丢失工具调用应钉死 Proxy 层: {}", p.reasoning);
    assert_eq!(p.upstream.tool_invocations, 1);
    assert_eq!(p.proxy_emitted.tool_invocations, 0);
}

#[test]
fn test_pair_pins_third_party_api() {
    let upstream = "data: {\"choices\":[{\"delta\":{\"tool_calls\":[{\"index\":0,\"id\":\"c2\",\"function\":{\"name\":\"shell\",\"arguments\":\"{\"cmd\":\"cat \"}}]}}]}\n\
data: {\"choices\":[{\"delta\":{\"tool_calls\":[{\"index\":0,\"function\":{\"arguments\":\"";
    let proxy = "{\"type\":\"response.output_item.added\",\"item\":{\"type\":\"function_call\",\"name\":\"shell\",\"arguments\":\"{\"cmd\":\"cat \"";
    let p = analyze_pair(upstream, proxy);
    assert_eq!(p.pinned_layer, SuspectedLayer::ThirdPartyApi, "上下游均截断应钉死 ThirdPartyApi: {}", p.reasoning);
}

#[test]
fn diagnostics_empty_transcript_is_cut_off() {
    let r = analyze_transcript("");
    assert_eq!(r.num_events, 0);
    assert_eq!(r.source_format, "unknown");
    assert_eq!(r.last_delta_type, LastDeltaType::Empty);
    assert!(!r.ended_cleanly);
    assert_eq!(r.category, Category::A);
    assert_eq!(r.reasoning, "流异常结束（无终止信号），疑似被截断");
}

#[test]
fn diagnostics_done_marker_ends_cleanly() {
    let log = "data: {\"choices\":[{\"delta\":{\"content\":\"hi\"}}]}\ndata: [DONE]\n";
    let r = analyze_transcript(log);
    assert!(r.ended_cleanly);
    assert_eq!(r.num_events, 1);
    assert_eq!(r.category, Category::Other);
    assert_eq!(r.reasoning, "流正常结束（[DONE] / response.completed）但无 finish_reason 字段");
}

#[test]
fn diagnostics_pending_tool_calls_count_in_reasoning() {
    let log = "data: {\"model\":\"m1\",\"choices\":[{\"delta\":{\"tool_calls\":[{\"index\":0,\"id\":\"a\",\"function\":{\"name\":\"shell\",\"arguments\":\"{}\"}},{\"index\":1,\"id\":\"b\",\"function\":{\"name\":\"read\",\"arguments\":\"{}\"}}]}}]}\n\
data: {\"choices\":[{\"delta\":{},\"finish_reason\":\"tool_calls\"}]}";
    let r = analyze_transcript(log);
    assert_eq!(r.model.as_deref(), Some("m1"));
    assert_eq!(r.tool_invocations, 2);
    assert_eq!(r.category, Category::Other);
    assert_eq!(
        r.reasoning,
        "模型正常发出 2 个工具调用（finish_reason=tool_calls），代理应继续下一轮；若 Codex 未执行则为 Codex 层问题。已观察返回结果 0 个"
    );
}

#[test]
fn diagnostics_other_finish_reason_is_quoted() {
    let log = "data: {\"choices\":[{\"delta\":{\"content\":\"x\"},\"finish_reason\":\"length\"}]}";
    let r = analyze_transcript(log);
    assert_eq!(r.reasoning, "finish_reason=length，需人工结合工具执行链路判断");
    assert_eq!(r.category, Category::Other);
}

#[test]
fn diagnostics_tool_result_error_preview() {
    let log = r#"[{"role":"tool","tool_call_id":"x","content":"ERROR: denied"}]"#;
    let r = analyze_transcript(log);
    assert_eq!(r.tool_results_observed, 1);
    assert_eq!(r.num_events, 1);
}

#[test]
fn diagnostics_capture_guide_mentions_diagnose() {
    assert!(how_to_capture_logs().contains("diagnose upstream.log proxy.log"));
}

#[test]
fn events_given_as_parsed_values() {
    let parse = |t: &str| antigravity_hub::json::parse(t).unwrap();
    let values = vec![
        parse(r#"{"choices":[{"delta":{"role":"assistant","tool_calls":[{"index":0,"id":"call_9","type":"function","function":{"name":"shell","arguments":""}}]}}]}"#),
        parse(r#"{"choices":[{"delta":{"tool_calls":[{"index":0,"function":{"arguments":"{\"cmd\":"}}]}}]}"#),
    ];
    let r = antigravity_hub::diagnostics::analyze_events(&values, false);
    assert_eq!(r.category, Category::A);
    assert_eq!(r.num_events, 2);
    assert_eq!(r.tool_invocations, 1);
    assert_eq!(r.last_delta_type, LastDeltaType::ToolCalls);
    assert!(!r.ended_cleanly);
    let done = antigravity_hub::diagnostics::analyze_events(&values, true);
    assert!(done.ended_cleanly);
}
