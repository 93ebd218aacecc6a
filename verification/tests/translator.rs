use antigravity_hub::codex_translator::{
    extract_json_object, extract_reasoning_content, find_thinking_delimiter, is_thinking_marker, parse_sse_line,
    repair_truncated_json, sanitize_output_text, sanitize_tool_arguments, split_thinking_content, try_parse_sse_fragments,
};
use antigravity_hub::json::{self, Json};

fn member_u64(j: &Json, key: &str) -> Option<u64> {
    json::as_u64(json::get_member(j, key))
}

#[test]
fn sanitize_passes_through_valid_json() {
    assert_eq!(sanitize_tool_arguments("{\"path\": \"/tmp/x\"}"), "{\"path\": \"/tmp/x\"}");
    assert_eq!(sanitize_tool_arguments("  {\"a\": 1}  "), "{\"a\": 1}");
}

#[test]
fn sanitize_handles_empty_and_whitespace() {
    assert_eq!(sanitize_tool_arguments(""), "{}");
    assert_eq!(sanitize_tool_arguments("   "), "{}");
    assert_eq!(sanitize_tool_arguments("\n\t"), "{}");
}

#[test]
fn sanitize_extracts_json_from_prose() {
    assert_eq!(
        sanitize_tool_arguments("The file is at {\"path\": \"/tmp/x\"} please check"),
        "{\"path\": \"/tmp/x\"}"
    );
}

#[test]
fn sanitize_extracts_json_from_code_fence() {
    assert_eq!(sanitize_tool_arguments("```json\n{\"path\": \"/tmp/x\"}\n```"), "{\"path\": \"/tmp/x\"}");
}

#[test]
fn sanitize_repairs_truncated_json() {
    assert_eq!(sanitize_tool_arguments("{\"path\": \"/tmp/x\""), "{\"path\": \"/tmp/x\"}");
}

#[test]
fn sanitize_falls_back_to_empty_object() {
    assert_eq!(sanitize_tool_arguments("not json at all"), "{}");
    assert_eq!(sanitize_tool_arguments("hello world"), "{}");
}

#[test]
fn extract_json_object_handles_braces_in_strings() {
    let s = "{\"a\": \"}\", \"b\": 2}";
    assert_eq!(extract_json_object(s).as_deref(), Some(s));
}

#[test]
fn repair_truncated_json_handles_nested_braces() {
    assert_eq!(repair_truncated_json("{\"a\": {\"b\": 1").as_deref(), Some("{\"a\": {\"b\": 1}}"));
}

#[test]
fn sse_fragment_reassembles_mid_token_wrap() {
    let frags = vec!["{\"a\": 1, \"b\"".to_string(), ": 2}".to_string()];
    let v = try_parse_sse_fragments(&frags).expect("fragments should reassemble");
    assert_eq!(member_u64(&v, "a"), Some(1));
    assert_eq!(member_u64(&v, "b"), Some(2));
}

#[test]
fn sse_fragment_reassembles_pretty_printed_error_body() {
    let frags = vec!["{\"error\": {".to_string(), "  \"message\": \"boom\"".to_string(), "}}".to_string()];
    let v = try_parse_sse_fragments(&frags).expect("fragments should reassemble");
    let msg = json::as_str(json::get_in(json::get_member(&v, "error"), "message"));
    assert_eq!(msg.map(|s| s.as_str()), Some("boom"));
}

#[test]
fn sse_fragment_single_complete_document() {
    let frags = vec!["{\"ok\": true}".to_string()];
    let v = try_parse_sse_fragments(&frags).expect("single fragment should parse");
    assert!(matches!(json::get_member(&v, "ok"), Some(Json::Bool(true))));
}

#[test]
fn sse_fragment_garbage_returns_none() {
    let frags = vec!["not json".to_string(), "at all".to_string()];
    assert!(try_parse_sse_fragments(&frags).is_none());
}

#[test]
fn sse_line_uses_complete_doc_when_buffer_empty() {
    let mut pending: Vec<String> = Vec::new();
    let v = parse_sse_line(&mut pending, "{\"ok\": true}").expect("complete doc should parse");
    assert!(matches!(json::get_member(&v, "ok"), Some(Json::Bool(true))));
    assert!(pending.is_empty(), "buffer must stay empty");
}

#[test]
fn sse_line_discards_stale_fragment_for_complete_doc() {
    let mut pending = vec!["{\"a\": 1,".to_string()];
    let v = parse_sse_line(&mut pending, "{\"b\": 2}").expect("complete doc should parse");
    assert_eq!(member_u64(&v, "b"), Some(2));
    assert!(pending.is_empty(), "stale fragment must be cleared");
}

#[test]
fn sse_line_accumulates_then_reassembles() {
    let mut pending: Vec<String> = Vec::new();
    assert!(parse_sse_line(&mut pending, "{\"a\": 1, \"b\"").is_none());
    assert_eq!(pending.len(), 1);
    let v = parse_sse_line(&mut pending, ": 2}").expect("combined doc should parse");
    assert_eq!(member_u64(&v, "a"), Some(1));
    assert_eq!(member_u64(&v, "b"), Some(2));
    assert!(pending.is_empty());
}

#[test]
fn sanitize_output_text_strips_control_tokens() {
    let input = "Hello</s></s> world<|endoftext|>! |im_end| <|eot_id|> <|end|> <end_of_turn> done";
    let out = sanitize_output_text(input);
    assert_eq!(out, "Hello world!     done");
}

#[test]
fn sanitize_output_text_strips_repeated_eos_runs() {
    assert_eq!(sanitize_output_text("</s></s>"), "");
    assert_eq!(sanitize_output_text("</s></s></s>"), "");
    assert_eq!(sanitize_output_text("a</s></s>b"), "ab");
    assert_eq!(sanitize_output_text("</s></s> response"), " response");
}

#[test]
fn sanitize_output_text_returns_borrowed_when_clean() {
    let input = "This is normal text, no control tokens here.";
    let out = sanitize_output_text(input);
    assert_eq!(out, input);
    assert!(matches!(out, std::borrow::Cow::Borrowed(_)));
}

#[test]
fn sanitize_output_text_handles_empty_and_owned() {
    assert_eq!(sanitize_output_text(""), "");
    let out = sanitize_output_text("<|eot_id|>");
    assert!(matches!(out, std::borrow::Cow::Owned(_)));
    assert_eq!(out, "");
    assert_eq!(sanitize_output_text("<|eot_id|><|end|>"), "");
}

#[test]
fn sanitize_output_text_does_not_break_legitimate_content() {
    assert_eq!(sanitize_output_text("<s>opening</s>"), "<s>opening</s>");
    assert_eq!(sanitize_output_text("endoftext is a word"), "endoftext is a word");
    assert_eq!(sanitize_output_text("eos"), "eos");
    assert_eq!(sanitize_output_text("a</s>b"), "a</s>b");
}

#[test]
fn odk_thought_routed_to_reasoning_channel() {
    let input = "<odk>_I need to read the pet files first._</odk>\nThen upgrade the pet.";
    assert!(is_thinking_marker(input), "ODK marker must be detected");
    let (reasoning, remaining) = split_thinking_content(input);
    assert!(reasoning.is_some(), "ODK block must yield reasoning");
    let reason = reasoning.unwrap();
    assert!(reason.contains("read the pet files"), "reasoning should contain ODK content");
    let remain = remaining.expect("there should be text after the ODK block");
    assert_eq!(remain, "Then upgrade the pet.");
}

#[test]
fn odm_delimiter_closes_odk_block() {
    let input = "<odk>_think_</odk>answer";
    let (reasoning, remaining) = split_thinking_content(input);
    assert!(reasoning.is_some());
    assert_eq!(remaining.unwrap(), "answer");
}

#[test]
fn thinking_prefix_block_ends_at_blank_line() {
    let (r, rest) = split_thinking_content(">think planning\n\nAnswer here");
    assert_eq!(r.as_deref(), Some(">think planning"));
    assert_eq!(rest.as_deref(), Some("Answer here"));
    assert_eq!(find_thinking_delimiter(">think planning\n\nAnswer here"), Some((15, 2)));
}

#[test]
fn thinking_without_marker_is_plain_text() {
    let (r, rest) = split_thinking_content("Hello");
    assert!(r.is_none());
    assert_eq!(rest.as_deref(), Some("Hello"));
    assert!(!is_thinking_marker("Hello <think>"));
    assert!(is_thinking_marker("   <THINK>x"));
}

#[test]
fn thinking_unclosed_block_is_all_thinking() {
    let (r, rest) = split_thinking_content("[reasoning] still going");
    assert_eq!(r.as_deref(), Some("[reasoning] still going"));
    assert!(rest.is_none());
}

#[test]
fn reasoning_content_takes_first_non_empty_field() {
    let v = json::parse("{\"reasoning_content\":\"\",\"thinking\":\"deep\",\"thought\":\"later\"}").unwrap();
    assert_eq!(extract_reasoning_content(&v).map(|s| s.as_str()), Some("deep"));
    let w = json::parse("{\"content\":\"x\"}").unwrap();
    assert!(extract_reasoning_content(&w).is_none());
}

#[test]
fn repair_refuses_balanced_or_unfixable_text() {
    assert_eq!(repair_truncated_json("{\"a\": 1}"), None);
    assert_eq!(repair_truncated_json("{\"a\": "), None);
}

#[test]
fn think_block_ends_at_its_closing_tag() {
    assert_eq!(find_thinking_delimiter("<think>abc</think>answer"), Some((10, 8)));
    assert_eq!(find_thinking_delimiter("<thinking>abc</thinking>answer"), Some((13, 11)));
    let (r, rest) = split_thinking_content("<think>a\n\nb</think> done");
    assert_eq!(r.as_deref(), Some("<think>a\n\nb"));
    assert_eq!(rest.as_deref(), Some("done"));
}
