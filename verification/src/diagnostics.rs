//! Stream-termination diagnostics for chat / Responses API transcripts.
//!
//! A transcript (SSE text, a JSON array, one JSON object or NDJSON) is folded
//! event by event into an accumulator; the accumulator is then classified as a
//! suspected truncated tool call (A), a deliberate end of the turn (B) or other.

use vstd::prelude::*;
use crate::i18n::{lowercase, to_lower};
use crate::json::{self, Json, array_of, at, get, get_opt, parse_text, str_of, u64_of};
use crate::sorting::{first_where, keep, lemma_first_where, lemma_first_where_props};
use crate::text::{
    contains_seq, decimal, find, has_prefix, has_suffix, lines, owned, push_decimal, push_str, split_lines, starts_with,
    str_chars, string_from_chars, trim, trim_end, trim_end_ws, trim_ws,
};

verus! {

/// What the last data-carrying delta was.
#[derive(Debug, Clone, Copy, PartialEq, Eq, Structural)]
pub enum LastDeltaType {
    /// Text content only.
    Content,
    /// Tool calls.
    ToolCalls,
    /// The stream ended on a finish reason.
    FinishReason,
    /// No data delta.
    Empty,
    /// Undetermined.
    Unknown,
}

/// The verdict.
#[derive(Debug, Clone, Copy, PartialEq, Eq, Structural)]
pub enum Category {
    /// Suspected truncated tool call.
    A,
    /// The model ended the turn itself.
    B,
    /// Anything else (for example a tool call waiting to run).
    Other,
}

/// Where the fault probably lies.
#[derive(Debug, Clone, Copy, PartialEq, Eq, Structural)]
pub enum SuspectedLayer {
    ThirdPartyApi,
    Proxy,
    Codex,
    Mcp,
    Inconclusive,
}

/// The wire format of an event.
#[derive(Debug, Clone, Copy, PartialEq, Eq, Structural)]
pub enum Format {
    ChatCompletions,
    ResponsesApi,
    Unknown,
}

/// One tool call, accumulated over its fragments.
#[derive(Debug, Clone)]
pub struct ToolCallRecord {
    pub index: usize,
    pub call_id: Option<String>,
    pub name: String,
    pub arguments: String,
    /// A result for the call was seen in the same transcript.
    pub had_result: bool,
}

/// A tool result seen in the transcript.
#[derive(Debug, Clone)]
pub struct ToolResultRecord {
    pub call_id: Option<String>,
    pub name: Option<String>,
    /// The first 200 characters of the output.
    pub output_preview: String,
    /// The output reads like an error.
    pub is_error: bool,
}

/// The diagnosis of one transcript.
#[derive(Debug, Clone)]
pub struct DiagnosticReport {
    /// `chat_completions`, `responses_api` or `unknown`.
    pub source_format: String,
    pub model: Option<String>,
    /// Number of events parsed.
    pub num_events: usize,
    pub tool_calls: Vec<ToolCallRecord>,
    pub tool_results_observed: usize,
    /// Tool calls that have a name.
    pub tool_invocations: usize,
    pub last_delta_type: LastDeltaType,
    pub finish_reason: Option<String>,
    /// A `[DONE]`, a finish reason or `response.completed` was seen.
    pub ended_cleanly: bool,
    pub category: Category,
    pub suspected_layer: SuspectedLayer,
    /// Why, in words.
    pub reasoning: String,
}

/// The diagnosis of an upstream transcript paired with what the proxy emitted.
#[derive(Debug, Clone)]
pub struct PairReport {
    pub upstream: DiagnosticReport,
    pub proxy_emitted: DiagnosticReport,
    pub pinned_layer: SuspectedLayer,
    pub reasoning: String,
}

// ---------------------------------------------------------------------------
// Extracting events from the text
// ---------------------------------------------------------------------------

/// The payload of an SSE `data:` line (one space after the colon dropped).
pub open spec fn sse_payload(line: Seq<char>) -> Option<Seq<char>> {
    let l = trim_end_ws(line);
    if has_prefix(l, "data:"@) {
        let rest = l.skip(5);
        Some(if rest.len() > 0 && rest[0] == ' ' { rest.skip(1) } else { rest })
    } else {
        None
    }
}

/// The JSON values of the `data:` lines, in order (`[DONE]`, empty payloads and
/// invalid JSON skipped).
pub open spec fn sse_values(ls: Seq<Seq<char>>) -> Seq<Json>
    decreases ls.len(),
{
    if ls.len() == 0 {
        Seq::empty()
    } else {
        let prev = sse_values(ls.drop_last());
        match sse_payload(ls.last()) {
            Some(p) => if p.len() == 0 || p == "[DONE]"@ {
                prev
            } else {
                match parse_text(p) {
                    Some(v) => prev.push(v),
                    None => prev,
                }
            },
            None => prev,
        }
    }
}

/// The JSON objects of the lines, in order (blank lines and `:` comments skipped).
pub open spec fn ndjson_values(ls: Seq<Seq<char>>) -> Seq<Json>
    decreases ls.len(),
{
    if ls.len() == 0 {
        Seq::empty()
    } else {
        let prev = ndjson_values(ls.drop_last());
        let l = trim_ws(ls.last());
        if l.len() == 0 || l[0] == ':' {
            prev
        } else {
            match parse_text(l) {
                Some(v) => if v is Object { prev.push(v) } else { prev },
                None => prev,
            }
        }
    }
}

/// The events of a transcript: SSE `data:` lines when there are any; otherwise
/// a JSON array's elements, a single JSON object, or NDJSON objects.
pub open spec fn extracted(text: Seq<char>) -> Seq<Json> {
    let trimmed = trim_ws(text);
    let sse = if contains_seq(text, "data:"@) { sse_values(lines(text)) } else { Seq::empty() };
    if sse.len() > 0 {
        sse
    } else if trimmed == "[DONE]"@ {
        Seq::empty()
    } else {
        match parse_text(trimmed) {
            Some(Json::Array(a)) => a@,
            Some(Json::Object(es)) => seq![Json::Object(es)],
            _ => ndjson_values(lines(trimmed)),
        }
    }
}

fn chars_eq(a: &Vec<char>, b: &str) -> (r: bool)
    ensures
        r == (a@ == b@),
{
    let bv = str_chars(b);
    if a.len() != bv.len() {
        return false;
    }
    let r = starts_with(a, &bv);
    proof {
        if r {
            assert(a@ =~= a@.subrange(0, bv@.len() as int));
        } else {
            if a@ == bv@ {
                assert(a@.subrange(0, bv@.len() as int) =~= bv@);
            }
        }
    }
    r
}

fn sse_payload_exec(line: &Vec<char>) -> (r: Option<Vec<char>>)
    ensures
        match r {
            Some(p) => sse_payload(line@) == Some(p@),
            None => sse_payload(line@) is None,
        },
{
    let l = trim_end(line);
    if !starts_with(&l, &str_chars("data:")) {
        return None;
    }
    proof {
        reveal_strlit("data:");
    }
    let rest = crate::text::slice_chars(&l, 5, l.len());
    if rest.len() > 0 && rest[0] == ' ' {
        let r = crate::text::slice_chars(&rest, 1, rest.len());
        proof {
            assert(rest@ =~= l@.skip(5));
            assert(r@ =~= rest@.skip(1));
        }
        Some(r)
    } else {
        proof {
            assert(rest@ =~= l@.skip(5));
        }
        Some(rest)
    }
}

fn parse_chars(t: &Vec<char>) -> (r: Option<Json>)
    ensures
        r == parse_text(t@),
{
    let s = string_from_chars(t);
    json::parse(s.as_str())
}

fn extract_values(text: &str) -> (r: Vec<Json>)
    ensures
        r@ == extracted(text@),
{
    let tv = str_chars(text);
    let trimmed = trim(&tv);
    let mut values: Vec<Json> = Vec::new();
    let has_data = find(&tv, &str_chars("data:")).is_some();
    if has_data {
        let ls = split_lines(&tv);
        let ghost lv = ls@.map_values(|l: Vec<char>| l@);
        let mut i: usize = 0;
        while i < ls.len()
            invariant
                i <= ls.len(),
                lv == ls@.map_values(|l: Vec<char>| l@),
                values@ == sse_values(lv.take(i as int)),
            decreases ls.len() - i,
        {
            proof {
                assert(lv.take(i + 1).drop_last() =~= lv.take(i as int));
                assert(lv.take(i + 1).last() == ls@[i as int]@);
            }
            match sse_payload_exec(&ls[i]) {
                Some(p) => {
                    if !(p.len() == 0 || chars_eq(&p, "[DONE]")) {
                        match parse_chars(&p) {
                            Some(v) => {
                                values.push(v);
                            },
                            None => {},
                        }
                    }
                },
                None => {},
            }
            i += 1;
        }
        proof {
            assert(lv.take(i as int) =~= lv);
        }
        if values.len() > 0 {
            return values;
        }
    }
    proof {
        if !has_data {
            assert(!contains_seq(text@, "data:"@));
        }
    }
    if chars_eq(&trimmed, "[DONE]") {
        return values;
    }
    match parse_chars(&trimmed) {
        Some(Json::Array(arr)) => {
            return arr;
        },
        Some(Json::Object(es)) => {
            values.push(Json::Object(es));
            return values;
        },
        _ => {},
    }
    let ls = split_lines(&trimmed);
    let ghost lv = ls@.map_values(|l: Vec<char>| l@);
    let mut nd: Vec<Json> = Vec::new();
    let mut i: usize = 0;
    while i < ls.len()
        invariant
            i <= ls.len(),
            lv == ls@.map_values(|l: Vec<char>| l@),
            nd@ == ndjson_values(lv.take(i as int)),
        decreases ls.len() - i,
    {
        proof {
            assert(lv.take(i + 1).drop_last() =~= lv.take(i as int));
            assert(lv.take(i + 1).last() == ls@[i as int]@);
        }
        let l = trim(&ls[i]);
        if !(l.len() == 0 || l[0] == ':') {
            match parse_chars(&l) {
                Some(Json::Object(es)) => {
                    nd.push(Json::Object(es));
                },
                _ => {},
            }
        }
        i += 1;
    }
    proof {
        assert(lv.take(i as int) =~= lv);
    }
    if nd.len() > 0 {
        return nd;
    }
    values
}

// ---------------------------------------------------------------------------
// Accumulating events
// ---------------------------------------------------------------------------

/// A tool call as plain values.
pub struct CallView {
    pub index: int,
    pub call_id: Option<Seq<char>>,
    pub name: Seq<char>,
    pub arguments: Seq<char>,
    pub had_result: bool,
}

/// A tool result as plain values.
pub struct ResultView {
    pub call_id: Option<Seq<char>>,
    pub name: Option<Seq<char>>,
    pub output_preview: Seq<char>,
    pub is_error: bool,
}

/// What has been learnt from the events so far.
pub struct AccView {
    pub model: Option<Seq<char>>,
    pub format: Format,
    pub last_delta_type: LastDeltaType,
    pub finish_reason: Option<Seq<char>>,
    pub responses_completed: bool,
    pub num_events: nat,
    pub tool_calls: Seq<CallView>,
    pub tool_results: Seq<ResultView>,
    pub content_intent_hit: bool,
}

/// Nothing learnt yet.
pub open spec fn acc_init() -> AccView {
    AccView {
        model: None,
        format: Format::Unknown,
        last_delta_type: LastDeltaType::Empty,
        finish_reason: None,
        responses_completed: false,
        num_events: 0,
        tool_calls: Seq::empty(),
        tool_results: Seq::empty(),
        content_intent_hit: false,
    }
}

/// The characters of an optional string.
pub open spec fn chars_of(o: Option<String>) -> Option<Seq<char>> {
    match o {
        Some(s) => Some(s@),
        None => None,
    }
}

/// The text, or empty.
pub open spec fn or_empty(o: Option<Seq<char>>) -> Seq<char> {
    match o {
        Some(s) => s,
        None => Seq::empty(),
    }
}

/// The first 200 characters.
pub open spec fn preview(s: Seq<char>) -> Seq<char> {
    if s.len() <= 200 { s } else { s.take(200) }
}

/// Whether an output reads like an error.
pub open spec fn error_like(s: Seq<char>) -> bool {
    contains_seq(lowercase(s), "error"@) || contains_seq(s, "错误"@)
}

/// Whether text announces a tool call.
pub open spec fn has_intent(s: Seq<char>) -> bool {
    ||| contains_seq(s, "我来"@)
    ||| contains_seq(s, "调用"@)
    ||| contains_seq(s, "工具"@)
    ||| contains_seq(s, "让我"@)
    ||| contains_seq(s, "执行命令"@)
    ||| contains_seq(s, "运行命令"@)
    ||| contains_seq(s, "查一下"@)
    ||| contains_seq(s, "尝试获取"@)
}

/// A tool result record.
pub open spec fn result_view(call_id: Option<Seq<char>>, name: Option<Seq<char>>, out: Seq<char>) -> ResultView {
    ResultView { call_id, name, output_preview: preview(out), is_error: error_like(out) }
}

/// The format an event is in.
pub open spec fn detect(v: Json) -> Format {
    if get(v, "choices"@) is Some {
        Format::ChatCompletions
    } else if get(v, "type"@) is Some || get(v, "response"@) is Some || get(v, "output"@) is Some {
        Format::ResponsesApi
    } else {
        Format::Unknown
    }
}

/// An empty record created for index `index` (every filler gets that index).
pub open spec fn placeholder(index: int) -> CallView {
    CallView { index, call_id: None, name: Seq::empty(), arguments: Seq::empty(), had_result: false }
}

/// The calls, grown with empty records so that `index` exists.
pub open spec fn grown(calls: Seq<CallView>, index: int) -> Seq<CallView> {
    if index < calls.len() {
        calls
    } else {
        calls + Seq::new((index + 1 - calls.len()) as nat, |k: int| placeholder(index))
    }
}

/// One fragment of a chat tool call applied to the calls. An index of
/// `u64::MAX` is ignored (there is no record it could address).
pub open spec fn tool_fragment(calls: Seq<CallView>, tc: Json) -> Seq<CallView> {
    let idx = match u64_of(get(tc, "index"@)) { Some(n) => n as int, None => 0 };
    if idx >= usize::MAX {
        calls
    } else {
        let g = grown(calls, idx);
        let rec = g[idx];
        let name = str_of(get_opt(get(tc, "function"@), "name"@));
        let args = str_of(get_opt(get(tc, "function"@), "arguments"@));
        let id = str_of(get(tc, "id"@));
        let rec1 = match name { Some(n) => if n.len() > 0 { CallView { name: n, ..rec } } else { rec }, None => rec };
        let rec2 = match args { Some(a) => CallView { arguments: rec1.arguments + a, ..rec1 }, None => rec1 };
        let rec3 = match id { Some(c) => CallView { call_id: Some(c), ..rec2 }, None => rec2 };
        g.update(idx, rec3)
    }
}

/// Fragments applied in order.
pub open spec fn tool_fragments(calls: Seq<CallView>, tcs: Seq<Json>) -> Seq<CallView>
    decreases tcs.len(),
{
    if tcs.len() == 0 {
        calls
    } else {
        tool_fragment(tool_fragments(calls, tcs.drop_last()), tcs.last())
    }
}

/// Whether an event is a tool result message (`role` tool or function).
pub open spec fn is_tool_message(v: Json) -> bool {
    str_of(get(v, "role"@)) == Some("tool"@) || str_of(get(v, "role"@)) == Some("function"@)
}

/// The result record of a tool result message.
pub open spec fn tool_message_result(v: Json) -> ResultView {
    result_view(str_of(get(v, "tool_call_id"@)), str_of(get(v, "name"@)), or_empty(str_of(get(v, "content"@))))
}

/// A chat-completions event applied.
pub open spec fn chat_step(acc: AccView, v: Json) -> AccView {
    if is_tool_message(v) {
        AccView { tool_results: acc.tool_results.push(tool_message_result(v)), ..acc }
    } else {
        let choice = at(get(v, "choices"@), 0);
        match get_opt(choice, "delta"@) {
            None => acc,
            Some(delta) => {
                let a1 = match str_of(get(delta, "content"@)) {
                    Some(c) => if c.len() > 0 {
                        AccView { last_delta_type: LastDeltaType::Content, content_intent_hit: acc.content_intent_hit || has_intent(c), ..acc }
                    } else { acc },
                    None => acc,
                };
                let a2 = match array_of(get(delta, "tool_calls"@)) {
                    Some(tcs) => if tcs.len() > 0 {
                        AccView { last_delta_type: LastDeltaType::ToolCalls, tool_calls: tool_fragments(a1.tool_calls, tcs), ..a1 }
                    } else { a1 },
                    None => a1,
                };
                match str_of(get_opt(choice, "finish_reason"@)) {
                    Some(fr) => if fr.len() > 0 { AccView { finish_reason: Some(fr), ..a2 } } else { a2 },
                    None => a2,
                }
            },
        }
    }
}

/// Whether a call has the given call id.
pub open spec fn has_call_id(cid: Seq<char>) -> spec_fn(CallView) -> bool {
    |c: CallView| c.call_id == Some(cid)
}

/// Whether a call has the given non-empty name.
pub open spec fn named(name: Seq<char>) -> spec_fn(CallView) -> bool {
    |c: CallView| c.name.len() > 0 && c.name == name
}

/// A whole function call merged into the calls: by call id first, then by
/// name; otherwise appended.
pub open spec fn upsert(calls: Seq<CallView>, call_id: Option<Seq<char>>, name: Seq<char>, args: Seq<char>) -> Seq<CallView> {
    let by_id = match call_id { Some(cid) => first_where(calls, has_call_id(cid)), None => None };
    match by_id {
        Some(i) => {
            let r = calls[i];
            let r1 = if name.len() > 0 { CallView { name, ..r } } else { r };
            let r2 = if args.len() > 0 { CallView { arguments: args, ..r1 } } else { r1 };
            calls.update(i, r2)
        },
        None => match first_where(calls, named(name)) {
            Some(i) => {
                let r = calls[i];
                let r1 = if args.len() > 0 { CallView { arguments: args, ..r } } else { r };
                let r2 = if call_id is Some { CallView { call_id, ..r1 } } else { r1 };
                calls.update(i, r2)
            },
            None => calls.push(CallView { index: calls.len() as int, call_id, name, arguments: args, had_result: false }),
        },
    }
}

/// A Responses API output item (`function_call` or `function_call_output`) applied.
pub open spec fn output_item(acc: AccView, item: Json) -> AccView {
    let ty = or_empty(str_of(get(item, "type"@)));
    if ty == "function_call"@ {
        AccView {
            last_delta_type: LastDeltaType::ToolCalls,
            tool_calls: upsert(acc.tool_calls, str_of(get(item, "call_id"@)), or_empty(str_of(get(item, "name"@))),
                or_empty(str_of(get(item, "arguments"@)))),
            ..acc
        }
    } else if ty == "function_call_output"@ {
        AccView {
            tool_results: acc.tool_results.push(result_view(str_of(get(item, "call_id"@)), None, or_empty(str_of(get(item, "output"@))))),
            ..acc
        }
    } else {
        acc
    }
}

/// Output items applied in order.
pub open spec fn output_items(acc: AccView, items: Seq<Json>) -> AccView
    decreases items.len(),
{
    if items.len() == 0 {
        acc
    } else {
        output_item(output_items(acc, items.drop_last()), items.last())
    }
}

/// Argument text appended to the last call, if there is one.
pub open spec fn append_last(calls: Seq<CallView>, a: Seq<char>) -> Seq<CallView> {
    if calls.len() > 0 {
        calls.update(calls.len() - 1, CallView { arguments: calls.last().arguments + a, ..calls.last() })
    } else {
        calls
    }
}

/// A Responses API event applied.
pub open spec fn responses_step(acc: AccView, v: Json) -> AccView {
    let ty = or_empty(str_of(get(v, "type"@)));
    if ty == "response.output_item.added"@ || ty == "response.output_item.done"@ {
        match get(v, "item"@) {
            Some(item) => output_item(acc, item),
            None => acc,
        }
    } else if ty == "response.output_item.delta"@ {
        match get(v, "item"@) {
            Some(item) => if or_empty(str_of(get(item, "type"@))) == "function_call"@ {
                let a1 = AccView { last_delta_type: LastDeltaType::ToolCalls, ..acc };
                match str_of(get(item, "arguments"@)) {
                    Some(a) => AccView { tool_calls: append_last(a1.tool_calls, a), ..a1 },
                    None => a1,
                }
            } else { acc },
            None => acc,
        }
    } else if ty == "response.function_call_arguments.delta"@ {
        let a1 = AccView { last_delta_type: LastDeltaType::ToolCalls, ..acc };
        match str_of(get(v, "delta"@)) {
            Some(d) => AccView { tool_calls: append_last(a1.tool_calls, d), ..a1 },
            None => a1,
        }
    } else if ty == "response.completed"@ {
        let a1 = AccView { responses_completed: true, ..acc };
        match array_of(get_opt(get(v, "response"@), "output"@)) {
            Some(items) => output_items(a1, items),
            None => a1,
        }
    } else {
        acc
    }
}

/// The first call without a result marked as having one.
pub open spec fn mark_first_open(calls: Seq<CallView>) -> Seq<CallView> {
    match first_where(calls, |c: CallView| !c.had_result) {
        Some(i) => calls.update(i, CallView { had_result: true, ..calls[i] }),
        None => calls,
    }
}

/// An event of unknown format applied (a tool result message).
pub open spec fn message_step(acc: AccView, v: Json) -> AccView {
    if is_tool_message(v) {
        let a1 = AccView { tool_results: acc.tool_results.push(tool_message_result(v)), ..acc };
        if str_of(get(v, "tool_call_id"@)) is Some {
            AccView { tool_calls: mark_first_open(a1.tool_calls), ..a1 }
        } else {
            a1
        }
    } else {
        acc
    }
}

/// One event applied.
pub open spec fn event_step(acc: AccView, v: Json) -> AccView {
    let a1 = AccView {
        num_events: acc.num_events + 1,
        model: if acc.model is None { str_of(get(v, "model"@)) } else { acc.model },
        format: if detect(v) != Format::Unknown { detect(v) } else { acc.format },
        ..acc
    };
    match detect(v) {
        Format::ChatCompletions => chat_step(a1, v),
        Format::ResponsesApi => responses_step(a1, v),
        Format::Unknown => message_step(a1, v),
    }
}

/// Events applied in order.
pub open spec fn events(acc: AccView, vs: Seq<Json>) -> AccView
    decreases vs.len(),
{
    if vs.len() == 0 {
        acc
    } else {
        event_step(events(acc, vs.drop_last()), vs.last())
    }
}

impl View for ToolCallRecord {
    type V = CallView;

    open spec fn view(&self) -> CallView {
        CallView {
            index: self.index as int,
            call_id: chars_of(self.call_id),
            name: self.name@,
            arguments: self.arguments@,
            had_result: self.had_result,
        }
    }
}

impl View for ToolResultRecord {
    type V = ResultView;

    open spec fn view(&self) -> ResultView {
        ResultView {
            call_id: chars_of(self.call_id),
            name: chars_of(self.name),
            output_preview: self.output_preview@,
            is_error: self.is_error,
        }
    }
}

/// The views of the tool calls.
pub open spec fn calls_view(v: Seq<ToolCallRecord>) -> Seq<CallView> {
    v.map_values(|c: ToolCallRecord| c@)
}

/// The views of the tool results.
pub open spec fn results_view(v: Seq<ToolResultRecord>) -> Seq<ResultView> {
    v.map_values(|r: ToolResultRecord| r@)
}

struct Accumulator {
    model: Option<String>,
    format: Format,
    last_delta_type: LastDeltaType,
    finish_reason: Option<String>,
    responses_completed: bool,
    num_events: usize,
    tool_calls: Vec<ToolCallRecord>,
    tool_results: Vec<ToolResultRecord>,
    content_intent_hit: bool,
}

impl View for Accumulator {
    type V = AccView;

    closed spec fn view(&self) -> AccView {
        AccView {
            model: chars_of(self.model),
            format: self.format,
            last_delta_type: self.last_delta_type,
            finish_reason: chars_of(self.finish_reason),
            responses_completed: self.responses_completed,
            num_events: self.num_events as nat,
            tool_calls: calls_view(self.tool_calls@),
            tool_results: results_view(self.tool_results@),
            content_intent_hit: self.content_intent_hit,
        }
    }
}

fn opt_string(o: Option<&String>) -> (r: Option<String>)
    ensures
        chars_of(r) == match o { Some(s) => Some(s@), None => None::<Seq<char>> },
{
    match o {
        Some(s) => Some(s.clone()),
        None => None,
    }
}

fn str_field(v: Option<&Json>, key: &str) -> (r: Option<String>)
    ensures
        chars_of(r) == str_of(get_opt(json::opt_val(v), key@)),
{
    opt_string(json::as_str(json::get_in(v, key)))
}

fn string_or_empty(o: Option<String>) -> (r: String)
    ensures
        r@ == or_empty(chars_of(o)),
{
    match o {
        Some(s) => s,
        None => String::new(),
    }
}

fn contains_str(s: &Vec<char>, p: &str) -> (r: bool)
    ensures
        r == contains_seq(s@, p@),
{
    let pv = str_chars(p);
    match find(s, &pv) {
        Some(i) => {
            proof {
                assert(crate::text::occurs_at(s@, pv@, i as int));
            }
            true
        },
        None => false,
    }
}

fn result_record(call_id: Option<String>, name: Option<String>, out: &String) -> (r: ToolResultRecord)
    ensures
        r@ == result_view(chars_of(call_id), chars_of(name), out@),
{
    let cs = str_chars(out.as_str());
    let n: usize = if cs.len() <= 200 { cs.len() } else { 200 };
    let pv = crate::text::slice_chars(&cs, 0, n);
    proof {
        if cs@.len() <= 200 {
            assert(pv@ =~= cs@);
        } else {
            assert(pv@ =~= cs@.take(200));
        }
    }
    let lower = to_lower(out.as_str());
    let is_error = contains_str(&str_chars(lower.as_str()), "error") || contains_str(&cs, "错误");
    ToolResultRecord { call_id, name, output_preview: string_from_chars(&pv), is_error }
}

fn intent(s: &String) -> (r: bool)
    ensures
        r == has_intent(s@),
{
    let cs = str_chars(s.as_str());
    contains_str(&cs, "我来") || contains_str(&cs, "调用") || contains_str(&cs, "工具") || contains_str(&cs, "让我")
        || contains_str(&cs, "执行命令") || contains_str(&cs, "运行命令") || contains_str(&cs, "查一下")
        || contains_str(&cs, "尝试获取")
}

fn detect_format(v: &Json) -> (r: Format)
    ensures
        r == detect(*v),
{
    if json::get_member(v, "choices").is_some() {
        Format::ChatCompletions
    } else if json::get_member(v, "type").is_some() || json::get_member(v, "response").is_some()
        || json::get_member(v, "output").is_some() {
        Format::ResponsesApi
    } else {
        Format::Unknown
    }
}

fn dup_call(c: &ToolCallRecord) -> (r: ToolCallRecord)
    ensures
        r@ == c@,
{
    ToolCallRecord {
        index: c.index,
        call_id: crate::text::copy_opt_string(&c.call_id),
        name: c.name.clone(),
        arguments: c.arguments.clone(),
        had_result: c.had_result,
    }
}

fn concat(a: &String, b: &String) -> (r: String)
    ensures
        r@ == a@ + b@,
{
    let mut v = str_chars(a.as_str());
    push_str(&mut v, b.as_str());
    string_from_chars(&v)
}

proof fn lemma_calls_view_update(v: Seq<ToolCallRecord>, i: int, c: ToolCallRecord)
    requires
        0 <= i < v.len(),
    ensures
        calls_view(v.update(i, c)) == calls_view(v).update(i, c@),
{
    assert(calls_view(v.update(i, c)) =~= calls_view(v).update(i, c@));
}

proof fn lemma_calls_view_push(v: Seq<ToolCallRecord>, c: ToolCallRecord)
    ensures
        calls_view(v.push(c)) == calls_view(v).push(c@),
{
    assert(calls_view(v.push(c)) =~= calls_view(v).push(c@));
}

proof fn lemma_results_view_push(v: Seq<ToolResultRecord>, c: ToolResultRecord)
    ensures
        results_view(v.push(c)) == results_view(v).push(c@),
{
    assert(results_view(v.push(c)) =~= results_view(v).push(c@));
}

fn apply_tool_fragment(calls: &mut Vec<ToolCallRecord>, tc: &Json)
    ensures
        calls_view(final(calls)@) == tool_fragment(calls_view(old(calls)@), *tc),
{
    let idx64: u64 = match json::as_u64(json::get_member(tc, "index")) {
        Some(n) => n,
        None => 0,
    };
    if idx64 as u128 >= usize::MAX as u128 {
        return;
    }
    let idx: usize = idx64 as usize;
    let ghost g = grown(calls_view(calls@), idx as int);
    while calls.len() <= idx
        invariant
            idx < usize::MAX,
            calls_view(old(calls)@).len() <= idx ==> calls_view(calls@) == calls_view(old(calls)@) + Seq::new(
                (calls@.len() - old(calls)@.len()) as nat, |k: int| placeholder(idx as int)),
            calls_view(old(calls)@).len() > idx ==> calls@ == old(calls)@,
            calls@.len() >= old(calls)@.len(),
            calls@.len() <= idx + 1 || calls@ == old(calls)@,
            g == grown(calls_view(old(calls)@), idx as int),
        decreases idx + 1 - calls.len(),
    {
        let ghost before = calls@;
        calls.push(ToolCallRecord { index: idx, call_id: None, name: String::new(), arguments: String::new(), had_result: false });
        proof {
            lemma_calls_view_push(before, calls@.last());
            assert(calls_view(calls@) =~= calls_view(old(calls)@) + Seq::new(
                (calls@.len() - old(calls)@.len()) as nat, |k: int| placeholder(idx as int)));
        }
    }
    proof {
        assert(calls_view(calls@) =~= g);
    }
    let mut rec = dup_call(&calls[idx]);
    let func = json::get_member(tc, "function");
    match json::as_str(json::get_in(func, "name")) {
        Some(n) => {
            if !n.as_str().is_empty() {
                rec.name = n.clone();
            }
        },
        None => {},
    }
    match json::as_str(json::get_in(func, "arguments")) {
        Some(a) => {
            rec.arguments = concat(&rec.arguments, a);
        },
        None => {},
    }
    match json::as_str(json::get_member(tc, "id")) {
        Some(c) => {
            rec.call_id = Some(c.clone());
        },
        None => {},
    }
    let ghost before = calls@;
    calls.set(idx, rec);
    proof {
        lemma_calls_view_update(before, idx as int, rec);
    }
}

fn is_tool_message_exec(v: &Json) -> (r: bool)
    ensures
        r == is_tool_message(*v),
{
    match json::as_str(json::get_member(v, "role")) {
        Some(role) => {
            let rc = str_chars(role.as_str());
            chars_eq(&rc, "tool") || chars_eq(&rc, "function")
        },
        None => false,
    }
}

fn tool_message_record(v: &Json) -> (r: ToolResultRecord)
    ensures
        r@ == tool_message_result(*v),
{
    let call_id = str_field(Some(v), "tool_call_id");
    let name = str_field(Some(v), "name");
    let out = string_or_empty(str_field(Some(v), "content"));
    result_record(call_id, name, &out)
}

fn chat_step_exec(acc: &mut Accumulator, v: &Json)
    ensures
        final(acc)@ == chat_step(old(acc)@, *v),
        final(acc).num_events == old(acc).num_events,
{
    if is_tool_message_exec(v) {
        let rec = tool_message_record(v);
        let ghost before = acc.tool_results@;
        acc.tool_results.push(rec);
        proof {
            lemma_results_view_push(before, rec);
        }
        return;
    }
    let choice = json::at_index(json::get_member(v, "choices"), 0);
    let delta = match json::get_in(choice, "delta") {
        Some(d) => d,
        None => return,
    };
    match json::as_str(json::get_member(delta, "content")) {
        Some(c) => {
            if !c.as_str().is_empty() {
                acc.last_delta_type = LastDeltaType::Content;
                if intent(c) {
                    acc.content_intent_hit = true;
                }
            }
        },
        None => {},
    }
    match json::as_array(json::get_member(delta, "tool_calls")) {
        Some(tcs) => {
            if tcs.len() > 0 {
                acc.last_delta_type = LastDeltaType::ToolCalls;
                let ghost start = calls_view(acc.tool_calls@);
                let ghost pre = acc@;
                let ghost pre_n = acc.num_events;
                let mut i: usize = 0;
                while i < tcs.len()
                    invariant
                        i <= tcs.len(),
                        calls_view(acc.tool_calls@) == tool_fragments(start, tcs@.take(i as int)),
                        acc@ == (AccView { tool_calls: calls_view(acc.tool_calls@), ..pre }),
                        acc.num_events == pre_n,
                    decreases tcs.len() - i,
                {
                    proof {
                        assert(tcs@.take(i + 1).drop_last() =~= tcs@.take(i as int));
                        assert(tcs@.take(i + 1).last() == tcs@[i as int]);
                    }
                    apply_tool_fragment(&mut acc.tool_calls, &tcs[i]);
                    i += 1;
                }
                proof {
                    assert(tcs@.take(i as int) =~= tcs@);
                }
            }
        },
        None => {},
    }
    match json::as_str(json::get_in(choice, "finish_reason")) {
        Some(fr) => {
            if !fr.as_str().is_empty() {
                acc.finish_reason = Some(fr.clone());
            }
        },
        None => {},
    }
}

fn find_by_call_id(calls: &Vec<ToolCallRecord>, cid: &String) -> (r: Option<usize>)
    ensures
        match r {
            Some(i) => first_where(calls_view(calls@), has_call_id(cid@)) == Some(i as int),
            None => first_where(calls_view(calls@), has_call_id(cid@)) is None,
        },
{
    let ghost cv = calls_view(calls@);
    let ghost f = has_call_id(cid@);
    let mut i: usize = 0;
    while i < calls.len()
        invariant
            i <= calls.len(),
            cv == calls_view(calls@),
            f == has_call_id(cid@),
            first_where(cv.take(i as int), f) is None,
        decreases calls.len() - i,
    {
        proof {
            lemma_first_where(cv, f, i as int);
        }
        let m = match &calls[i].call_id {
            Some(c) => *c == *cid,
            None => false,
        };
        if m {
            proof {
                lemma_first_where(cv, f, i + 1);
            }
            return Some(i);
        }
        i += 1;
    }
    proof {
        lemma_first_where(cv, f, i as int);
    }
    None
}

fn find_by_name(calls: &Vec<ToolCallRecord>, name: &String) -> (r: Option<usize>)
    ensures
        match r {
            Some(i) => first_where(calls_view(calls@), named(name@)) == Some(i as int),
            None => first_where(calls_view(calls@), named(name@)) is None,
        },
{
    let ghost cv = calls_view(calls@);
    let ghost f = named(name@);
    let mut i: usize = 0;
    while i < calls.len()
        invariant
            i <= calls.len(),
            cv == calls_view(calls@),
            f == named(name@),
            first_where(cv.take(i as int), f) is None,
        decreases calls.len() - i,
    {
        proof {
            lemma_first_where(cv, f, i as int);
        }
        if !calls[i].name.as_str().is_empty() && calls[i].name == *name {
            proof {
                lemma_first_where(cv, f, i + 1);
            }
            return Some(i);
        }
        i += 1;
    }
    proof {
        lemma_first_where(cv, f, i as int);
    }
    None
}

fn upsert_exec(calls: &mut Vec<ToolCallRecord>, call_id: Option<String>, name: String, args: String)
    ensures
        calls_view(final(calls)@) == upsert(calls_view(old(calls)@), chars_of(call_id), name@, args@),
{
    let by_id = match &call_id {
        Some(cid) => find_by_call_id(calls, cid),
        None => None,
    };
    proof {
        lemma_first_where_props(calls_view(calls@), has_call_id(or_empty(chars_of(call_id))));
        lemma_first_where_props(calls_view(calls@), named(name@));
    }
    match by_id {
        Some(i) => {
            let mut rec = dup_call(&calls[i]);
            if !name.as_str().is_empty() {
                rec.name = name;
            }
            if !args.as_str().is_empty() {
                rec.arguments = args;
            }
            let ghost before = calls@;
            calls.set(i, rec);
            proof {
                lemma_calls_view_update(before, i as int, rec);
            }
        },
        None => {
            match find_by_name(calls, &name) {
                Some(i) => {
                    let mut rec = dup_call(&calls[i]);
                    if !args.as_str().is_empty() {
                        rec.arguments = args;
                    }
                    if call_id.is_some() {
                        rec.call_id = call_id;
                    }
                    let ghost before = calls@;
                    calls.set(i, rec);
                    proof {
                        lemma_calls_view_update(before, i as int, rec);
                    }
                },
                None => {
                    let rec = ToolCallRecord { index: calls.len(), call_id, name, arguments: args, had_result: false };
                    let ghost before = calls@;
                    calls.push(rec);
                    proof {
                        lemma_calls_view_push(before, rec);
                    }
                },
            }
        },
    }
}

fn output_item_exec(acc: &mut Accumulator, item: &Json)
    ensures
        final(acc)@ == output_item(old(acc)@, *item),
        final(acc).num_events == old(acc).num_events,
{
    let ty = string_or_empty(str_field(Some(item), "type"));
    let tc = str_chars(ty.as_str());
    if chars_eq(&tc, "function_call") {
        acc.last_delta_type = LastDeltaType::ToolCalls;
        let call_id = str_field(Some(item), "call_id");
        let name = string_or_empty(str_field(Some(item), "name"));
        let args = string_or_empty(str_field(Some(item), "arguments"));
        upsert_exec(&mut acc.tool_calls, call_id, name, args);
    } else if chars_eq(&tc, "function_call_output") {
        let out = string_or_empty(str_field(Some(item), "output"));
        let call_id = str_field(Some(item), "call_id");
        let rec = result_record(call_id, None, &out);
        let ghost before = acc.tool_results@;
        acc.tool_results.push(rec);
        proof {
            lemma_results_view_push(before, rec);
        }
    }
}

fn append_last_exec(calls: &mut Vec<ToolCallRecord>, a: &String)
    ensures
        calls_view(final(calls)@) == append_last(calls_view(old(calls)@), a@),
{
    if calls.len() > 0 {
        let k = calls.len() - 1;
        let mut rec = dup_call(&calls[k]);
        rec.arguments = concat(&rec.arguments, a);
        let ghost before = calls@;
        calls.set(k, rec);
        proof {
            lemma_calls_view_update(before, k as int, rec);
        }
    }
}

fn responses_step_exec(acc: &mut Accumulator, v: &Json)
    ensures
        final(acc)@ == responses_step(old(acc)@, *v),
        final(acc).num_events == old(acc).num_events,
{
    let ty = string_or_empty(str_field(Some(v), "type"));
    let t = str_chars(ty.as_str());
    if chars_eq(&t, "response.output_item.added") || chars_eq(&t, "response.output_item.done") {
        match json::get_member(v, "item") {
            Some(item) => output_item_exec(acc, item),
            None => {},
        }
    } else if chars_eq(&t, "response.output_item.delta") {
        match json::get_member(v, "item") {
            Some(item) => {
                let it = string_or_empty(str_field(Some(item), "type"));
                if chars_eq(&str_chars(it.as_str()), "function_call") {
                    acc.last_delta_type = LastDeltaType::ToolCalls;
                    match json::as_str(json::get_member(item, "arguments")) {
                        Some(a) => append_last_exec(&mut acc.tool_calls, a),
                        None => {},
                    }
                }
            },
            None => {},
        }
    } else if chars_eq(&t, "response.function_call_arguments.delta") {
        acc.last_delta_type = LastDeltaType::ToolCalls;
        match json::as_str(json::get_member(v, "delta")) {
            Some(d) => append_last_exec(&mut acc.tool_calls, d),
            None => {},
        }
    } else if chars_eq(&t, "response.completed") {
        acc.responses_completed = true;
        match json::as_array(json::get_in(json::get_member(v, "response"), "output")) {
            Some(items) => {
                let ghost start = acc@;
                let mut i: usize = 0;
                while i < items.len()
                    invariant
                        i <= items.len(),
                        acc@ == output_items(start, items@.take(i as int)),
                        acc.num_events == old(acc).num_events,
                    decreases items.len() - i,
                {
                    proof {
                        assert(items@.take(i + 1).drop_last() =~= items@.take(i as int));
                        assert(items@.take(i + 1).last() == items@[i as int]);
                    }
                    output_item_exec(acc, &items[i]);
                    i += 1;
                }
                proof {
                    assert(items@.take(i as int) =~= items@);
                }
            },
            None => {},
        }
    }
}

fn message_step_exec(acc: &mut Accumulator, v: &Json)
    ensures
        final(acc)@ == message_step(old(acc)@, *v),
        final(acc).num_events == old(acc).num_events,
{
    if !is_tool_message_exec(v) {
        return;
    }
    let rec = tool_message_record(v);
    let ghost before = acc.tool_results@;
    acc.tool_results.push(rec);
    proof {
        lemma_results_view_push(before, rec);
    }
    if json::get_member(v, "tool_call_id").is_some() && json::as_str(json::get_member(v, "tool_call_id")).is_some() {
        let ghost cv = calls_view(acc.tool_calls@);
        let ghost pre = acc@;
        let ghost pre_n = acc.num_events;
        let ghost f = |c: CallView| !c.had_result;
        let mut i: usize = 0;
        while i < acc.tool_calls.len()
            invariant
                i <= acc.tool_calls.len(),
                cv == calls_view(acc.tool_calls@),
                acc@ == pre,
                acc.num_events == pre_n,
                pre_n == old(acc).num_events,
                message_step(old(acc)@, *v) == (AccView { tool_calls: mark_first_open(cv), ..pre }),
                f == (|c: CallView| !c.had_result),
                first_where(cv.take(i as int), f) is None,
            decreases acc.tool_calls.len() - i,
        {
            proof {
                lemma_first_where(cv, f, i as int);
            }
            if !acc.tool_calls[i].had_result {
                proof {
                    lemma_first_where(cv, f, i + 1);
                }
                let mut r = dup_call(&acc.tool_calls[i]);
                r.had_result = true;
                let ghost b = acc.tool_calls@;
                acc.tool_calls.set(i, r);
                proof {
                    lemma_calls_view_update(b, i as int, r);
                }
                return;
            }
            i += 1;
        }
        proof {
            lemma_first_where(cv, f, i as int);
        }
    }
}

fn event_step_exec(acc: &mut Accumulator, v: &Json)
    requires
        old(acc).num_events < usize::MAX,
    ensures
        final(acc)@ == event_step(old(acc)@, *v),
        final(acc).num_events == old(acc).num_events + 1,
{
    acc.num_events += 1;
    if acc.model.is_none() {
        acc.model = str_field(Some(v), "model");
    }
    let fmt = detect_format(v);
    if fmt != Format::Unknown {
        acc.format = fmt;
    }
    match fmt {
        Format::ChatCompletions => chat_step_exec(acc, v),
        Format::ResponsesApi => responses_step_exec(acc, v),
        Format::Unknown => message_step_exec(acc, v),
    }
}

// ---------------------------------------------------------------------------
// Verdict
// ---------------------------------------------------------------------------

/// Whether a result carries the call's id.
pub open spec fn has_result_for(c: CallView, results: Seq<ResultView>) -> bool {
    c.call_id is Some && exists|j: int| 0 <= j < results.len() && (#[trigger] results[j]).call_id == c.call_id
}

/// The calls after matching results to them: by call id; and when calls are
/// still unmatched but there are at least as many results as calls, all of them.
pub open spec fn reconciled_calls(calls: Seq<CallView>, results: Seq<ResultView>) -> Seq<CallView> {
    let c1 = Seq::new(calls.len(), |i: int| CallView { had_result: calls[i].had_result || has_result_for(calls[i], results), ..calls[i] });
    if (exists|i: int| 0 <= i < c1.len() && !(#[trigger] c1[i]).had_result) && results.len() > 0 && results.len() >= c1.len() {
        Seq::new(c1.len(), |i: int| CallView { had_result: true, ..c1[i] })
    } else {
        c1
    }
}

/// The accumulator of a transcript, results matched.
pub open spec fn final_acc(raw: Seq<char>) -> AccView {
    acc_of(extracted(raw))
}

/// What the events give, once every call is matched with its results.
pub open spec fn acc_of(values: Seq<Json>) -> AccView {
    let acc = events(acc_init(), values);
    AccView { tool_calls: reconciled_calls(acc.tool_calls, acc.tool_results), ..acc }
}

/// Number of calls with a name.
pub open spec fn count_named(calls: Seq<CallView>) -> nat
    decreases calls.len(),
{
    if calls.len() == 0 {
        0
    } else {
        count_named(calls.drop_last()) + if calls.last().name.len() > 0 { 1nat } else { 0nat }
    }
}

/// Number of calls with a result.
pub open spec fn count_had(calls: Seq<CallView>) -> nat
    decreases calls.len(),
{
    if calls.len() == 0 {
        0
    } else {
        count_had(calls.drop_last()) + if calls.last().had_result { 1nat } else { 0nat }
    }
}

/// Whether some call lost its name, or (without a `tool_calls` finish) has
/// arguments that do not end in `}`.
pub open spec fn any_truncated(acc: AccView) -> bool {
    let expecting = acc.finish_reason == Some("tool_calls"@);
    exists|i: int| 0 <= i < acc.tool_calls.len() && ((#[trigger] acc.tool_calls[i]).name.len() == 0
        || (!expecting && !has_suffix(acc.tool_calls[i].arguments, seq!['}']) && acc.tool_calls[i].arguments.len() > 0))
}

/// Whether a trimmed line marks the end of the stream.
pub open spec fn done_line(t: Seq<char>) -> bool {
    t == "[DONE]"@ || has_suffix(t, "data: [DONE]"@) || has_prefix(t, "data: [DONE]"@)
}

/// Whether some line of the transcript marks the end of the stream.
pub open spec fn done_in(raw: Seq<char>) -> bool {
    exists|i: int| 0 <= i < lines(raw).len() && done_line(trim_ws(#[trigger] lines(raw)[i]))
}

/// The verdict for an accumulator, given whether a `[DONE]` was seen.
pub open spec fn classify(acc: AccView, done: bool) -> (Category, SuspectedLayer, Seq<char>) {
    let invocations = count_named(acc.tool_calls);
    let results = count_had(acc.tool_calls);
    let clean = done || acc.finish_reason is Some || acc.responses_completed;
    if !clean {
        match acc.last_delta_type {
            LastDeltaType::ToolCalls => (Category::A, SuspectedLayer::Inconclusive,
                "流式在上游工具调用分片途中断开（未收到 [DONE]/finish_reason），疑似代理层或传输层中断；若此段为上游原始响应则偏第三方 API / 传输层"@),
            LastDeltaType::Content => (Category::A, SuspectedLayer::Inconclusive,
                "流式在文本输出途中断开（未收到 [DONE]/finish_reason），疑似代理层或传输层中断"@),
            _ => (Category::A, SuspectedLayer::Inconclusive, "流异常结束（无终止信号），疑似被截断"@),
        }
    } else {
        match acc.finish_reason {
            Some(fr) => if fr == "tool_calls"@ {
                if any_truncated(acc) {
                    (Category::A, SuspectedLayer::ThirdPartyApi,
                        "finish_reason=tool_calls 但工具调用参数/名字被截断（不完整），疑似上游未发全"@)
                } else if invocations > 0 && results < invocations {
                    (Category::Other, SuspectedLayer::Inconclusive,
                        "模型正常发出 "@ + decimal(invocations) + " 个工具调用（finish_reason=tool_calls），代理应继续下一轮；若 Codex 未执行则为 Codex 层问题。已观察返回结果 "@
                            + decimal(results) + " 个"@)
                } else {
                    (Category::Other, SuspectedLayer::Inconclusive, "模型正常发出工具调用，等待执行（非终止，属正常多轮链路）"@)
                }
            } else if fr == "stop"@ || fr == "end_turn"@ || fr.len() == 0 {
                if invocations > 0 && invocations == results {
                    (Category::B, SuspectedLayer::Inconclusive,
                        "最后工具调用均成功执行并返回结果，模型随后输出结论并自然停止（B 类：模型主动结束本轮）"@)
                } else if invocations == 0 {
                    if acc.content_intent_hit {
                        (Category::A, SuspectedLayer::ThirdPartyApi,
                            "纯文本结束但内容含「调用/工具」等意图词且无 tool_calls 字段，疑似上游未发送工具调用（A 类）"@)
                    } else {
                        (Category::B, SuspectedLayer::Inconclusive, "模型以纯文本结论自然结束（B 类：无工具调用）"@)
                    }
                } else {
                    (Category::B, SuspectedLayer::Inconclusive, "模型输出结论并停止（B 类：模型主动结束本轮）"@)
                }
            } else {
                (Category::Other, SuspectedLayer::Inconclusive, "finish_reason="@ + fr + "，需人工结合工具执行链路判断"@)
            },
            None => if acc.last_delta_type == LastDeltaType::ToolCalls && !acc.responses_completed {
                (Category::A, SuspectedLayer::Inconclusive,
                    "流以 [DONE] 结束但最后 delta 为 tool_calls 且无 finish_reason，工具调用疑似被截断"@)
            } else {
                (Category::Other, SuspectedLayer::Inconclusive, "流正常结束（[DONE] / response.completed）但无 finish_reason 字段"@)
            },
        }
    }
}

/// The name of a format.
pub open spec fn format_name(f: Format) -> Seq<char> {
    match f {
        Format::ChatCompletions => "chat_completions"@,
        Format::ResponsesApi => "responses_api"@,
        Format::Unknown => "unknown"@,
    }
}

/// Whether a report is the diagnosis of a transcript.
pub open spec fn report_of(r: DiagnosticReport, raw: Seq<char>) -> bool {
    report_of_events(r, extracted(raw), done_in(raw))
}

/// Whether `r` is the report on these events, `done` telling whether the
/// transcript had a `[DONE]` line.
pub open spec fn report_of_events(r: DiagnosticReport, values: Seq<Json>, done: bool) -> bool {
    let acc = acc_of(values);
    let verdict = classify(acc, done);
    &&& r.source_format@ == format_name(acc.format)
    &&& chars_of(r.model) == acc.model
    &&& r.num_events == acc.num_events
    &&& calls_view(r.tool_calls@) == acc.tool_calls
    &&& r.tool_results_observed == acc.tool_results.len()
    &&& r.tool_invocations == count_named(acc.tool_calls)
    &&& r.last_delta_type == acc.last_delta_type
    &&& chars_of(r.finish_reason) == acc.finish_reason
    &&& r.ended_cleanly == (done || acc.finish_reason is Some || acc.responses_completed)
    &&& r.category == verdict.0
    &&& r.suspected_layer == verdict.1
    &&& r.reasoning@ == verdict.2
}

fn reconcile(acc: &mut Accumulator)
    ensures
        final(acc)@ == (AccView { tool_calls: reconciled_calls(old(acc)@.tool_calls, old(acc)@.tool_results), ..old(acc)@ }),
        final(acc).num_events == old(acc).num_events,
{
    let ghost calls = calls_view(acc.tool_calls@);
    let ghost results = results_view(acc.tool_results@);
    let ghost pre = acc@;
    let ghost pre_n = acc.num_events;
    let ghost c1 = Seq::new(calls.len(), |i: int| CallView { had_result: calls[i].had_result || has_result_for(calls[i], results), ..calls[i] });
    let mut i: usize = 0;
    let mut any_open = false;
    while i < acc.tool_calls.len()
        invariant
            i <= acc.tool_calls.len(),
            calls.len() == acc.tool_calls@.len(),
            results == results_view(acc.tool_results@),
            pre == old(acc)@,
            pre_n == old(acc).num_events,
            acc.num_events == pre_n,
            calls == pre.tool_calls,
            results == pre.tool_results,
            acc@ == (AccView { tool_calls: calls_view(acc.tool_calls@), ..pre }),
            c1 == Seq::new(calls.len(), |k: int| CallView { had_result: calls[k].had_result || has_result_for(calls[k], results), ..calls[k] }),
            forall|k: int| 0 <= k < i ==> #[trigger] calls_view(acc.tool_calls@)[k] == c1[k],
            forall|k: int| i <= k < calls.len() ==> #[trigger] calls_view(acc.tool_calls@)[k] == calls[k],
            any_open == exists|k: int| 0 <= k < i && !(#[trigger] c1[k]).had_result,
        decreases acc.tool_calls.len() - i,
    {
        proof {
            assert(calls_view(acc.tool_calls@)[i as int] == calls[i as int]);
            assert(calls[i as int] == acc.tool_calls@[i as int]@);
        }
        let mut hit = false;
        match &acc.tool_calls[i].call_id {
            Some(cid) => {
                let mut j: usize = 0;
                while j < acc.tool_results.len()
                    invariant
                        j <= acc.tool_results.len(),
                        results == results_view(acc.tool_results@),
                        hit == exists|m: int| 0 <= m < j && (#[trigger] results[m]).call_id == Some(cid@),
                    decreases acc.tool_results.len() - j,
                {
                    let same = match &acc.tool_results[j].call_id {
                        Some(rc) => *rc == *cid,
                        None => false,
                    };
                    if same {
                        hit = true;
                    }
                    proof {
                        assert(results[j as int] == acc.tool_results@[j as int]@);
                    }
                    j += 1;
                }
            },
            None => {},
        }
        proof {
            assert(hit == has_result_for(calls[i as int], results));
        }
        let mut rec = dup_call(&acc.tool_calls[i]);
        rec.had_result = rec.had_result || hit;
        proof {
            assert(rec@ == c1[i as int]);
        }
        if !rec.had_result {
            any_open = true;
        }
        let ghost before = acc.tool_calls@;
        acc.tool_calls.set(i, rec);
        proof {
            lemma_calls_view_update(before, i as int, rec);
        }
        i += 1;
    }
    proof {
        assert(calls_view(acc.tool_calls@) =~= c1);
    }
    if any_open && acc.tool_results.len() > 0 && acc.tool_results.len() >= acc.tool_calls.len() {
        let mut k: usize = 0;
        while k < acc.tool_calls.len()
            invariant
                k <= acc.tool_calls.len(),
                c1.len() == acc.tool_calls@.len(),
                pre == old(acc)@,
                pre_n == old(acc).num_events,
                acc.num_events == pre_n,
                acc@ == (AccView { tool_calls: calls_view(acc.tool_calls@), ..pre }),
                forall|m: int| 0 <= m < k ==> #[trigger] calls_view(acc.tool_calls@)[m] == (CallView { had_result: true, ..c1[m] }),
                forall|m: int| k <= m < c1.len() ==> #[trigger] calls_view(acc.tool_calls@)[m] == c1[m],
            decreases acc.tool_calls.len() - k,
        {
            proof {
                assert(calls_view(acc.tool_calls@)[k as int] == c1[k as int]);
                assert(acc.tool_calls@[k as int]@ == c1[k as int]);
            }
            let mut rec = dup_call(&acc.tool_calls[k]);
            rec.had_result = true;
            let ghost before = acc.tool_calls@;
            acc.tool_calls.set(k, rec);
            proof {
                lemma_calls_view_update(before, k as int, rec);
            }
            k += 1;
        }
        proof {
            assert(calls_view(acc.tool_calls@) =~= Seq::new(c1.len(), |m: int| CallView { had_result: true, ..c1[m] }));
        }
    }
}

fn counts(calls: &Vec<ToolCallRecord>) -> (r: (usize, usize))
    ensures
        r.0 == count_named(calls_view(calls@)),
        r.1 == count_had(calls_view(calls@)),
{
    let ghost cv = calls_view(calls@);
    let mut named_n: usize = 0;
    let mut had_n: usize = 0;
    let mut i: usize = 0;
    while i < calls.len()
        invariant
            i <= calls.len(),
            cv == calls_view(calls@),
            named_n == count_named(cv.take(i as int)),
            had_n == count_had(cv.take(i as int)),
            named_n <= i,
            had_n <= i,
        decreases calls.len() - i,
    {
        proof {
            assert(cv.take(i + 1).drop_last() =~= cv.take(i as int));
            assert(cv.take(i + 1).last() == calls@[i as int]@);
        }
        if !calls[i].name.as_str().is_empty() {
            named_n += 1;
        }
        if calls[i].had_result {
            had_n += 1;
        }
        i += 1;
    }
    proof {
        assert(cv.take(i as int) =~= cv);
    }
    (named_n, had_n)
}

fn truncated(acc: &Accumulator) -> (r: bool)
    ensures
        r == any_truncated(acc@),
{
    let expecting = match &acc.finish_reason {
        Some(f) => chars_eq(&str_chars(f.as_str()), "tool_calls"),
        None => false,
    };
    let close = str_chars("}");
    proof {
        reveal_strlit("}");
        assert(close@ =~= seq!['}']);
    }
    let mut i: usize = 0;
    while i < acc.tool_calls.len()
        invariant
            i <= acc.tool_calls.len(),
            expecting == (acc@.finish_reason == Some("tool_calls"@)),
            close@ == seq!['}'],
            forall|k: int| 0 <= k < i ==> !((#[trigger] acc@.tool_calls[k]).name.len() == 0
                || (!expecting && !has_suffix(acc@.tool_calls[k].arguments, seq!['}']) && acc@.tool_calls[k].arguments.len() > 0)),
        decreases acc.tool_calls.len() - i,
    {
        proof {
            assert(acc@.tool_calls[i as int] == acc.tool_calls@[i as int]@);
        }
        if acc.tool_calls[i].name.as_str().is_empty() {
            return true;
        }
        let args = str_chars(acc.tool_calls[i].arguments.as_str());
        if !expecting && !crate::text::ends_with(&args, &close) && args.len() > 0 {
            return true;
        }
        i += 1;
    }
    false
}

fn is_done_line(t: &Vec<char>) -> (r: bool)
    ensures
        r == done_line(t@),
{
    chars_eq(t, "[DONE]") || crate::text::ends_with(t, &str_chars("data: [DONE]")) || starts_with(t, &str_chars("data: [DONE]"))
}

fn saw_done(raw: &Vec<char>) -> (r: bool)
    ensures
        r == done_in(raw@),
{
    let ls = split_lines(raw);
    let ghost lv = ls@.map_values(|l: Vec<char>| l@);
    let mut i: usize = 0;
    while i < ls.len()
        invariant
            i <= ls.len(),
            lv == ls@.map_values(|l: Vec<char>| l@),
            lv == lines(raw@),
            forall|k: int| 0 <= k < i ==> !done_line(trim_ws(#[trigger] lines(raw@)[k])),
        decreases ls.len() - i,
    {
        let t = trim(&ls[i]);
        proof {
            assert(lv[i as int] == ls@[i as int]@);
        }
        if is_done_line(&t) {
            return true;
        }
        i += 1;
    }
    false
}

fn text_of(s: &str) -> (r: String)
    ensures
        r@ == s@,
{
    owned(s)
}

fn verdict(acc: &Accumulator, done: bool) -> (r: (Category, SuspectedLayer, String))
    ensures
        (r.0, r.1, r.2@) == classify(acc@, done),
{
    let (invocations, results) = counts(&acc.tool_calls);
    let clean = done || acc.finish_reason.is_some() || acc.responses_completed;
    if !clean {
        return match acc.last_delta_type {
            LastDeltaType::ToolCalls => (Category::A, SuspectedLayer::Inconclusive,
                text_of("流式在上游工具调用分片途中断开（未收到 [DONE]/finish_reason），疑似代理层或传输层中断；若此段为上游原始响应则偏第三方 API / 传输层")),
            LastDeltaType::Content => (Category::A, SuspectedLayer::Inconclusive,
                text_of("流式在文本输出途中断开（未收到 [DONE]/finish_reason），疑似代理层或传输层中断")),
            _ => (Category::A, SuspectedLayer::Inconclusive, text_of("流异常结束（无终止信号），疑似被截断")),
        };
    }
    match &acc.finish_reason {
        Some(fr) => {
            let fc = str_chars(fr.as_str());
            if chars_eq(&fc, "tool_calls") {
                if truncated(acc) {
                    (Category::A, SuspectedLayer::ThirdPartyApi,
                        text_of("finish_reason=tool_calls 但工具调用参数/名字被截断（不完整），疑似上游未发全"))
                } else if invocations > 0 && results < invocations {
                    let mut v: Vec<char> = Vec::new();
                    push_str(&mut v, "模型正常发出 ");
                    push_decimal(&mut v, invocations as u64);
                    push_str(&mut v, " 个工具调用（finish_reason=tool_calls），代理应继续下一轮；若 Codex 未执行则为 Codex 层问题。已观察返回结果 ");
                    push_decimal(&mut v, results as u64);
                    push_str(&mut v, " 个");
                    (Category::Other, SuspectedLayer::Inconclusive, string_from_chars(&v))
                } else {
                    (Category::Other, SuspectedLayer::Inconclusive, text_of("模型正常发出工具调用，等待执行（非终止，属正常多轮链路）"))
                }
            } else if chars_eq(&fc, "stop") || chars_eq(&fc, "end_turn") || fc.len() == 0 {
                if invocations > 0 && invocations == results {
                    (Category::B, SuspectedLayer::Inconclusive,
                        text_of("最后工具调用均成功执行并返回结果，模型随后输出结论并自然停止（B 类：模型主动结束本轮）"))
                } else if invocations == 0 {
                    if acc.content_intent_hit {
                        (Category::A, SuspectedLayer::ThirdPartyApi,
                            text_of("纯文本结束但内容含「调用/工具」等意图词且无 tool_calls 字段，疑似上游未发送工具调用（A 类）"))
                    } else {
                        (Category::B, SuspectedLayer::Inconclusive, text_of("模型以纯文本结论自然结束（B 类：无工具调用）"))
                    }
                } else {
                    (Category::B, SuspectedLayer::Inconclusive, text_of("模型输出结论并停止（B 类：模型主动结束本轮）"))
                }
            } else {
                let mut v: Vec<char> = Vec::new();
                push_str(&mut v, "finish_reason=");
                push_str(&mut v, fr.as_str());
                push_str(&mut v, "，需人工结合工具执行链路判断");
                (Category::Other, SuspectedLayer::Inconclusive, string_from_chars(&v))
            }
        },
        None => {
            if acc.last_delta_type == LastDeltaType::ToolCalls && !acc.responses_completed {
                (Category::A, SuspectedLayer::Inconclusive,
                    text_of("流以 [DONE] 结束但最后 delta 为 tool_calls 且无 finish_reason，工具调用疑似被截断"))
            } else {
                (Category::Other, SuspectedLayer::Inconclusive, text_of("流正常结束（[DONE] / response.completed）但无 finish_reason 字段"))
            }
        },
    }
}

fn format_label(f: Format) -> (r: String)
    ensures
        r@ == format_name(f),
{
    match f {
        Format::ChatCompletions => text_of("chat_completions"),
        Format::ResponsesApi => text_of("responses_api"),
        Format::Unknown => text_of("unknown"),
    }
}

/// Diagnoses one transcript.
pub fn analyze_transcript(raw: &str) -> (r: DiagnosticReport)
    ensures
        report_of(r, raw@),
{
    let values = extract_values(raw);
    let rv = str_chars(raw);
    let done = saw_done(&rv);
    analyze_events(&values, done)
}

/// Diagnoses the events of a transcript, as parsed; `done` tells whether the
/// transcript had a `[DONE]` line.
pub fn analyze_events(values: &Vec<Json>, done: bool) -> (r: DiagnosticReport)
    ensures
        report_of_events(r, values@, done),
{
    let mut acc = Accumulator {
        model: None,
        format: Format::Unknown,
        last_delta_type: LastDeltaType::Empty,
        finish_reason: None,
        responses_completed: false,
        num_events: 0,
        tool_calls: Vec::new(),
        tool_results: Vec::new(),
        content_intent_hit: false,
    };
    proof {
        assert(acc@.tool_calls =~= acc_init().tool_calls);
        assert(acc@.tool_results =~= acc_init().tool_results);
    }
    let mut i: usize = 0;
    while i < values.len()
        invariant
            i <= values.len(),
            acc@ == events(acc_init(), values@.take(i as int)),
            acc.num_events == i,
        decreases values.len() - i,
    {
        proof {
            assert(values@.take(i + 1).drop_last() =~= values@.take(i as int));
            assert(values@.take(i + 1).last() == values@[i as int]);
        }
        event_step_exec(&mut acc, &values[i]);
        i += 1;
    }
    proof {
        assert(values@.take(i as int) =~= values@);
    }
    reconcile(&mut acc);
    let (category, suspected_layer, reasoning) = verdict(&acc, done);
    let (invocations, _) = counts(&acc.tool_calls);
    let ended_cleanly = done || acc.finish_reason.is_some() || acc.responses_completed;
    DiagnosticReport {
        source_format: format_label(acc.format),
        model: acc.model,
        num_events: acc.num_events,
        tool_calls: acc.tool_calls,
        tool_results_observed: acc.tool_results.len(),
        tool_invocations: invocations,
        last_delta_type: acc.last_delta_type,
        finish_reason: acc.finish_reason,
        ended_cleanly,
        category,
        suspected_layer,
        reasoning,
    }
}

/// The layer a pair of reports pins, and why.
pub open spec fn pinned(up: DiagnosticReport, px: DiagnosticReport) -> (SuspectedLayer, Seq<char>) {
    if up.category == Category::A && px.category == Category::B {
        (SuspectedLayer::Proxy,
            "上游原始响应为 A 类（被截断），但代理转发给 Codex 的响应却正常 —— 故障在代理层（转发时丢失/重排了工具调用）"@)
    } else if up.category == Category::A && px.category == Category::A {
        (SuspectedLayer::ThirdPartyApi, "上游与代理转发均为 A 类 —— 故障在上游第三方 API（代理忠实透传了截断的响应）"@)
    } else if up.category == Category::B && px.category == Category::B {
        (SuspectedLayer::Inconclusive,
            "上下游均为 B 类（正常结束） —— 若 Codex 仍显示中断，则故障在 Codex 客户端侧（收到但未执行 / UI 未渲染）"@)
    } else if up.tool_invocations > 0 && px.tool_invocations == 0 {
        (SuspectedLayer::Proxy,
            "上游发出了工具调用，但代理转发给 Codex 的响应里 tool_calls 数量为 0 —— 故障在代理层（协议转换丢失工具调用）"@)
    } else {
        (SuspectedLayer::Inconclusive, "上下游对比无法唯一确定故障层，请结合 Codex 侧 debug 日志进一步判断"@)
    }
}

/// Diagnoses an upstream transcript and what the proxy emitted for it, and
/// pins the faulty layer.
pub fn analyze_pair(upstream_raw: &str, proxy_emitted_raw: &str) -> (r: PairReport)
    ensures
        report_of(r.upstream, upstream_raw@),
        report_of(r.proxy_emitted, proxy_emitted_raw@),
        (r.pinned_layer, r.reasoning@) == pinned(r.upstream, r.proxy_emitted),
{
    let upstream = analyze_transcript(upstream_raw);
    let proxy_emitted = analyze_transcript(proxy_emitted_raw);
    let (pinned_layer, reasoning) = if upstream.category == Category::A && proxy_emitted.category == Category::B {
        (SuspectedLayer::Proxy,
            text_of("上游原始响应为 A 类（被截断），但代理转发给 Codex 的响应却正常 —— 故障在代理层（转发时丢失/重排了工具调用）"))
    } else if upstream.category == Category::A && proxy_emitted.category == Category::A {
        (SuspectedLayer::ThirdPartyApi, text_of("上游与代理转发均为 A 类 —— 故障在上游第三方 API（代理忠实透传了截断的响应）"))
    } else if upstream.category == Category::B && proxy_emitted.category == Category::B {
        (SuspectedLayer::Inconclusive,
            text_of("上下游均为 B 类（正常结束） —— 若 Codex 仍显示中断，则故障在 Codex 客户端侧（收到但未执行 / UI 未渲染）"))
    } else if upstream.tool_invocations > 0 && proxy_emitted.tool_invocations == 0 {
        (SuspectedLayer::Proxy,
            text_of("上游发出了工具调用，但代理转发给 Codex 的响应里 tool_calls 数量为 0 —— 故障在代理层（协议转换丢失工具调用）"))
    } else {
        (SuspectedLayer::Inconclusive, text_of("上下游对比无法唯一确定故障层，请结合 Codex 侧 debug 日志进一步判断"))
    };
    PairReport { upstream, proxy_emitted, pinned_layer, reasoning }
}

/// How to capture Codex / ChatGPT Work debug logs and feed them to the analysis.
pub const CAPTURE_GUIDE: &'static str = "
如何获取 Codex / ChatGPT Work 的 debug 日志并喂入本分析逻辑
===========================================================

1) Codex CLI（OpenAI 官方 codex / 兼容实现）
   - 设置环境变量开启调试：
       export CODEX_DEBUG=1
       # 或
       export OPENAI_LOG=debug
   - 运行对话后，日志会输出到 stderr / ~/.codex/logs/。
   - 捕获某一轮的 SSE：在日志中定位对应请求的响应体（通常为
     `data: {...}` 逐行流），复制保存为 upstream.log（上游视角，Chat Completions 格式）。

2) ChatGPT Work / 桌面版（走本代理的 Responses API 路径）
   - 打开开发者工具 / 调试控制台（通常 Help → Toggle Developer Tools，
     或快捷键 Ctrl+Shift+I / Cmd+Option+I）。
   - 在 Network / Console 面板筛选对代理地址（如 http://127.0.0.1:<port>/v1/...）
     的请求，复制 Response 的 SSE 文本保存为 proxy.log（代理视角，Responses API 格式）。

3) 喂入分析
   - 单段：     diagnose upstream.log
   - 上下游配对： diagnose upstream.log proxy.log
   - 管道：     cat upstream.log | diagnose
   - 输出为 JSON 结构化报告（见 DiagnosticReport / PairReport）。

4) 判定要点（与界面现象对应）
   - 若报告 category=A 且 last_delta_type=tool_calls、ended_cleanly=false
     → 流式在工具调用分片途中被砍，界面表现「准备调工具却停了」。
   - 若报告 category=B 且工具调用均有结果 → 模型主动结束，正常现象，
     不应归咎于代理。
";

/// How to capture Codex / ChatGPT Work debug logs to feed the analysis.
pub fn how_to_capture_logs() -> (r: &'static str)
    ensures
        r@ == CAPTURE_GUIDE@,
{
    CAPTURE_GUIDE
}

} // verus!
