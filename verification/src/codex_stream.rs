//! Streaming translation for Codex: a Chat Completions chunk stream turned
//! into Responses API events as it arrives.
//!
//! The translator is a state machine fed with upstream bytes. Each chunk's
//! choices open the response (`response.created`, `response.in_progress`),
//! the message item and its text part, a reasoning item (from reasoning
//! fields, or from an inline thinking block such as `<think>…` at the start of
//! the text), and function-call items; a finishing choice, `[DONE]`, the end
//! of the upstream stream or a timeout close every open item and send
//! `response.completed`. Upstream errors, and streams that never produce a
//! valid chunk, end in a failed response instead of a silent empty one.

use vstd::prelude::*;
use crate::bridge_response::{strip_all, strip_prefixes};
use crate::codex_translator::{
    parse_sse_line, reasoning_of, sanitized_arguments, sanitized_output, sse_line_result, thinking_delimiter, thinking_marker,
};
use crate::json::{self, Json, JsonV, get, i64_json, i64_number, jv, jv_members, jv_seq, str_of, u64_json, u64_number, u64_of};
use crate::key_model_map::string_views;
use crate::proxy::{lossy, lossy_text};
use crate::sorting::{first_where, lemma_first_where, lemma_first_where_props};
use crate::text::{has_prefix, owned, push_str, split_newlines, str_chars, string_from_chars, trim_start_ws, trim_ws};

verus! {

// ── State ──

/// One function call of the stream: its id, name and the arguments so far.
#[derive(Debug)]
pub struct ToolCallEntry {
    pub id: String,
    pub name: String,
    pub arguments: String,
}

/// The translator's state.
#[derive(Debug)]
pub struct StreamState {
    /// The response id (`resp_…`).
    pub response_id: String,
    pub model_name: String,
    /// The id of the message item (used once it is sent).
    pub item_id: String,
    pub content_index: u32,
    /// Output index of the message item.
    pub output_index: u32,
    pub has_sent_created: bool,
    pub has_sent_in_progress: bool,
    pub has_sent_output_item: bool,
    pub has_sent_content_part: bool,
    /// The text sent so far.
    pub text_buffer: String,
    /// Whether a terminal event (`response.completed` or a failure) was sent.
    pub is_completed: bool,
    /// Reasoning text, kept apart from the message text.
    pub reasoning_buffer: String,
    /// The id of the reasoning item (used once it is sent).
    pub reasoning_item_id: String,
    pub has_sent_reasoning: bool,
    pub reasoning_output_index: u32,
    /// Whether text is currently inside an inline thinking block.
    pub is_thinking_block: bool,
    /// Function calls by their Chat index, in increasing index order, each once.
    pub tool_calls: Vec<(u32, ToolCallEntry)>,
    /// Output index given to function-call items.
    pub tool_call_output_index: u32,
    /// Creation time of the response (Unix seconds).
    pub now: i64,
    /// Lines of a payload that is not complete yet.
    pub pending_sse_fragments: Vec<String>,
}

/// A function call as plain values.
pub struct CallModel {
    pub id: Seq<char>,
    pub name: Seq<char>,
    pub arguments: Seq<char>,
}

/// The translator's state as plain values.
#[verifier::ext_equal]
pub struct StreamModel {
    pub response_id: Seq<char>,
    pub model_name: Seq<char>,
    pub item_id: Seq<char>,
    pub content_index: u32,
    pub output_index: u32,
    pub has_sent_created: bool,
    pub has_sent_in_progress: bool,
    pub has_sent_output_item: bool,
    pub has_sent_content_part: bool,
    pub text_buffer: Seq<char>,
    pub is_completed: bool,
    pub reasoning_buffer: Seq<char>,
    pub reasoning_item_id: Seq<char>,
    pub has_sent_reasoning: bool,
    pub reasoning_output_index: u32,
    pub is_thinking_block: bool,
    pub calls: Seq<(u32, CallModel)>,
    pub tool_call_output_index: u32,
    pub now: i64,
    pub pending: Seq<Seq<char>>,
}

/// The plain value of a function call.
pub open spec fn call_view(c: ToolCallEntry) -> CallModel {
    CallModel { id: c.id@, name: c.name@, arguments: c.arguments@ }
}

/// The plain values of the function calls.
pub open spec fn calls_view(cs: Seq<(u32, ToolCallEntry)>) -> Seq<(u32, CallModel)> {
    cs.map_values(|e: (u32, ToolCallEntry)| (e.0, call_view(e.1)))
}

impl View for StreamState {
    type V = StreamModel;

    open spec fn view(&self) -> StreamModel {
        StreamModel {
            response_id: self.response_id@,
            model_name: self.model_name@,
            item_id: self.item_id@,
            content_index: self.content_index,
            output_index: self.output_index,
            has_sent_created: self.has_sent_created,
            has_sent_in_progress: self.has_sent_in_progress,
            has_sent_output_item: self.has_sent_output_item,
            has_sent_content_part: self.has_sent_content_part,
            text_buffer: self.text_buffer@,
            is_completed: self.is_completed,
            reasoning_buffer: self.reasoning_buffer@,
            reasoning_item_id: self.reasoning_item_id@,
            has_sent_reasoning: self.has_sent_reasoning,
            reasoning_output_index: self.reasoning_output_index,
            is_thinking_block: self.is_thinking_block,
            calls: calls_view(self.tool_calls@),
            tool_call_output_index: self.tool_call_output_index,
            now: self.now,
            pending: string_views(self.pending_sse_fragments@),
        }
    }
}

/// Whether the calls are in strictly increasing index order.
pub open spec fn calls_sorted(cs: Seq<(u32, CallModel)>) -> bool {
    forall|i: int, j: int| 0 <= i < j < cs.len() ==> cs[i].0 < cs[j].0
}

/// The state's invariant: a response id is set and the calls are ordered.
pub open spec fn stream_wf(m: StreamModel) -> bool {
    &&& m.response_id.len() > 0
    &&& calls_sorted(m.calls)
}

// ── Events ──

/// A member holding a text.
pub open spec fn text_member(k: Seq<char>, t: Seq<char>) -> (Seq<char>, JsonV) {
    (k, JsonV::Str(t))
}

/// A member holding a 32-bit index.
pub open spec fn index_member(k: Seq<char>, i: u32) -> (Seq<char>, JsonV) {
    (k, u64_number(i as u64))
}

/// The `response` object of the lifecycle events: id, object, creation time,
/// model and status.
pub open spec fn response_head(m: StreamModel, status: Seq<char>) -> Seq<(Seq<char>, JsonV)> {
    seq![
        text_member("id"@, m.response_id),
        text_member("object"@, "response"@),
        ("created_at"@, i64_number(m.now)),
        text_member("model"@, m.model_name),
        text_member("status"@, status),
    ]
}

/// An event `{"type": kind, "response": {...in progress, no output}}`.
pub open spec fn progress_event(m: StreamModel, kind: Seq<char>) -> JsonV {
    JsonV::Object(seq![
        text_member("type"@, kind),
        ("response"@, JsonV::Object(response_head(m, "in_progress"@).push(("output"@, JsonV::Array(Seq::empty()))))),
    ])
}

/// The `error` member of a failed response.
pub open spec fn proxy_error(msg: Seq<char>) -> JsonV {
    JsonV::Object(seq![text_member("code"@, "proxy_upstream_error"@), text_member("message"@, msg)])
}

/// The failure event: `response.failed` once the response was announced,
/// else a `response.created` whose status is `failed`.
pub open spec fn failure_event(m: StreamModel, msg: Seq<char>) -> JsonV {
    if m.has_sent_created {
        JsonV::Object(seq![
            text_member("type"@, "response.failed"@),
            ("response"@, JsonV::Object(response_head(m, "failed"@).push(("error"@, proxy_error(msg))))),
        ])
    } else {
        JsonV::Object(seq![
            text_member("type"@, "response.created"@),
            ("response"@, JsonV::Object(response_head(m, "failed"@)
                .push(("error"@, proxy_error(msg))).push(("output"@, JsonV::Array(Seq::empty()))))),
        ])
    }
}

/// The reasoning item as announced (empty) or as finished.
pub open spec fn reasoning_item(m: StreamModel, text: Seq<char>) -> JsonV {
    JsonV::Object(seq![text_member("id"@, m.reasoning_item_id), text_member("type"@, "reasoning"@), text_member("reasoning"@, text)])
}

/// An `output_text` part.
pub open spec fn output_text_part(t: Seq<char>) -> JsonV {
    JsonV::Object(seq![text_member("type"@, "output_text"@), text_member("text"@, t)])
}

/// The message item with the given content.
pub open spec fn message_item(m: StreamModel, content: Seq<JsonV>) -> JsonV {
    JsonV::Object(seq![
        text_member("id"@, m.item_id),
        text_member("type"@, "message"@),
        text_member("role"@, "assistant"@),
        ("content"@, JsonV::Array(content)),
    ])
}

/// A function-call item.
pub open spec fn call_item(id: Seq<char>, name: Seq<char>, args: Seq<char>) -> JsonV {
    JsonV::Object(seq![
        text_member("id"@, id),
        text_member("type"@, "function_call"@),
        text_member("call_id"@, id),
        text_member("name"@, name),
        text_member("arguments"@, args),
    ])
}

/// `response.output_item.added` for an item at an output index.
pub open spec fn item_added(index: int, item: JsonV) -> JsonV {
    JsonV::Object(seq![
        text_member("type"@, "response.output_item.added"@),
        ("output_index"@, u64_number(index as u64)),
        ("item"@, item),
    ])
}

/// `response.output_item.done` for an item at an output index.
pub open spec fn item_done(index: int, item: JsonV) -> JsonV {
    JsonV::Object(seq![
        text_member("type"@, "response.output_item.done"@),
        ("output_index"@, u64_number(index as u64)),
        ("item"@, item),
    ])
}

/// `response.content_part.added` for the message's text part.
pub open spec fn part_added(m: StreamModel) -> JsonV {
    JsonV::Object(seq![
        text_member("type"@, "response.content_part.added"@),
        text_member("item_id"@, m.item_id),
        index_member("output_index"@, m.output_index),
        index_member("content_index"@, m.content_index),
        ("part"@, output_text_part(Seq::empty())),
    ])
}

/// `response.output_text.delta`.
pub open spec fn text_delta_event(m: StreamModel, t: Seq<char>) -> JsonV {
    JsonV::Object(seq![
        text_member("type"@, "response.output_text.delta"@),
        text_member("delta"@, t),
        text_member("item_id"@, m.item_id),
        index_member("output_index"@, m.output_index),
        index_member("content_index"@, m.content_index),
    ])
}

/// `response.function_call_arguments.delta`.
pub open spec fn args_delta_event(m: StreamModel, args: Seq<char>, id: Seq<char>) -> JsonV {
    JsonV::Object(seq![
        text_member("type"@, "response.function_call_arguments.delta"@),
        text_member("delta"@, args),
        text_member("item_id"@, id),
        index_member("output_index"@, m.tool_call_output_index),
    ])
}

/// `response.output_text.done`.
pub open spec fn text_done_event(m: StreamModel) -> JsonV {
    JsonV::Object(seq![
        text_member("type"@, "response.output_text.done"@),
        text_member("item_id"@, m.item_id),
        index_member("output_index"@, m.output_index),
        index_member("content_index"@, m.content_index),
        text_member("text"@, m.text_buffer),
    ])
}

/// `response.content_part.done`.
pub open spec fn part_done_event(m: StreamModel) -> JsonV {
    JsonV::Object(seq![
        text_member("type"@, "response.content_part.done"@),
        text_member("item_id"@, m.item_id),
        index_member("output_index"@, m.output_index),
        index_member("content_index"@, m.content_index),
        ("part"@, output_text_part(m.text_buffer)),
    ])
}

/// `response.function_call_arguments.done`.
pub open spec fn args_done_event(id: Seq<char>, index: int, args: Seq<char>) -> JsonV {
    JsonV::Object(seq![
        text_member("type"@, "response.function_call_arguments.done"@),
        text_member("item_id"@, id),
        ("output_index"@, u64_number(index as u64)),
        text_member("arguments"@, args),
    ])
}

// ── Closing ──

/// The output index of the `c`-th function call when the items are closed:
/// after the message and the reasoning item when they were sent.
pub open spec fn call_output_index(m: StreamModel, c: int) -> int {
    if m.has_sent_output_item {
        if m.has_sent_reasoning { 2 + c } else { 1 + c }
    } else {
        c
    }
}

/// The closing events of the function calls from the `c`-th on.
pub open spec fn calls_done(m: StreamModel, cs: Seq<(u32, CallModel)>, c: int) -> Seq<JsonV>
    decreases cs.len(),
{
    if cs.len() == 0 {
        Seq::empty()
    } else {
        let k = c + cs.len() - 1;
        let e = cs.last().1;
        let args = sanitized_arguments(e.arguments);
        calls_done(m, cs.drop_last(), c)
            + seq![args_done_event(e.id, call_output_index(m, k), args), item_done(call_output_index(m, k), call_item(e.id, e.name, args))]
    }
}

/// The events that close the open items, in the order the Responses API
/// wants: text done, part done, message done; the reasoning item; the
/// function calls (arguments made valid JSON) in index order.
pub open spec fn flush_events(m: StreamModel) -> Seq<JsonV> {
    (if m.has_sent_content_part { seq![text_done_event(m), part_done_event(m)] } else { Seq::empty() })
        + (if m.has_sent_output_item && m.has_sent_content_part {
            seq![item_done(m.output_index as int, message_item(m, seq![output_text_part(m.text_buffer)]))]
        } else {
            Seq::empty()
        })
        + (if m.has_sent_reasoning && m.reasoning_buffer.len() > 0 {
            seq![item_done(m.reasoning_output_index as int, reasoning_item(m, m.reasoning_buffer))]
        } else {
            Seq::empty()
        })
        + calls_done(m, m.calls, 0)
}

/// The function-call items of the final output, in index order.
pub open spec fn call_items(cs: Seq<(u32, CallModel)>) -> Seq<JsonV>
    decreases cs.len(),
{
    if cs.len() == 0 {
        Seq::empty()
    } else {
        let e = cs.last().1;
        call_items(cs.drop_last()).push(call_item(e.id, e.name, sanitized_arguments(e.arguments)))
    }
}

/// The output of the completed response: reasoning first, then the message,
/// then the function calls.
pub open spec fn final_output(m: StreamModel) -> Seq<JsonV> {
    (if m.has_sent_reasoning && m.reasoning_buffer.len() > 0 { seq![reasoning_item(m, m.reasoning_buffer)] } else { Seq::empty() })
        + (if m.has_sent_output_item { seq![message_item(m, seq![output_text_part(m.text_buffer)])] } else { Seq::empty() })
        + call_items(m.calls)
}

/// `response.completed`.
pub open spec fn completed_event(m: StreamModel) -> JsonV {
    JsonV::Object(seq![
        text_member("type"@, "response.completed"@),
        ("response"@, JsonV::Object(response_head(m, "completed"@).push(("output"@, JsonV::Array(final_output(m)))))),
    ])
}

/// Closing the response: the closing events (sent again if called twice),
/// then `response.completed` once.
pub open spec fn complete_step(m: StreamModel) -> (StreamModel, Seq<JsonV>) {
    if m.is_completed {
        (m, flush_events(m))
    } else {
        (StreamModel { is_completed: true, ..m }, flush_events(m).push(completed_event(m)))
    }
}

/// Failing the response (the caller checks that it is not completed yet).
pub open spec fn failure_step(m: StreamModel, msg: Seq<char>) -> (StreamModel, Seq<JsonV>) {
    (StreamModel { is_completed: true, ..m }, seq![failure_event(m, msg)])
}

// ── Chunks ──

/// Announcing the reasoning item (once), at output index `index`.
pub open spec fn open_reasoning(m: StreamModel, index: u32) -> (StreamModel, Seq<JsonV>) {
    if m.has_sent_reasoning {
        (m, Seq::empty())
    } else {
        let m1 = StreamModel { has_sent_reasoning: true, reasoning_output_index: index, ..m };
        (m1, seq![item_added(index as int, reasoning_item(m1, Seq::empty()))])
    }
}

/// Announcing the message item (once).
pub open spec fn open_message(m: StreamModel) -> (StreamModel, Seq<JsonV>) {
    if m.has_sent_output_item {
        (m, Seq::empty())
    } else {
        let m1 = StreamModel { has_sent_output_item: true, ..m };
        (m1, seq![item_added(m1.output_index as int, message_item(m1, Seq::empty()))])
    }
}

/// Announcing the message's text part (once).
pub open spec fn open_part(m: StreamModel) -> (StreamModel, Seq<JsonV>) {
    if m.has_sent_content_part {
        (m, Seq::empty())
    } else {
        let m1 = StreamModel { has_sent_content_part: true, ..m };
        (m1, seq![part_added(m1)])
    }
}

/// Sending message text (the item and part are announced first when needed).
pub open spec fn emit_text(m: StreamModel, t: Seq<char>) -> (StreamModel, Seq<JsonV>) {
    let (a, p) = open_message(m);
    let (b, q) = open_part(a);
    let c = StreamModel { text_buffer: b.text_buffer + t, ..b };
    (c, p + q + seq![text_delta_event(c, t)])
}

/// The `content` of a delta. Control tokens are removed first. Text that
/// opens with a thinking marker (before any message or reasoning) goes to the
/// reasoning item until the block ends; what follows the block's end is sent
/// as message text, the message then coming after the reasoning item.
pub open spec fn content_step(m: StreamModel, raw: Seq<char>) -> (StreamModel, Seq<JsonV>) {
    let content = sanitized_output(raw);
    if raw.len() == 0 || content.len() == 0 {
        (m, Seq::empty())
    } else {
        let m0 = if !m.has_sent_output_item && !m.has_sent_reasoning && !m.is_thinking_block && thinking_marker(content) {
            StreamModel { is_thinking_block: true, ..m }
        } else {
            m
        };
        if m0.is_thinking_block {
            thinking_step(m0, content)
        } else {
            emit_text(m0, content)
        }
    }
}

/// Text inside an inline thinking block: kept as reasoning until the block
/// ends; then the block is the reasoning, what follows it is message text,
/// and the message comes after the reasoning item (output index 1, calls 2).
pub open spec fn thinking_step(m0: StreamModel, content: Seq<char>) -> (StreamModel, Seq<JsonV>) {
    let combined = m0.reasoning_buffer + content;
    match thinking_delimiter(combined) {
        Some((pos, len)) => {
            let after = trim_start_ws(combined.skip(pos + len));
            let (a, p) = open_reasoning(m0, 0);
            let b = StreamModel {
                reasoning_buffer: combined.take(pos),
                is_thinking_block: false,
                output_index: 1,
                tool_call_output_index: 2,
                ..a
            };
            if after.len() == 0 {
                (b, p)
            } else {
                let (c, q) = emit_text(b, after);
                (c, p + q)
            }
        },
        None => {
            let (a, p) = open_reasoning(m0, 0);
            (StreamModel { reasoning_buffer: combined, ..a }, p)
        },
    }
}

/// The reasoning text of a choice: from its delta, else from the choice itself.
pub open spec fn choice_reasoning(delta: Json, choice: Json) -> Option<Seq<char>> {
    match reasoning_of(delta) {
        Some(r) => Some(r),
        None => reasoning_of(choice),
    }
}

/// Reasoning text: the reasoning item is announced (after the message when
/// that was sent) and the text kept.
pub open spec fn reasoning_step(m: StreamModel, r: Option<Seq<char>>) -> (StreamModel, Seq<JsonV>) {
    match r {
        Some(t) => if t.len() > 0 {
            let (a, p) = open_reasoning(m, if m.has_sent_output_item { 1 } else { 0 });
            (StreamModel { reasoning_buffer: a.reasoning_buffer + t, ..a }, p)
        } else {
            (m, Seq::empty())
        },
        None => (m, Seq::empty()),
    }
}

/// The text of a string value, or `d`.
pub open spec fn text_or(j: Option<Json>, d: Seq<char>) -> Seq<char> {
    match str_of(j) {
        Some(t) => t,
        None => d,
    }
}

/// Whether an entry is the call with Chat index `k`.
pub open spec fn call_named(k: u32) -> spec_fn((u32, CallModel)) -> bool {
    |e: (u32, CallModel)| e.0 == k
}

/// Where the call with index `k` is kept.
pub open spec fn call_pos(cs: Seq<(u32, CallModel)>, k: u32) -> Option<int> {
    first_where(cs, call_named(k))
}

/// Whether an entry comes after index `k`.
pub open spec fn call_after(k: u32) -> spec_fn((u32, CallModel)) -> bool {
    |e: (u32, CallModel)| e.0 > k
}

/// Where a call with index `k` goes to keep the order.
pub open spec fn insert_pos(cs: Seq<(u32, CallModel)>, k: u32) -> int {
    match first_where(cs, call_after(k)) {
        Some(i) => i,
        None => cs.len() as int,
    }
}

/// The calls with a new one inserted in index order.
pub open spec fn call_insert(cs: Seq<(u32, CallModel)>, k: u32, c: CallModel) -> Seq<(u32, CallModel)> {
    cs.take(insert_pos(cs, k)).push((k, c)) + cs.skip(insert_pos(cs, k))
}

/// The Chat index of a tool-call delta (0 when absent), cut to 32 bits.
pub open spec fn call_index(tc: Json) -> u32 {
    (match u64_of(get(tc, "index"@)) { Some(n) => n, None => 0 }) as u32
}

/// A call seen for the first time (with an id) is kept and announced.
pub open spec fn tool_open_step(m: StreamModel, k: u32, id: Seq<char>, name: Seq<char>) -> (StreamModel, Seq<JsonV>) {
    if call_pos(m.calls, k) is None && id.len() > 0 {
        (StreamModel { calls: call_insert(m.calls, k, CallModel { id, name, arguments: Seq::empty() }), ..m },
            seq![item_added(m.tool_call_output_index as int, call_item(id, name, Seq::empty()))])
    } else {
        (m, Seq::empty())
    }
}

/// Argument text of a known call is kept and forwarded.
pub open spec fn tool_args_step(a: StreamModel, k: u32, args: Seq<char>) -> (StreamModel, Seq<JsonV>) {
    match call_pos(a.calls, k) {
        Some(i) => if args.len() > 0 {
            let c = a.calls[i].1;
            (StreamModel { calls: a.calls.update(i, (k, CallModel { arguments: c.arguments + args, ..c })), ..a },
                seq![args_delta_event(a, args, c.id)])
        } else {
            (a, Seq::empty())
        },
        None => (a, Seq::empty()),
    }
}

/// One tool-call delta: a call seen for the first time (with an id) is
/// announced; argument text of a known call is kept and forwarded.
pub open spec fn tool_step(m: StreamModel, tc: Json) -> (StreamModel, Seq<JsonV>) {
    let k = call_index(tc);
    let f = get(tc, "function"@);
    let (a, p) = tool_open_step(m, k, text_or(get(tc, "id"@), Seq::empty()), text_or(json::get_opt(f, "name"@), Seq::empty()));
    let (b, q) = tool_args_step(a, k, text_or(json::get_opt(f, "arguments"@), Seq::empty()));
    (b, p + q)
}

/// Tool-call deltas in order.
pub open spec fn tools_step(m: StreamModel, tcs: Seq<Json>) -> (StreamModel, Seq<JsonV>)
    decreases tcs.len(),
{
    if tcs.len() == 0 {
        (m, Seq::empty())
    } else {
        let (a, p) = tools_step(m, tcs.drop_last());
        let (b, q) = tool_step(a, tcs.last());
        (b, p + q)
    }
}

/// Whether a finish reason closes the response.
pub open spec fn closing_reason(r: Option<Seq<char>>) -> bool {
    match r {
        Some(t) => t == "stop"@ || t == "length"@ || t == "tool_calls"@ || t == "content_filter"@,
        None => false,
    }
}

/// Announcing the response (`response.created`, then `response.in_progress`), once each.
#[verifier::opaque]
pub open spec fn announce_step(m: StreamModel) -> (StreamModel, Seq<JsonV>) {
    let (a, p) = if !m.has_sent_created {
        let a = StreamModel { has_sent_created: true, ..m };
        (a, seq![progress_event(a, "response.created"@)])
    } else {
        (m, Seq::empty())
    };
    let (b, q) = if !a.has_sent_in_progress {
        let b = StreamModel { has_sent_in_progress: true, ..a };
        (b, seq![progress_event(b, "response.in_progress"@)])
    } else {
        (a, Seq::empty())
    };
    (b, p + q)
}

/// The text and reasoning of a choice.
#[verifier::opaque]
pub open spec fn texts_step(m: StreamModel, delta: Json, choice: Json) -> (StreamModel, Seq<JsonV>) {
    let (c, r) = match str_of(get(delta, "content"@)) {
        Some(raw) => content_step(m, raw),
        None => (m, Seq::empty()),
    };
    let (d, s) = reasoning_step(c, choice_reasoning(delta, choice));
    (d, r + s)
}

/// The tool calls of a choice, and the response's completion on a closing
/// finish reason.
#[verifier::opaque]
pub open spec fn calls_finish_step(m: StreamModel, delta: Json, choice: Json) -> (StreamModel, Seq<JsonV>) {
    let (e, t) = match json::array_of(get(delta, "tool_calls"@)) {
        Some(tcs) => tools_step(m, tcs),
        None => (m, Seq::empty()),
    };
    let (g, u) = if closing_reason(str_of(get(choice, "finish_reason"@))) { complete_step(e) } else { (e, Seq::empty()) };
    (g, t + u)
}

/// One choice: the response is announced on the first one; then its text,
/// reasoning and tool calls; a closing finish reason completes the response.
/// A choice without a delta is skipped.
pub open spec fn choice_step(m: StreamModel, choice: Json) -> (StreamModel, Seq<JsonV>) {
    match get(choice, "delta"@) {
        None => (m, Seq::empty()),
        Some(delta) => {
            let (b, p) = announce_step(m);
            let (d, q) = texts_step(b, delta, choice);
            let (g, r) = calls_finish_step(d, delta, choice);
            (g, p + q + r)
        },
    }
}

/// Choices in order.
pub open spec fn choices_step(m: StreamModel, cs: Seq<Json>) -> (StreamModel, Seq<JsonV>)
    decreases cs.len(),
{
    if cs.len() == 0 {
        (m, Seq::empty())
    } else {
        let (a, p) = choices_step(m, cs.drop_last());
        let (b, q) = choice_step(a, cs.last());
        (b, p + q)
    }
}

/// The message of an upstream error chunk.
pub open spec fn upstream_error_text(j: Json) -> Seq<char> {
    let e = get(j, "error"@);
    "Upstream error: "@ + text_or(json::get_opt(e, "message"@), "Unknown upstream error"@)
        + " (code: "@ + text_or(json::get_opt(e, "code"@), "unknown"@) + ")"@
}

/// One parsed chunk: its id becomes the response id (`chatcmpl-` replaced by
/// `resp_`), its model is taken while none is known; an error chunk fails the
/// response; chunks without choices are skipped.
pub open spec fn chunk_step(m: StreamModel, j: Json) -> (StreamModel, Seq<JsonV>) {
    let m1 = match str_of(get(j, "id"@)) {
        Some(id) => if id.len() > 0 { StreamModel { response_id: "resp_"@ + strip_prefixes(id, "chatcmpl-"@), ..m } } else { m },
        None => m,
    };
    let m2 = if m1.model_name.len() == 0 {
        match str_of(get(j, "model"@)) {
            Some(md) => StreamModel { model_name: md, ..m1 },
            None => m1,
        }
    } else {
        m1
    };
    if get(j, "error"@) is Some {
        if m2.is_completed { (m2, Seq::empty()) } else { failure_step(m2, upstream_error_text(j)) }
    } else {
        match json::array_of(get(j, "choices"@)) {
            Some(cs) => choices_step(m2, cs),
            None => (m2, Seq::empty()),
        }
    }
}

/// The failure message for `[DONE]` before any valid chunk.
pub open spec fn empty_done_text() -> Seq<char> {
    "Upstream returned no streaming data ([DONE] with empty body)."@
}

/// One SSE line: a blank line drops an unfinished payload; `[DONE]` completes
/// the response (or fails it when nothing valid came); other payloads are
/// parsed, reassembled across lines when split, and skipped when invalid.
pub open spec fn line_step(m: StreamModel, line: Seq<char>) -> (StreamModel, Seq<JsonV>) {
    let t = trim_ws(line);
    if t.len() == 0 {
        (StreamModel { pending: Seq::empty(), ..m }, Seq::empty())
    } else {
        let d = if has_prefix(t, "data:"@) { trim_ws(t.skip(5)) } else { trim_ws(t) };
        if d == "[DONE]"@ {
            let m1 = StreamModel { pending: Seq::empty(), ..m };
            if m1.is_completed {
                (m1, Seq::empty())
            } else if m1.has_sent_created {
                complete_step(m1)
            } else {
                failure_step(m1, empty_done_text())
            }
        } else {
            let (doc, rest) = sse_line_result(m.pending, d);
            let m1 = StreamModel { pending: rest, ..m };
            match doc {
                None => (m1, Seq::empty()),
                Some(j) => chunk_step(m1, j),
            }
        }
    }
}

/// Lines in order.
pub open spec fn lines_step(m: StreamModel, ls: Seq<Seq<char>>) -> (StreamModel, Seq<JsonV>)
    decreases ls.len(),
{
    if ls.len() == 0 {
        (m, Seq::empty())
    } else {
        let (a, p) = lines_step(m, ls.drop_last());
        let (b, q) = line_step(a, ls.last());
        (b, p + q)
    }
}

/// A piece of upstream data: decoded (invalid UTF-8 replaced) and split at
/// every line end.
pub open spec fn feed_step(m: StreamModel, chunk: Seq<u8>) -> (StreamModel, Seq<JsonV>) {
    lines_step(m, split_newlines(lossy_text(chunk)))
}

// ── Ends ──

/// The failure message when the upstream stream ends without a valid chunk.
pub open spec fn empty_stream_text() -> Seq<char> {
    "Upstream returned an empty or unparseable streaming response. Check the upstream provider / relay for errors."@
}

/// The failure message when no valid chunk came within the first-chunk timeout.
pub open spec fn first_timeout_text() -> Seq<char> {
    "Upstream did not return a valid streaming response within 120 seconds. The provider may use an unsupported SSE format."@
}

/// The failure message of the last-resort check.
pub open spec fn no_data_text() -> Seq<char> {
    "Upstream returned no valid streaming data. The provider may use an incompatible SSE format."@
}

/// The end of the upstream stream (and the last-resort check, with its own
/// message): an announced response is completed, else it fails; nothing
/// when it is already completed.
pub open spec fn close_step(m: StreamModel, msg: Seq<char>) -> (StreamModel, Seq<JsonV>) {
    if m.is_completed {
        (m, Seq::empty())
    } else if m.has_sent_created {
        complete_step(m)
    } else {
        failure_step(m, msg)
    }
}

/// An upstream transport error: the response fails (unless completed).
pub open spec fn error_end_step(m: StreamModel, err: Seq<char>) -> (StreamModel, Seq<JsonV>) {
    if m.is_completed { (m, Seq::empty()) } else { failure_step(m, "Upstream stream error: "@ + err) }
}

// ── Building events ──

fn text_json(s: &str) -> (r: Json)
    ensures
        jv(r) == JsonV::Str(s@),
{
    Json::Str(owned(s))
}

fn tm(k: &str, t: &str) -> (r: (String, Json))
    ensures
        (r.0@, jv(r.1)) == text_member(k@, t@),
{
    (owned(k), Json::Str(owned(t)))
}

fn im(k: &str, i: u32) -> (r: (String, Json))
    ensures
        (r.0@, jv(r.1)) == index_member(k@, i),
{
    (owned(k), u64_json(i as u64))
}

fn vm(k: &str, v: Json) -> (r: (String, Json))
    ensures
        r.0@ == k@,
        r.1 == v,
{
    (owned(k), v)
}

/// Appends one event.
fn push_event(out: &mut Vec<Json>, j: Json)
    ensures
        jv_seq(final(out)@) == jv_seq(old(out)@).push(jv(j)),
{
    out.push(j);
    proof {
        assert(out@.drop_last() =~= old(out)@);
    }
}

fn output_text_part_json(t: &str) -> (r: Json)
    ensures
        jv(r) == output_text_part(t@),
{
    let mut es: Vec<(String, Json)> = Vec::new();
    es.push(tm("type", "output_text"));
    es.push(tm("text", t));
    proof {
        json::lemma_jv_members(es@);
        assert(jv_members(es@) =~= output_text_part(t@)->Object_0);
    }
    Json::Object(es)
}

fn call_item_json(id: &str, name: &str, args: &str) -> (r: Json)
    ensures
        jv(r) == call_item(id@, name@, args@),
{
    let mut es: Vec<(String, Json)> = Vec::new();
    es.push(tm("id", id));
    es.push(tm("type", "function_call"));
    es.push(tm("call_id", id));
    es.push(tm("name", name));
    es.push(tm("arguments", args));
    proof {
        json::lemma_jv_members(es@);
        assert(jv_members(es@) =~= call_item(id@, name@, args@)->Object_0);
    }
    Json::Object(es)
}

fn item_event_json(kind: &str, index: u64, item: Json) -> (r: Json)
    ensures
        kind@ == "response.output_item.added"@ ==> jv(r) == item_added(index as int, jv(item)),
        kind@ == "response.output_item.done"@ ==> jv(r) == item_done(index as int, jv(item)),
{
    let ghost iv = jv(item);
    let mut es: Vec<(String, Json)> = Vec::new();
    es.push(tm("type", kind));
    es.push(vm("output_index", u64_json(index)));
    es.push(vm("item", item));
    proof {
        json::lemma_jv_members(es@);
        if kind@ == "response.output_item.added"@ {
            assert(jv_members(es@) =~= item_added(index as int, iv)->Object_0);
        }
        if kind@ == "response.output_item.done"@ {
            assert(jv_members(es@) =~= item_done(index as int, iv)->Object_0);
        }
    }
    Json::Object(es)
}

fn args_done_json(id: &str, index: u64, args: &str) -> (r: Json)
    ensures
        jv(r) == args_done_event(id@, index as int, args@),
{
    let mut es: Vec<(String, Json)> = Vec::new();
    es.push(tm("type", "response.function_call_arguments.done"));
    es.push(tm("item_id", id));
    es.push(vm("output_index", u64_json(index)));
    es.push(tm("arguments", args));
    proof {
        json::lemma_jv_members(es@);
        assert(jv_members(es@) =~= args_done_event(id@, index as int, args@)->Object_0);
    }
    Json::Object(es)
}

fn empty_array() -> (r: Json)
    ensures
        jv(r) == JsonV::Array(Seq::empty()),
{
    let v: Vec<Json> = Vec::new();
    proof {
        assert(jv_seq(v@) =~= Seq::<JsonV>::empty());
    }
    Json::Array(v)
}

impl StreamState {
    fn head(&self, status: &str) -> (r: Vec<(String, Json)>)
        ensures
            jv_members(r@) == response_head(self@, status@),
    {
        let mut es: Vec<(String, Json)> = Vec::new();
        es.push(tm("id", self.response_id.as_str()));
        es.push(tm("object", "response"));
        es.push(vm("created_at", i64_json(self.now)));
        es.push(tm("model", self.model_name.as_str()));
        es.push(tm("status", status));
        proof {
            json::lemma_jv_members(es@);
            assert(jv_members(es@) =~= response_head(self@, status@));
        }
        es
    }

    fn progress_json(&self, kind: &str) -> (r: Json)
        ensures
            jv(r) == progress_event(self@, kind@),
    {
        let mut h = self.head("in_progress");
        let ghost h0 = h@;
        h.push(vm("output", empty_array()));
        proof {
            reveal_strlit("in_progress");
            json::lemma_jv_members(h0);
            json::lemma_jv_members(h@);
            assert(jv_members(h@) =~= response_head(self@, "in_progress"@).push(("output"@, JsonV::Array(Seq::empty()))));
        }
        let mut es: Vec<(String, Json)> = Vec::new();
        es.push(tm("type", kind));
        es.push(vm("response", Json::Object(h)));
        proof {
            json::lemma_jv_members(es@);
            assert(jv_members(es@) =~= progress_event(self@, kind@)->Object_0);
        }
        Json::Object(es)
    }

    fn failure_json(&self, msg: &str) -> (r: Json)
        ensures
            jv(r) == failure_event(self@, msg@),
    {
        let mut e: Vec<(String, Json)> = Vec::new();
        e.push(tm("code", "proxy_upstream_error"));
        e.push(tm("message", msg));
        proof {
            json::lemma_jv_members(e@);
            assert(jv_members(e@) =~= proxy_error(msg@)->Object_0);
        }
        let mut h = self.head("failed");
        let ghost h0 = h@;
        h.push(vm("error", Json::Object(e)));
        let ghost h1 = h@;
        let kind = if self.has_sent_created { "response.failed" } else { "response.created" };
        if !self.has_sent_created {
            h.push(vm("output", empty_array()));
        }
        proof {
            json::lemma_jv_members(h0);
            json::lemma_jv_members(h1);
            json::lemma_jv_members(h@);
            assert(jv_members(h1) =~= response_head(self@, "failed"@).push(("error"@, proxy_error(msg@))));
            if !self.has_sent_created {
                assert(jv_members(h@) =~= jv_members(h1).push(("output"@, JsonV::Array(Seq::empty()))));
            }
        }
        let mut es: Vec<(String, Json)> = Vec::new();
        es.push(tm("type", kind));
        es.push(vm("response", Json::Object(h)));
        proof {
            json::lemma_jv_members(es@);
            assert(jv_members(es@) =~= failure_event(self@, msg@)->Object_0);
        }
        Json::Object(es)
    }

    fn reasoning_item_json(&self, text: &str) -> (r: Json)
        ensures
            jv(r) == reasoning_item(self@, text@),
    {
        let mut es: Vec<(String, Json)> = Vec::new();
        es.push(tm("id", self.reasoning_item_id.as_str()));
        es.push(tm("type", "reasoning"));
        es.push(tm("reasoning", text));
        proof {
            json::lemma_jv_members(es@);
            assert(jv_members(es@) =~= reasoning_item(self@, text@)->Object_0);
        }
        Json::Object(es)
    }

    fn message_item_json(&self, with_text: bool) -> (r: Json)
        ensures
            jv(r) == message_item(self@, if with_text { seq![output_text_part(self.text_buffer@)] } else { Seq::empty() }),
    {
        let mut content: Vec<Json> = Vec::new();
        if with_text {
            content.push(output_text_part_json(self.text_buffer.as_str()));
        }
        proof {
            json::lemma_jv_seq(content@);
            assert(jv_seq(content@) =~= (if with_text { seq![output_text_part(self.text_buffer@)] } else { Seq::<JsonV>::empty() }));
        }
        let mut es: Vec<(String, Json)> = Vec::new();
        es.push(tm("id", self.item_id.as_str()));
        es.push(tm("type", "message"));
        es.push(tm("role", "assistant"));
        es.push(vm("content", Json::Array(content)));
        proof {
            json::lemma_jv_members(es@);
            assert(jv_members(es@) =~= message_item(self@,
                if with_text { seq![output_text_part(self.text_buffer@)] } else { Seq::empty() })->Object_0);
        }
        Json::Object(es)
    }

    fn part_added_json(&self) -> (r: Json)
        ensures
            jv(r) == part_added(self@),
    {
        let mut es: Vec<(String, Json)> = Vec::new();
        es.push(tm("type", "response.content_part.added"));
        es.push(tm("item_id", self.item_id.as_str()));
        es.push(im("output_index", self.output_index));
        es.push(im("content_index", self.content_index));
        es.push(vm("part", output_text_part_json("")));
        proof {
            reveal_strlit("");
            assert(""@ =~= Seq::<char>::empty());
            json::lemma_jv_members(es@);
            assert(jv_members(es@) =~= part_added(self@)->Object_0);
        }
        Json::Object(es)
    }

    fn text_delta_json(&self, t: &str) -> (r: Json)
        ensures
            jv(r) == text_delta_event(self@, t@),
    {
        let mut es: Vec<(String, Json)> = Vec::new();
        es.push(tm("type", "response.output_text.delta"));
        es.push(tm("delta", t));
        es.push(tm("item_id", self.item_id.as_str()));
        es.push(im("output_index", self.output_index));
        es.push(im("content_index", self.content_index));
        proof {
            json::lemma_jv_members(es@);
            assert(jv_members(es@) =~= text_delta_event(self@, t@)->Object_0);
        }
        Json::Object(es)
    }

    fn args_delta_json(&self, args: &str, id: &str) -> (r: Json)
        ensures
            jv(r) == args_delta_event(self@, args@, id@),
    {
        let mut es: Vec<(String, Json)> = Vec::new();
        es.push(tm("type", "response.function_call_arguments.delta"));
        es.push(tm("delta", args));
        es.push(tm("item_id", id));
        es.push(im("output_index", self.tool_call_output_index));
        proof {
            json::lemma_jv_members(es@);
            assert(jv_members(es@) =~= args_delta_event(self@, args@, id@)->Object_0);
        }
        Json::Object(es)
    }

    fn text_done_json(&self) -> (r: Json)
        ensures
            jv(r) == text_done_event(self@),
    {
        let mut es: Vec<(String, Json)> = Vec::new();
        es.push(tm("type", "response.output_text.done"));
        es.push(tm("item_id", self.item_id.as_str()));
        es.push(im("output_index", self.output_index));
        es.push(im("content_index", self.content_index));
        es.push(tm("text", self.text_buffer.as_str()));
        proof {
            json::lemma_jv_members(es@);
            assert(jv_members(es@) =~= text_done_event(self@)->Object_0);
        }
        Json::Object(es)
    }

    fn part_done_json(&self) -> (r: Json)
        ensures
            jv(r) == part_done_event(self@),
    {
        let mut es: Vec<(String, Json)> = Vec::new();
        es.push(tm("type", "response.content_part.done"));
        es.push(tm("item_id", self.item_id.as_str()));
        es.push(im("output_index", self.output_index));
        es.push(im("content_index", self.content_index));
        es.push(vm("part", output_text_part_json(self.text_buffer.as_str())));
        proof {
            json::lemma_jv_members(es@);
            assert(jv_members(es@) =~= part_done_event(self@)->Object_0);
        }
        Json::Object(es)
    }
}

// ── Calls ──

fn call_position(cs: &Vec<(u32, ToolCallEntry)>, k: u32) -> (r: Option<usize>)
    ensures
        match r {
            Some(i) => i < cs@.len() && call_pos(calls_view(cs@), k) == Some(i as int),
            None => call_pos(calls_view(cs@), k) is None,
        },
{
    let ghost v = calls_view(cs@);
    let ghost f = call_named(k);
    let mut i: usize = 0;
    while i < cs.len()
        invariant
            i <= cs.len(),
            v == calls_view(cs@),
            f == call_named(k),
            first_where(v.take(i as int), f) is None,
        decreases cs.len() - i,
    {
        proof {
            lemma_first_where(v, f, i as int);
        }
        if cs[i].0 == k {
            proof {
                assert(f(v[i as int]));
                lemma_first_where(v, f, i + 1);
                lemma_first_where(v, f, v.len() as int);
                assert(v.take(v.len() as int) =~= v);
            }
            return Some(i);
        }
        proof {
            assert(!f(v[i as int]));
        }
        i += 1;
    }
    proof {
        lemma_first_where(v, f, i as int);
        assert(v.take(i as int) =~= v);
    }
    None
}

fn insert_position(cs: &Vec<(u32, ToolCallEntry)>, k: u32) -> (r: usize)
    ensures
        r as int == insert_pos(calls_view(cs@), k),
        r <= cs@.len(),
{
    let ghost v = calls_view(cs@);
    let ghost f = call_after(k);
    let mut i: usize = 0;
    while i < cs.len()
        invariant
            i <= cs.len(),
            v == calls_view(cs@),
            f == call_after(k),
            first_where(v.take(i as int), f) is None,
        decreases cs.len() - i,
    {
        proof {
            lemma_first_where(v, f, i as int);
        }
        if cs[i].0 > k {
            proof {
                assert(f(v[i as int]));
                lemma_first_where(v, f, i + 1);
                lemma_first_where(v, f, v.len() as int);
                assert(v.take(v.len() as int) =~= v);
            }
            return i;
        }
        proof {
            assert(!f(v[i as int]));
        }
        i += 1;
    }
    proof {
        lemma_first_where(v, f, i as int);
        assert(v.take(i as int) =~= v);
    }
    i
}

/// Inserting a new index at its place keeps the calls ordered.
proof fn lemma_insert_sorted(cs: Seq<(u32, CallModel)>, k: u32, c: CallModel)
    requires
        calls_sorted(cs),
        call_pos(cs, k) is None,
    ensures
        calls_sorted(call_insert(cs, k, c)),
{
    let p = insert_pos(cs, k);
    lemma_first_where_props(cs, call_after(k));
    lemma_first_where_props(cs, call_named(k));
    let r = call_insert(cs, k, c);
    assert(0 <= p <= cs.len());
    assert forall|i: int| 0 <= i < p implies cs[i].0 < k by {
        assert(!call_after(k)(cs[i]));
        assert(!call_named(k)(cs[i]));
    }
    assert forall|i: int| p <= i < cs.len() implies cs[i].0 > k by {
        assert(call_after(k)(cs[p]));
        if i > p {
            assert(cs[p].0 < cs[i].0);
        }
    }
    assert forall|i: int| 0 <= i < r.len() implies #[trigger] r[i] == (if i < p { cs[i] } else if i == p { (k, c) } else { cs[i - 1] }) by {}
    assert forall|i: int, j: int| 0 <= i < j < r.len() implies r[i].0 < r[j].0 by {
        assert(r[i] == (if i < p { cs[i] } else if i == p { (k, c) } else { cs[i - 1] }));
        assert(r[j] == (if j < p { cs[j] } else if j == p { (k, c) } else { cs[j - 1] }));
    }
}

pub(crate) fn fresh_id(prefix: &str) -> (r: String)
    ensures
        has_prefix(r@, prefix@),
{
    let mut v: Vec<char> = Vec::new();
    push_str(&mut v, prefix);
    let ghost head = v@;
    let u = str_chars(crate::clock::new_uuid().as_str());
    let mut i: usize = 0;
    while i < u.len()
        invariant
            v@.len() >= head.len(),
            v@.take(head.len() as int) == head,
            head == prefix@,
        decreases u.len() - i,
    {
        if u[i] != '-' {
            v.push(u[i]);
            assert(v@.take(head.len() as int) =~= head);
        }
        i += 1;
    }
    string_from_chars(&v)
}

impl StreamState {
    /// A new translator for a response of `model`, created now. The response,
    /// message and reasoning ids are drawn at random (`resp_…`, `msg_…`,
    /// `reason_…`); the last two are used only once their items are sent.
    pub fn new(model: &str) -> (r: Self)
        ensures
            stream_wf(r@),
            has_prefix(r@.response_id, "resp_"@),
            has_prefix(r@.item_id, "msg_"@),
            has_prefix(r@.reasoning_item_id, "reason_"@),
            crate::clock::clock_range(r.now as int),
            r@.model_name == model@,
            r@.content_index == 0 && r@.output_index == 0 && r@.tool_call_output_index == 1,
            !r@.has_sent_created && !r@.has_sent_in_progress && !r@.has_sent_output_item && !r@.has_sent_content_part,
            !r@.is_completed && !r@.has_sent_reasoning && r@.reasoning_output_index == 0 && !r@.is_thinking_block,
            r@.text_buffer.len() == 0 && r@.reasoning_buffer.len() == 0,
            r@.calls.len() == 0 && r@.pending.len() == 0,
    {
        let now = crate::clock::now_unix_seconds();
        let r = StreamState {
            response_id: fresh_id("resp_"),
            model_name: owned(model),
            item_id: fresh_id("msg_"),
            content_index: 0,
            output_index: 0,
            has_sent_created: false,
            has_sent_in_progress: false,
            has_sent_output_item: false,
            has_sent_content_part: false,
            text_buffer: String::new(),
            is_completed: false,
            reasoning_buffer: String::new(),
            reasoning_item_id: fresh_id("reason_"),
            has_sent_reasoning: false,
            reasoning_output_index: 0,
            is_thinking_block: false,
            tool_calls: Vec::new(),
            tool_call_output_index: 1,
            now,
            pending_sse_fragments: Vec::new(),
        };
        proof {
            reveal_strlit("resp_");
            assert(calls_view(r.tool_calls@) =~= Seq::empty());
            assert(string_views(r.pending_sse_fragments@) =~= Seq::empty());
        }
        r
    }

    /// How long to wait for the next upstream data: the first-chunk timeout
    /// until the response is announced, then the idle timeout.
    pub fn timeout_secs(&self) -> (r: u64)
        ensures
            r == (if self.has_sent_created { 300u64 } else { 120u64 }),
    {
        if self.has_sent_created { 300 } else { 120 }
    }

    fn open_reasoning(&mut self, out: &mut Vec<Json>, index: u32)
        ensures
            final(self)@ == open_reasoning(old(self)@, index).0,
            jv_seq(final(out)@) == jv_seq(old(out)@) + open_reasoning(old(self)@, index).1,
    {
        if self.has_sent_reasoning {
            proof { assert(jv_seq(out@) =~= jv_seq(out@) + Seq::<JsonV>::empty()); }
            return;
        }
        self.has_sent_reasoning = true;
        self.reasoning_output_index = index;
        proof {
            reveal_strlit("");
            assert(""@ =~= Seq::<char>::empty());
        }
        let item = self.reasoning_item_json("");
        let ev = item_event_json("response.output_item.added", index as u64, item);
        let ghost o = jv_seq(out@);
        push_event(out, ev);
        proof { assert(jv_seq(out@) =~= o + open_reasoning(old(self)@, index).1); }
    }

    fn open_message(&mut self, out: &mut Vec<Json>)
        ensures
            final(self)@ == open_message(old(self)@).0,
            jv_seq(final(out)@) == jv_seq(old(out)@) + open_message(old(self)@).1,
    {
        if self.has_sent_output_item {
            proof { assert(jv_seq(out@) =~= jv_seq(out@) + Seq::<JsonV>::empty()); }
            return;
        }
        self.has_sent_output_item = true;
        let item = self.message_item_json(false);
        let ev = item_event_json("response.output_item.added", self.output_index as u64, item);
        let ghost o = jv_seq(out@);
        push_event(out, ev);
        proof { assert(jv_seq(out@) =~= o + open_message(old(self)@).1); }
    }

    fn open_part(&mut self, out: &mut Vec<Json>)
        ensures
            final(self)@ == open_part(old(self)@).0,
            jv_seq(final(out)@) == jv_seq(old(out)@) + open_part(old(self)@).1,
    {
        if self.has_sent_content_part {
            proof { assert(jv_seq(out@) =~= jv_seq(out@) + Seq::<JsonV>::empty()); }
            return;
        }
        self.has_sent_content_part = true;
        let ev = self.part_added_json();
        let ghost o = jv_seq(out@);
        push_event(out, ev);
        proof { assert(jv_seq(out@) =~= o + open_part(old(self)@).1); }
    }

    fn emit_text(&mut self, out: &mut Vec<Json>, t: &str)
        ensures
            final(self)@ == emit_text(old(self)@, t@).0,
            jv_seq(final(out)@) == jv_seq(old(out)@) + emit_text(old(self)@, t@).1,
    {
        let ghost o0 = jv_seq(out@);
        self.open_message(out);
        let ghost o1 = jv_seq(out@);
        let ghost a = self@;
        self.open_part(out);
        let ghost o2 = jv_seq(out@);
        let mut buf = str_chars(self.text_buffer.as_str());
        push_str(&mut buf, t);
        self.text_buffer = string_from_chars(&buf);
        let ev = self.text_delta_json(t);
        push_event(out, ev);
        proof {
            let (_, p) = open_message(old(self)@);
            let (_, q) = open_part(a);
            assert(jv_seq(out@) =~= o0 + (p + q + seq![text_delta_event(self@, t@)]));
        }
    }
}

fn text_or_default(j: &Json, key: &str, d: &str) -> (r: String)
    ensures
        r@ == text_or(get(*j, key@), d@),
{
    match json::as_str(json::get_member(j, key)) {
        Some(t) => t.clone(),
        None => owned(d),
    }
}

/// The plain value of an optional text.
pub open spec fn opt_chars(r: Option<&String>) -> Option<Seq<char>> {
    match r {
        Some(t) => Some(t@),
        None => None,
    }
}

impl StreamState {
    fn content(&mut self, out: &mut Vec<Json>, raw: &str)
        ensures
            final(self)@ == content_step(old(self)@, raw@).0,
            jv_seq(final(out)@) == jv_seq(old(out)@) + content_step(old(self)@, raw@).1,
            final(self)@.calls == old(self)@.calls,
            final(self)@.response_id == old(self)@.response_id,
    {
        let ghost o0 = jv_seq(out@);
        if str_chars(raw).len() == 0 {
            proof { assert(jv_seq(out@) =~= o0 + Seq::<JsonV>::empty()); }
            return;
        }
        let cleaned = crate::codex_translator::sanitize_output_text(raw);
        let content: String = match cleaned {
            std::borrow::Cow::Borrowed(b) => owned(b),
            std::borrow::Cow::Owned(o) => o,
        };
        if str_chars(content.as_str()).len() == 0 {
            proof { assert(jv_seq(out@) =~= o0 + Seq::<JsonV>::empty()); }
            return;
        }
        if !self.has_sent_output_item && !self.has_sent_reasoning && !self.is_thinking_block {
            if crate::codex_translator::is_thinking_marker(content.as_str()) {
                self.is_thinking_block = true;
            }
        }
        if self.is_thinking_block {
            self.thinking(out, content.as_str());
        } else {
            self.emit_text(out, content.as_str());
        }
    }
}

impl StreamState {
    fn thinking(&mut self, out: &mut Vec<Json>, content: &str)
        ensures
            final(self)@ == thinking_step(old(self)@, content@).0,
            jv_seq(final(out)@) == jv_seq(old(out)@) + thinking_step(old(self)@, content@).1,
            final(self)@.calls == old(self)@.calls,
            final(self)@.response_id == old(self)@.response_id,
    {
        let ghost o0 = jv_seq(out@);
        let mut comb = str_chars(self.reasoning_buffer.as_str());
        push_str(&mut comb, content);
        let combined = string_from_chars(&comb);
        match crate::codex_translator::find_thinking_delimiter(combined.as_str()) {
            Some((pos, len)) => {
                let thinking = crate::text::slice_chars(&comb, 0, pos);
                let after = crate::text::trim_start(&crate::text::slice_chars(&comb, pos + len, comb.len()));
                proof {
                    assert(thinking@ =~= combined@.take(pos as int));
                    assert(comb@.subrange((pos + len) as int, comb@.len() as int) =~= combined@.skip(pos + len));
                }
                self.open_reasoning(out, 0);
                let ghost o1 = jv_seq(out@);
                self.reasoning_buffer = string_from_chars(&thinking);
                self.is_thinking_block = false;
                self.output_index = 1;
                self.tool_call_output_index = 2;
                if after.len() > 0 {
                    let a = string_from_chars(&after);
                    self.emit_text(out, a.as_str());
                    proof {
                        assert(jv_seq(out@) =~= o0 + thinking_step(old(self)@, content@).1);
                    }
                }
            },
            None => {
                self.open_reasoning(out, 0);
                self.reasoning_buffer = combined;
            },
        }
    }
}

impl StreamState {
    fn reasoning(&mut self, out: &mut Vec<Json>, r: Option<&String>)
        ensures
            final(self)@ == reasoning_step(old(self)@, opt_chars(r)).0,
            jv_seq(final(out)@) == jv_seq(old(out)@) + reasoning_step(old(self)@, opt_chars(r)).1,
            final(self)@.calls == old(self)@.calls,
            final(self)@.response_id == old(self)@.response_id,
    {
        match r {
            Some(t) => {
                if str_chars(t.as_str()).len() > 0 {
                    let index: u32 = if self.has_sent_output_item { 1 } else { 0 };
                    self.open_reasoning(out, index);
                    let mut b = str_chars(self.reasoning_buffer.as_str());
                    push_str(&mut b, t.as_str());
                    self.reasoning_buffer = string_from_chars(&b);
                } else {
                    proof { assert(jv_seq(out@) =~= jv_seq(out@) + Seq::<JsonV>::empty()); }
                }
            },
            None => {
                proof { assert(jv_seq(out@) =~= jv_seq(out@) + Seq::<JsonV>::empty()); }
            },
        }
    }

    fn tool_open(&mut self, out: &mut Vec<Json>, k: u32, id: &String, name: &String)
        requires
            calls_sorted(old(self)@.calls),
        ensures
            final(self)@ == tool_open_step(old(self)@, k, id@, name@).0,
            jv_seq(final(out)@) == jv_seq(old(out)@) + tool_open_step(old(self)@, k, id@, name@).1,
            calls_sorted(final(self)@.calls),
            final(self)@.response_id == old(self)@.response_id,
    {
        let ghost m0 = self@;
        let ghost o0 = jv_seq(out@);
        if call_position(&self.tool_calls, k).is_none() && str_chars(id.as_str()).len() > 0 {
            let p = insert_position(&self.tool_calls, k);
            let entry = ToolCallEntry { id: id.clone(), name: name.clone(), arguments: String::new() };
            let ghost cv = call_view(entry);
            self.tool_calls.insert(p, (k, entry));
            proof {
                assert(calls_view(self.tool_calls@) =~= call_insert(m0.calls, k, cv));
                lemma_insert_sorted(m0.calls, k, cv);
                reveal_strlit("");
                assert(""@ =~= Seq::<char>::empty());
            }
            let item = call_item_json(id.as_str(), name.as_str(), "");
            let e = item_event_json("response.output_item.added", self.tool_call_output_index as u64, item);
            push_event(out, e);
            proof { assert(jv_seq(out@) =~= o0 + tool_open_step(m0, k, id@, name@).1); }
        } else {
            proof { assert(jv_seq(out@) =~= o0 + Seq::<JsonV>::empty()); }
        }
    }

    fn tool_args(&mut self, out: &mut Vec<Json>, k: u32, args: &String)
        requires
            calls_sorted(old(self)@.calls),
        ensures
            final(self)@ == tool_args_step(old(self)@, k, args@).0,
            jv_seq(final(out)@) == jv_seq(old(out)@) + tool_args_step(old(self)@, k, args@).1,
            calls_sorted(final(self)@.calls),
            final(self)@.response_id == old(self)@.response_id,
    {
        let ghost a = self@;
        let ghost o0 = jv_seq(out@);
        match call_position(&self.tool_calls, k) {
            Some(i) => {
                if str_chars(args.as_str()).len() > 0 {
                    proof {
                        lemma_first_where_props(a.calls, call_named(k));
                    }
                    let cid = self.tool_calls[i].1.id.clone();
                    let mut b = str_chars(self.tool_calls[i].1.arguments.as_str());
                    push_str(&mut b, args.as_str());
                    let entry = ToolCallEntry { id: cid.clone(), name: self.tool_calls[i].1.name.clone(), arguments: string_from_chars(&b) };
                    let e = self.args_delta_json(args.as_str(), cid.as_str());
                    let ghost c = a.calls[i as int].1;
                    self.tool_calls.set(i, (k, entry));
                    proof {
                        assert(calls_view(self.tool_calls@) =~= a.calls.update(i as int, (k, CallModel { arguments: c.arguments + args@, ..c })));
                        assert forall|x: int, y: int| 0 <= x < y < self@.calls.len() implies self@.calls[x].0 < self@.calls[y].0 by {
                            assert(a.calls[x].0 < a.calls[y].0);
                        }
                    }
                    push_event(out, e);
                    proof { assert(jv_seq(out@) =~= o0 + tool_args_step(a, k, args@).1); }
                } else {
                    proof { assert(jv_seq(out@) =~= o0 + Seq::<JsonV>::empty()); }
                }
            },
            None => {
                proof { assert(jv_seq(out@) =~= o0 + Seq::<JsonV>::empty()); }
            },
        }
    }

    fn tool(&mut self, out: &mut Vec<Json>, tc: &Json)
        requires
            calls_sorted(old(self)@.calls),
        ensures
            final(self)@ == tool_step(old(self)@, *tc).0,
            jv_seq(final(out)@) == jv_seq(old(out)@) + tool_step(old(self)@, *tc).1,
            calls_sorted(final(self)@.calls),
            final(self)@.response_id == old(self)@.response_id,
    {
        proof {
            reveal_strlit("");
            assert(""@ =~= Seq::<char>::empty());
        }
        let ghost m0 = self@;
        let ghost o0 = jv_seq(out@);
        let k: u32 = match json::as_u64(json::get_member(tc, "index")) {
            Some(n) => n as u32,
            None => 0,
        };
        let id = text_or_default(tc, "id", "");
        let f = json::get_member(tc, "function");
        let name = match json::as_str(json::get_in(f, "name")) {
            Some(t) => t.clone(),
            None => owned(""),
        };
        let args = match json::as_str(json::get_in(f, "arguments")) {
            Some(t) => t.clone(),
            None => owned(""),
        };
        self.tool_open(out, k, &id, &name);
        let ghost a = self@;
        let ghost o1 = jv_seq(out@);
        self.tool_args(out, k, &args);
        proof {
            assert(jv_seq(out@) =~= o0 + (tool_open_step(m0, k, id@, name@).1 + tool_args_step(a, k, args@).1));
        }
    }

    fn tools(&mut self, out: &mut Vec<Json>, tcs: &Vec<Json>)
        requires
            calls_sorted(old(self)@.calls),
        ensures
            final(self)@ == tools_step(old(self)@, tcs@).0,
            jv_seq(final(out)@) == jv_seq(old(out)@) + tools_step(old(self)@, tcs@).1,
            calls_sorted(final(self)@.calls),
            final(self)@.response_id == old(self)@.response_id,
    {
        let ghost m0 = self@;
        let ghost o0 = jv_seq(out@);
        let mut i: usize = 0;
        proof {
            assert(tcs@.take(0) =~= Seq::<Json>::empty());
            assert(jv_seq(out@) =~= o0 + Seq::<JsonV>::empty());
        }
        while i < tcs.len()
            invariant
                i <= tcs.len(),
                m0 == old(self)@,
                o0 == jv_seq(old(out)@),
                self@ == tools_step(m0, tcs@.take(i as int)).0,
                jv_seq(out@) == o0 + tools_step(m0, tcs@.take(i as int)).1,
                calls_sorted(self@.calls),
                self@.response_id == m0.response_id,
            decreases tcs.len() - i,
        {
            proof {
                assert(tcs@.take(i + 1).drop_last() =~= tcs@.take(i as int));
            }
            let ghost oi = jv_seq(out@);
            self.tool(out, &tcs[i]);
            proof {
                let prev = tools_step(m0, tcs@.take(i as int));
                assert(jv_seq(out@) =~= o0 + (prev.1 + tool_step(prev.0, tcs@[i as int]).1));
            }
            i += 1;
        }
        proof {
            assert(tcs@.take(i as int) =~= tcs@);
        }
    }

    fn flush(&self, out: &mut Vec<Json>)
        ensures
            jv_seq(final(out)@) == jv_seq(old(out)@) + flush_events(self@),
    {
        let ghost m = self@;
        let ghost o0 = jv_seq(out@);
        if self.has_sent_content_part {
            let a = self.text_done_json();
            push_event(out, a);
            let b = self.part_done_json();
            push_event(out, b);
        }
        let ghost o1 = jv_seq(out@);
        if self.has_sent_output_item && self.has_sent_content_part {
            let item = self.message_item_json(true);
            let e = item_event_json("response.output_item.done", self.output_index as u64, item);
            push_event(out, e);
        }
        let ghost o2 = jv_seq(out@);
        if self.has_sent_reasoning && str_chars(self.reasoning_buffer.as_str()).len() > 0 {
            let item = self.reasoning_item_json(self.reasoning_buffer.as_str());
            let e = item_event_json("response.output_item.done", self.reasoning_output_index as u64, item);
            push_event(out, e);
        }
        let ghost o3 = jv_seq(out@);
        proof {
            assert(o3 =~= o0 + ((if m.has_sent_content_part { seq![text_done_event(m), part_done_event(m)] } else { Seq::empty() })
                + (if m.has_sent_output_item && m.has_sent_content_part {
                    seq![item_done(m.output_index as int, message_item(m, seq![output_text_part(m.text_buffer)]))]
                } else {
                    Seq::empty()
                })
                + (if m.has_sent_reasoning && m.reasoning_buffer.len() > 0 {
                    seq![item_done(m.reasoning_output_index as int, reasoning_item(m, m.reasoning_buffer))]
                } else {
                    Seq::empty()
                })));
            assert(m.calls.take(0) =~= Seq::<(u32, CallModel)>::empty());
        }
        let mut c: usize = 0;
        while c < self.tool_calls.len()
            invariant
                c <= self.tool_calls.len(),
                m == self@,
                jv_seq(out@) == o3 + calls_done(m, m.calls.take(c as int), 0),
            decreases self.tool_calls.len() - c,
        {
            proof {
                assert(m.calls.take(c + 1).drop_last() =~= m.calls.take(c as int));
            }
            let e = &self.tool_calls[c].1;
            let args = crate::codex_translator::sanitize_tool_arguments(e.arguments.as_str());
            let k128: u128 = if self.has_sent_output_item {
                if self.has_sent_reasoning { 2 + c as u128 } else { 1 + c as u128 }
            } else {
                c as u128
            };
            let k: u64 = k128 as u64;
            proof {
                assert(k as int == (call_output_index(m, c as int) as u64) as int);
            }
            let a = args_done_json(e.id.as_str(), k, args.as_str());
            push_event(out, a);
            let item = call_item_json(e.id.as_str(), e.name.as_str(), args.as_str());
            let d = item_event_json("response.output_item.done", k, item);
            push_event(out, d);
            proof {
                let prev = calls_done(m, m.calls.take(c as int), 0);
                assert(jv_seq(out@) =~= o3 + calls_done(m, m.calls.take(c + 1), 0));
            }
            c += 1;
        }
        proof {
            assert(m.calls.take(c as int) =~= m.calls);
            assert(jv_seq(out@) =~= o0 + flush_events(m));
        }
    }
}

impl StreamState {
    fn completed_json(&self) -> (r: Json)
        ensures
            jv(r) == completed_event(self@),
    {
        let ghost m = self@;
        let mut output: Vec<Json> = Vec::new();
        if self.has_sent_reasoning && str_chars(self.reasoning_buffer.as_str()).len() > 0 {
            output.push(self.reasoning_item_json(self.reasoning_buffer.as_str()));
        }
        if self.has_sent_output_item {
            output.push(self.message_item_json(true));
        }
        let ghost head = jv_seq(output@);
        proof {
            json::lemma_jv_seq(output@);
            assert(head =~= (if m.has_sent_reasoning && m.reasoning_buffer.len() > 0 { seq![reasoning_item(m, m.reasoning_buffer)] } else { Seq::empty() })
                + (if m.has_sent_output_item { seq![message_item(m, seq![output_text_part(m.text_buffer)])] } else { Seq::empty() }));
            assert(m.calls.take(0) =~= Seq::<(u32, CallModel)>::empty());
            assert(head =~= head + call_items(m.calls.take(0)));
        }
        let mut c: usize = 0;
        while c < self.tool_calls.len()
            invariant
                c <= self.tool_calls.len(),
                m == self@,
                jv_seq(output@) == head + call_items(m.calls.take(c as int)),
            decreases self.tool_calls.len() - c,
        {
            proof {
                assert(m.calls.take(c + 1).drop_last() =~= m.calls.take(c as int));
            }
            let e = &self.tool_calls[c].1;
            let args = crate::codex_translator::sanitize_tool_arguments(e.arguments.as_str());
            let ghost before = output@;
            output.push(call_item_json(e.id.as_str(), e.name.as_str(), args.as_str()));
            proof {
                assert(output@.drop_last() =~= before);
                assert(jv_seq(output@) =~= head + call_items(m.calls.take(c + 1)));
            }
            c += 1;
        }
        proof {
            assert(m.calls.take(c as int) =~= m.calls);
        }
        let mut h = self.head("completed");
        let ghost h0 = h@;
        h.push(vm("output", Json::Array(output)));
        proof {
            json::lemma_jv_members(h0);
            json::lemma_jv_members(h@);
            assert(jv_members(h@) =~= response_head(m, "completed"@).push(("output"@, JsonV::Array(final_output(m)))));
        }
        let mut es: Vec<(String, Json)> = Vec::new();
        es.push(tm("type", "response.completed"));
        es.push(vm("response", Json::Object(h)));
        proof {
            json::lemma_jv_members(es@);
            assert(jv_members(es@) =~= completed_event(m)->Object_0);
        }
        Json::Object(es)
    }

    /// Closes the open items and completes the response (once; the closing
    /// events are sent again when called twice).
    pub fn complete(&mut self, out: &mut Vec<Json>)
        ensures
            final(self)@ == complete_step(old(self)@).0,
            jv_seq(final(out)@) == jv_seq(old(out)@) + complete_step(old(self)@).1,
            final(self)@.response_id == old(self)@.response_id,
            final(self)@.calls == old(self)@.calls,
    {
        let ghost o0 = jv_seq(out@);
        self.flush(out);
        if self.is_completed {
            return;
        }
        let e = self.completed_json();
        self.is_completed = true;
        push_event(out, e);
        proof {
            assert(jv_seq(out@) =~= o0 + complete_step(old(self)@).1);
        }
    }

    /// Fails the response with a message.
    pub fn fail(&mut self, out: &mut Vec<Json>, msg: &str)
        ensures
            final(self)@ == failure_step(old(self)@, msg@).0,
            jv_seq(final(out)@) == jv_seq(old(out)@) + failure_step(old(self)@, msg@).1,
            final(self)@.response_id == old(self)@.response_id,
            final(self)@.calls == old(self)@.calls,
    {
        let e = self.failure_json(msg);
        self.is_completed = true;
        let ghost o0 = jv_seq(out@);
        push_event(out, e);
        proof {
            assert(jv_seq(out@) =~= o0 + failure_step(old(self)@, msg@).1);
        }
    }

    fn announce(&mut self, out: &mut Vec<Json>)
        ensures
            final(self)@ == announce_step(old(self)@).0,
            jv_seq(final(out)@) == jv_seq(old(out)@) + announce_step(old(self)@).1,
            final(self)@.calls == old(self)@.calls,
            final(self)@.response_id == old(self)@.response_id,
    {
        let ghost o0 = jv_seq(out@);
        proof { reveal(announce_step); }
        if !self.has_sent_created {
            self.has_sent_created = true;
            let e = self.progress_json("response.created");
            push_event(out, e);
        }
        if !self.has_sent_in_progress {
            self.has_sent_in_progress = true;
            let e = self.progress_json("response.in_progress");
            push_event(out, e);
        }
        proof {
            assert(jv_seq(out@) =~= o0 + announce_step(old(self)@).1);
        }
    }

    fn texts(&mut self, out: &mut Vec<Json>, delta: &Json, choice: &Json)
        ensures
            final(self)@ == texts_step(old(self)@, *delta, *choice).0,
            jv_seq(final(out)@) == jv_seq(old(out)@) + texts_step(old(self)@, *delta, *choice).1,
            final(self)@.calls == old(self)@.calls,
            final(self)@.response_id == old(self)@.response_id,
    {
        proof { reveal(texts_step); }
        let ghost o0 = jv_seq(out@);
        match json::as_str(json::get_member(delta, "content")) {
            Some(raw) => self.content(out, raw.as_str()),
            None => {
                proof { assert(jv_seq(out@) =~= jv_seq(out@) + Seq::<JsonV>::empty()); }
            },
        }
        let ghost c = self@;
        let ghost oc = jv_seq(out@);
        let r = match crate::codex_translator::extract_reasoning_content(delta) {
            Some(t) => Some(t),
            None => crate::codex_translator::extract_reasoning_content(choice),
        };
        self.reasoning(out, r);
        proof {
            assert(jv_seq(out@) =~= o0 + texts_step(old(self)@, *delta, *choice).1);
        }
    }

    fn calls_finish(&mut self, out: &mut Vec<Json>, delta: &Json, choice: &Json)
        requires
            calls_sorted(old(self)@.calls),
        ensures
            final(self)@ == calls_finish_step(old(self)@, *delta, *choice).0,
            jv_seq(final(out)@) == jv_seq(old(out)@) + calls_finish_step(old(self)@, *delta, *choice).1,
            calls_sorted(final(self)@.calls),
            final(self)@.response_id == old(self)@.response_id,
    {
        proof { reveal(calls_finish_step); }
        let ghost o0 = jv_seq(out@);
        match json::as_array(json::get_member(delta, "tool_calls")) {
            Some(tcs) => self.tools(out, tcs),
            None => {
                proof { assert(jv_seq(out@) =~= jv_seq(out@) + Seq::<JsonV>::empty()); }
            },
        }
        let closing = match json::as_str(json::get_member(choice, "finish_reason")) {
            Some(t) => *t == owned("stop") || *t == owned("length") || *t == owned("tool_calls") || *t == owned("content_filter"),
            None => false,
        };
        if closing {
            self.complete(out);
        } else {
            proof { assert(jv_seq(out@) =~= jv_seq(out@) + Seq::<JsonV>::empty()); }
        }
        proof {
            assert(jv_seq(out@) =~= o0 + calls_finish_step(old(self)@, *delta, *choice).1);
        }
    }

    fn choice(&mut self, out: &mut Vec<Json>, choice: &Json)
        requires
            stream_wf(old(self)@),
        ensures
            final(self)@ == choice_step(old(self)@, *choice).0,
            jv_seq(final(out)@) == jv_seq(old(out)@) + choice_step(old(self)@, *choice).1,
            stream_wf(final(self)@),
    {
        let ghost m0 = self@;
        let ghost o0 = jv_seq(out@);
        let delta = match json::get_member(choice, "delta") {
            Some(d) => d,
            None => {
                proof { assert(jv_seq(out@) =~= o0 + Seq::<JsonV>::empty()); }
                return;
            },
        };
        self.announce(out);
        self.texts(out, delta, choice);
        self.calls_finish(out, delta, choice);
        proof {
            assert(jv_seq(out@) =~= o0 + choice_step(m0, *choice).1);
        }
    }

    fn choices(&mut self, out: &mut Vec<Json>, cs: &Vec<Json>)
        requires
            stream_wf(old(self)@),
        ensures
            final(self)@ == choices_step(old(self)@, cs@).0,
            jv_seq(final(out)@) == jv_seq(old(out)@) + choices_step(old(self)@, cs@).1,
            stream_wf(final(self)@),
    {
        let ghost m0 = self@;
        let ghost o0 = jv_seq(out@);
        let mut i: usize = 0;
        proof {
            assert(cs@.take(0) =~= Seq::<Json>::empty());
            assert(jv_seq(out@) =~= o0 + Seq::<JsonV>::empty());
        }
        while i < cs.len()
            invariant
                i <= cs.len(),
                m0 == old(self)@,
                o0 == jv_seq(old(out)@),
                self@ == choices_step(m0, cs@.take(i as int)).0,
                jv_seq(out@) == o0 + choices_step(m0, cs@.take(i as int)).1,
                stream_wf(self@),
            decreases cs.len() - i,
        {
            proof {
                assert(cs@.take(i + 1).drop_last() =~= cs@.take(i as int));
            }
            self.choice(out, &cs[i]);
            proof {
                let prev = choices_step(m0, cs@.take(i as int));
                assert(jv_seq(out@) =~= o0 + (prev.1 + choice_step(prev.0, cs@[i as int]).1));
            }
            i += 1;
        }
        proof {
            assert(cs@.take(i as int) =~= cs@);
        }
    }
}

impl StreamState {
    fn upstream_error_message(j: &Json) -> (r: String)
        ensures
            r@ == upstream_error_text(*j),
    {
        let e = json::get_member(j, "error");
        let msg = match json::as_str(json::get_in(e, "message")) {
            Some(t) => t.clone(),
            None => owned("Unknown upstream error"),
        };
        let code = match json::as_str(json::get_in(e, "code")) {
            Some(t) => t.clone(),
            None => owned("unknown"),
        };
        let mut v: Vec<char> = Vec::new();
        push_str(&mut v, "Upstream error: ");
        push_str(&mut v, msg.as_str());
        push_str(&mut v, " (code: ");
        push_str(&mut v, code.as_str());
        push_str(&mut v, ")");
        proof {
            assert(v@ =~= upstream_error_text(*j));
        }
        string_from_chars(&v)
    }

    /// One parsed chunk (see [`chunk_step`]).
    pub fn handle_chunk(&mut self, out: &mut Vec<Json>, j: &Json)
        requires
            stream_wf(old(self)@),
        ensures
            final(self)@ == chunk_step(old(self)@, *j).0,
            jv_seq(final(out)@) == jv_seq(old(out)@) + chunk_step(old(self)@, *j).1,
            stream_wf(final(self)@),
    {
        proof {
            reveal_strlit("resp_");
        }
        match json::as_str(json::get_member(j, "id")) {
            Some(id) => {
                let idc = str_chars(id.as_str());
                if idc.len() > 0 {
                    let mut v: Vec<char> = Vec::new();
                    push_str(&mut v, "resp_");
                    let rest = strip_all(&idc, "chatcmpl-");
                    crate::text::push_all(&mut v, &rest);
                    self.response_id = string_from_chars(&v);
                }
            },
            None => {},
        }
        if str_chars(self.model_name.as_str()).len() == 0 {
            match json::as_str(json::get_member(j, "model")) {
                Some(md) => {
                    self.model_name = md.clone();
                },
                None => {},
            }
        }
        let ghost m2 = self@;
        if json::get_member(j, "error").is_some() {
            if self.is_completed {
                proof { assert(jv_seq(out@) =~= jv_seq(out@) + Seq::<JsonV>::empty()); }
                return;
            }
            let msg = Self::upstream_error_message(j);
            self.fail(out, msg.as_str());
            return;
        }
        match json::as_array(json::get_member(j, "choices")) {
            Some(cs) => self.choices(out, cs),
            None => {
                proof { assert(jv_seq(out@) =~= jv_seq(out@) + Seq::<JsonV>::empty()); }
            },
        }
    }

    /// One SSE line (see [`line_step`]).
    pub fn feed_line(&mut self, out: &mut Vec<Json>, line: &str)
        requires
            stream_wf(old(self)@),
        ensures
            final(self)@ == line_step(old(self)@, line@).0,
            jv_seq(final(out)@) == jv_seq(old(out)@) + line_step(old(self)@, line@).1,
            stream_wf(final(self)@),
    {
        proof {
            reveal_strlit("data:");
        }
        let ghost o0 = jv_seq(out@);
        let t = crate::text::trim(&str_chars(line));
        if t.len() == 0 {
            self.pending_sse_fragments.clear();
            proof {
                assert(string_views(self.pending_sse_fragments@) =~= Seq::<Seq<char>>::empty());
                assert(jv_seq(out@) =~= o0 + Seq::<JsonV>::empty());
            }
            return;
        }
        let data: Vec<char> = if crate::text::starts_with(&t, &str_chars("data:")) {
            crate::text::trim(&crate::text::slice_chars(&t, 5, t.len()))
        } else {
            crate::text::trim(&t)
        };
        proof {
            if has_prefix(t@, "data:"@) {
                assert(t@.skip(5) =~= t@.subrange(5, t@.len() as int));
            }
        }
        let ds = string_from_chars(&data);
        if ds == owned("[DONE]") {
            self.pending_sse_fragments.clear();
            proof {
                assert(string_views(self.pending_sse_fragments@) =~= Seq::<Seq<char>>::empty());
            }
            if self.is_completed {
                proof { assert(jv_seq(out@) =~= o0 + Seq::<JsonV>::empty()); }
                return;
            }
            if self.has_sent_created {
                self.complete(out);
            } else {
                proof {
                    reveal_strlit("Upstream returned no streaming data ([DONE] with empty body).");
                }
                self.fail(out, "Upstream returned no streaming data ([DONE] with empty body).");
            }
            return;
        }
        match parse_sse_line(&mut self.pending_sse_fragments, ds.as_str()) {
            None => {
                proof { assert(jv_seq(out@) =~= o0 + Seq::<JsonV>::empty()); }
            },
            Some(doc) => self.handle_chunk(out, &doc),
        }
    }

    /// A piece of upstream data (see [`feed_step`]).
    pub fn feed_bytes(&mut self, out: &mut Vec<Json>, chunk: &[u8])
        requires
            stream_wf(old(self)@),
        ensures
            final(self)@ == feed_step(old(self)@, chunk@).0,
            jv_seq(final(out)@) == jv_seq(old(out)@) + feed_step(old(self)@, chunk@).1,
            stream_wf(final(self)@),
    {
        let text = str_chars(lossy(chunk).as_str());
        let ls = split_all(&text);
        let ghost lv = ls@.map_values(|l: Vec<char>| l@);
        let ghost m0 = self@;
        let ghost o0 = jv_seq(out@);
        let mut i: usize = 0;
        proof {
            assert(lv.take(0) =~= Seq::<Seq<char>>::empty());
            assert(jv_seq(out@) =~= o0 + Seq::<JsonV>::empty());
        }
        while i < ls.len()
            invariant
                i <= ls.len(),
                m0 == old(self)@,
                o0 == jv_seq(old(out)@),
                lv == ls@.map_values(|l: Vec<char>| l@),
                lv == split_newlines(lossy_text(chunk@)),
                self@ == lines_step(m0, lv.take(i as int)).0,
                jv_seq(out@) == o0 + lines_step(m0, lv.take(i as int)).1,
                stream_wf(self@),
            decreases ls.len() - i,
        {
            proof {
                assert(lv.take(i + 1).drop_last() =~= lv.take(i as int));
                assert(lv.take(i + 1).last() == ls@[i as int]@);
            }
            let line = string_from_chars(&ls[i]);
            self.feed_line(out, line.as_str());
            proof {
                let prev = lines_step(m0, lv.take(i as int));
                assert(jv_seq(out@) =~= o0 + (prev.1 + line_step(prev.0, line@).1));
            }
            i += 1;
        }
        proof {
            assert(lv.take(i as int) =~= lv);
        }
    }

    fn close(&mut self, out: &mut Vec<Json>, msg: &str)
        ensures
            final(self)@ == close_step(old(self)@, msg@).0,
            jv_seq(final(out)@) == jv_seq(old(out)@) + close_step(old(self)@, msg@).1,
            final(self)@.response_id == old(self)@.response_id,
            final(self)@.calls == old(self)@.calls,
    {
        if self.is_completed {
            proof { assert(jv_seq(out@) =~= jv_seq(out@) + Seq::<JsonV>::empty()); }
            return;
        }
        if self.has_sent_created {
            self.complete(out);
        } else {
            self.fail(out, msg);
        }
    }

    /// The upstream stream ended: an announced response is completed, else it
    /// fails as empty.
    pub fn end_of_input(&mut self, out: &mut Vec<Json>)
        ensures
            final(self)@ == close_step(old(self)@, empty_stream_text()).0,
            jv_seq(final(out)@) == jv_seq(old(out)@) + close_step(old(self)@, empty_stream_text()).1,
            final(self)@.response_id == old(self)@.response_id,
            final(self)@.calls == old(self)@.calls,
    {
        proof {
            reveal_strlit("Upstream returned an empty or unparseable streaming response. Check the upstream provider / relay for errors.");
        }
        self.close(out, "Upstream returned an empty or unparseable streaming response. Check the upstream provider / relay for errors.");
    }

    /// No data within [`Self::timeout_secs`]: an announced response is
    /// completed, else it fails as not started.
    pub fn timed_out(&mut self, out: &mut Vec<Json>)
        ensures
            final(self)@ == close_step(old(self)@, first_timeout_text()).0,
            jv_seq(final(out)@) == jv_seq(old(out)@) + close_step(old(self)@, first_timeout_text()).1,
            final(self)@.response_id == old(self)@.response_id,
            final(self)@.calls == old(self)@.calls,
    {
        proof {
            reveal_strlit("Upstream did not return a valid streaming response within 120 seconds. The provider may use an unsupported SSE format.");
        }
        self.close(out, "Upstream did not return a valid streaming response within 120 seconds. The provider may use an unsupported SSE format.");
    }

    /// The last-resort check after the stream loop: whatever is still open is
    /// completed, or fails when nothing valid came.
    pub fn finalize(&mut self, out: &mut Vec<Json>)
        ensures
            final(self)@ == close_step(old(self)@, no_data_text()).0,
            jv_seq(final(out)@) == jv_seq(old(out)@) + close_step(old(self)@, no_data_text()).1,
            final(self)@.response_id == old(self)@.response_id,
            final(self)@.calls == old(self)@.calls,
    {
        proof {
            reveal_strlit("Upstream returned no valid streaming data. The provider may use an incompatible SSE format.");
        }
        self.close(out, "Upstream returned no valid streaming data. The provider may use an incompatible SSE format.");
    }

    /// An upstream transport error (its text `err`): the response fails
    /// unless it was completed.
    pub fn upstream_error(&mut self, out: &mut Vec<Json>, err: &str)
        ensures
            final(self)@ == error_end_step(old(self)@, err@).0,
            jv_seq(final(out)@) == jv_seq(old(out)@) + error_end_step(old(self)@, err@).1,
            final(self)@.response_id == old(self)@.response_id,
            final(self)@.calls == old(self)@.calls,
    {
        if self.is_completed {
            proof { assert(jv_seq(out@) =~= jv_seq(out@) + Seq::<JsonV>::empty()); }
            return;
        }
        let mut v: Vec<char> = Vec::new();
        push_str(&mut v, "Upstream stream error: ");
        push_str(&mut v, err);
        let msg = string_from_chars(&v);
        self.fail(out, msg.as_str());
    }
}

fn split_all(s: &Vec<char>) -> (r: Vec<Vec<char>>)
    ensures
        r@.map_values(|l: Vec<char>| l@) == split_newlines(s@),
{
    let ghost sv = s@;
    let mut out: Vec<Vec<char>> = Vec::new();
    let mut cur: Vec<char> = Vec::new();
    let mut i: usize = 0;
    while i < s.len()
        invariant
            i <= s.len(),
            sv == s@,
            ({
                let p = split_newlines(sv.take(i as int));
                &&& p.len() == out@.len() + 1
                &&& p.last() == cur@
                &&& forall|k: int| 0 <= k < out@.len() ==> #[trigger] out@[k]@ == p[k]
            }),
        decreases s.len() - i,
    {
        proof {
            assert(sv.take(i + 1).drop_last() =~= sv.take(i as int));
            assert(sv.take(i + 1).last() == sv[i as int]);
            crate::text::lemma_split_nonempty(sv.take(i as int));
        }
        if s[i] == '\n' {
            out.push(cur);
            cur = Vec::new();
        } else {
            cur.push(s[i]);
        }
        i += 1;
    }
    proof {
        crate::text::lemma_split_nonempty(sv.take(i as int));
        assert(sv.take(i as int) =~= sv);
    }
    out.push(cur);
    proof {
        let p = split_newlines(sv);
        assert forall|k: int| 0 <= k < out@.len() implies #[trigger] out@[k]@ == p[k] by {}
        assert(out@.map_values(|l: Vec<char>| l@) =~= p);
    }
    out
}

} // verus!
