//! Streaming bridge: a Responses API event stream turned into Chat
//! Completions chunks as it arrives.
//!
//! The translator is a state machine. It is fed the upstream bytes; it cuts
//! them into SSE lines, reassembles payloads that relays split across lines,
//! and turns each event into zero or more chunks. The caller owns the clock
//! and the connection: it feeds bytes, asks what to do when a timer fires,
//! and calls [`StreamTranslatorState::finish`] when the upstream stream ends.
//!
//! What the stream promises its client:
//! - the finish chunk (`finish_reason` set) is sent once, only when the whole
//!   upstream stream ends (end of data, timeout) — `response.completed` and
//!   `[DONE]` never end the turn, so multi-round tool calls are not cut off;
//! - tool calls keep the Chat index they were given, counted over the whole
//!   stream, so calls of several responses do not collide;
//! - argument fragments are forwarded one for one, unmerged;
//! - a malformed payload is skipped and the stream goes on.

use vstd::prelude::*;
use crate::bridge_response::{strip_all, strip_prefixes};
use crate::codex_translator::{parse_sse_line, sse_line_result};
use crate::json::{self, Json, JsonV, get, i64_json, i64_number, jv, jv_members, str_of, u64_json, u64_number, u64_of};
use crate::key_model_map::string_views;
use crate::sorting::{first_where, lemma_first_where, lemma_first_where_props};
use crate::proxy::{lossy, lossy_text};
use crate::responses_bridge::BridgeConfig;
use crate::text::{has_prefix, owned, push_str, split_newlines, str_chars, string_from_chars, trim_ws};

verus! {

// ── State ──

/// One tool call of the stream.
#[derive(Debug)]
pub struct ToolCallState {
    /// The argument fragments received so far, joined.
    pub arguments_buffer: String,
    /// The call's index among the Chat `tool_calls`.
    pub chat_index: u32,
    /// Whether the chunk that opens the call (id and name) was sent.
    pub has_sent_initial: bool,
}

/// The translator's state between two pieces of upstream data.
#[derive(Debug)]
pub struct StreamTranslatorState {
    /// The id of the current response (from `response.created`).
    pub response_id: String,
    pub model_name: String,
    /// Creation time of the chunks (Unix seconds).
    pub created_at: i64,
    /// Whether the chunk with `role: "assistant"` was sent.
    pub has_sent_role: bool,
    /// The message item that text currently belongs to.
    pub text_item_id: Option<String>,
    pub text_output_index: Option<u32>,
    pub has_sent_text_delta: bool,
    /// Tool calls by item id, each id once.
    pub tool_calls: Vec<(String, ToolCallState)>,
    /// Item id of the tool call at an output index, each index once.
    pub output_index_to_item_id: Vec<(u32, String)>,
    /// The Chat index the next tool call gets.
    pub next_tool_chat_index: u32,
    /// Whether the stream was ended (finish or error chunk sent).
    pub is_finished: bool,
    /// Whether any tool call was seen in the whole stream.
    pub has_tool_calls: bool,
    pub has_text_output: bool,
    /// Lines of a payload that is not complete yet.
    pub pending_sse_fragments: Vec<String>,
    /// Bytes after the last complete line.
    pub line_buf: Vec<u8>,
    /// Whether a `[DONE]` line was seen (it does not end the stream).
    pub seen_done: bool,
}

/// A tool call as plain values.
pub struct ToolModel {
    pub arguments: Seq<char>,
    pub chat_index: u32,
    pub has_sent_initial: bool,
}

/// The translator's state as plain values.
#[verifier::ext_equal]
pub struct TranslatorModel {
    pub response_id: Seq<char>,
    pub model_name: Seq<char>,
    pub created_at: i64,
    pub has_sent_role: bool,
    pub text_item_id: Option<Seq<char>>,
    pub text_output_index: Option<u32>,
    pub has_sent_text_delta: bool,
    pub tools: Seq<(Seq<char>, ToolModel)>,
    pub index_map: Seq<(u32, Seq<char>)>,
    pub next_tool_chat_index: u32,
    pub is_finished: bool,
    pub has_tool_calls: bool,
    pub has_text_output: bool,
    pub pending: Seq<Seq<char>>,
    pub line_buf: Seq<u8>,
    pub seen_done: bool,
}

/// The plain value of a tool call.
pub open spec fn tool_view(t: ToolCallState) -> ToolModel {
    ToolModel { arguments: t.arguments_buffer@, chat_index: t.chat_index, has_sent_initial: t.has_sent_initial }
}

/// The plain values of the tool calls.
pub open spec fn tools_view(ts: Seq<(String, ToolCallState)>) -> Seq<(Seq<char>, ToolModel)> {
    ts.map_values(|e: (String, ToolCallState)| (e.0@, tool_view(e.1)))
}

/// The plain values of the index map.
pub open spec fn index_view(ms: Seq<(u32, String)>) -> Seq<(u32, Seq<char>)> {
    ms.map_values(|e: (u32, String)| (e.0, e.1@))
}

/// The plain value of an optional text.
pub open spec fn opt_view(o: Option<String>) -> Option<Seq<char>> {
    match o {
        Some(s) => Some(s@),
        None => None,
    }
}

impl View for StreamTranslatorState {
    type V = TranslatorModel;

    open spec fn view(&self) -> TranslatorModel {
        TranslatorModel {
            response_id: self.response_id@,
            model_name: self.model_name@,
            created_at: self.created_at,
            has_sent_role: self.has_sent_role,
            text_item_id: opt_view(self.text_item_id),
            text_output_index: self.text_output_index,
            has_sent_text_delta: self.has_sent_text_delta,
            tools: tools_view(self.tool_calls@),
            index_map: index_view(self.output_index_to_item_id@),
            next_tool_chat_index: self.next_tool_chat_index,
            is_finished: self.is_finished,
            has_tool_calls: self.has_tool_calls,
            has_text_output: self.has_text_output,
            pending: string_views(self.pending_sse_fragments@),
            line_buf: self.line_buf@,
            seen_done: self.seen_done,
        }
    }
}

/// The state a stream starts in.
pub open spec fn initial_model(model: Seq<char>, created_at: i64) -> TranslatorModel {
    TranslatorModel {
        response_id: Seq::empty(),
        model_name: model,
        created_at,
        has_sent_role: false,
        text_item_id: None,
        text_output_index: None,
        has_sent_text_delta: false,
        tools: Seq::empty(),
        index_map: Seq::empty(),
        next_tool_chat_index: 0,
        is_finished: false,
        has_tool_calls: false,
        has_text_output: false,
        pending: Seq::empty(),
        line_buf: Seq::empty(),
        seen_done: false,
    }
}

// ── What is sent ──

/// A chunk or message sent to the client, before printing: the response id,
/// creation time and model current when it was made, and its content.
pub enum Emitted {
    /// A `chat.completion.chunk` with one choice.
    Chunk { rid: Seq<char>, created: i64, model: Seq<char>, delta: JsonV, finish: Option<Seq<char>> },
    /// A chunk that ends the stream with `finish_reason: "error"` and an
    /// `error` member.
    Failure { rid: Seq<char>, created: i64, model: Seq<char>, error: JsonV },
    /// An upstream payload forwarded as it is.
    Pass(JsonV),
}

/// Whether `id` is a chunk id for response id `rid`: `chatcmpl-` and the id
/// without its `resp_` prefixes, or, with no response id yet, `chatcmpl-` and
/// a random part.
pub open spec fn chunk_id_ok(rid: Seq<char>, id: Seq<char>) -> bool {
    if rid.len() == 0 {
        has_prefix(id, "chatcmpl-"@)
    } else {
        id == "chatcmpl-"@ + strip_prefixes(rid, "resp_"@)
    }
}

/// The one choice of a chunk.
pub open spec fn choice_v(delta: JsonV, finish: Option<Seq<char>>) -> JsonV {
    JsonV::Object(seq![
        ("index"@, u64_number(0)),
        ("delta"@, delta),
        ("finish_reason"@, match finish { Some(f) => JsonV::Str(f), None => JsonV::Null }),
    ])
}

/// The members of a chunk after its id.
pub open spec fn chunk_tail(created: i64, model: Seq<char>, delta: JsonV, finish: Option<Seq<char>>) -> Seq<(Seq<char>, JsonV)> {
    seq![
        ("object"@, JsonV::Str("chat.completion.chunk"@)),
        ("created"@, i64_number(created)),
        ("model"@, JsonV::Str(model)),
        ("choices"@, JsonV::Array(seq![choice_v(delta, finish)])),
    ]
}

/// Whether the first member is an `id` fit for response id `rid`.
pub open spec fn id_ok(ms: Seq<(Seq<char>, JsonV)>, rid: Seq<char>) -> bool {
    &&& ms.len() > 0
    &&& ms[0].0 == "id"@
    &&& match ms[0].1 {
        JsonV::Str(id) => chunk_id_ok(rid, id),
        _ => false,
    }
}

/// An empty object.
pub open spec fn empty_v() -> JsonV {
    JsonV::Object(Seq::empty())
}

/// Whether `v` is what `e` describes.
pub open spec fn emitted_ok(e: Emitted, v: JsonV) -> bool {
    match e {
        Emitted::Chunk { rid, created, model, delta, finish } => match v {
            JsonV::Object(ms) => id_ok(ms, rid) && ms.drop_first() == chunk_tail(created, model, delta, finish),
            _ => false,
        },
        Emitted::Failure { rid, created, model, error } => match v {
            JsonV::Object(ms) => id_ok(ms, rid)
                && ms.drop_first() == chunk_tail(created, model, empty_v(), Some("error"@)).push(("error"@, error)),
            _ => false,
        },
        Emitted::Pass(p) => v == p,
    }
}

/// Whether the sent values are the planned ones, one for one.
pub open spec fn frames_ok(plan: Seq<Emitted>, frames: Seq<Json>) -> bool {
    &&& plan.len() == frames.len()
    &&& forall|i: int| 0 <= i < plan.len() ==> emitted_ok(#[trigger] plan[i], jv(frames[i]))
}

/// Whether `after` is `before` with the planned values appended.
pub open spec fn appended(before: Seq<Json>, after: Seq<Json>, plan: Seq<Emitted>) -> bool {
    &&& after.len() >= before.len()
    &&& after.take(before.len() as int) == before
    &&& frames_ok(plan, after.skip(before.len() as int))
}

/// Appending nothing.
pub proof fn lemma_appended_none(a: Seq<Json>)
    ensures
        appended(a, a, Seq::empty()),
{
    assert(a.take(a.len() as int) =~= a);
    assert(a.skip(a.len() as int) =~= Seq::<Json>::empty());
}

/// Appending in two steps.
pub proof fn lemma_appended_chain(a: Seq<Json>, b: Seq<Json>, c: Seq<Json>, p: Seq<Emitted>, q: Seq<Emitted>)
    requires
        appended(a, b, p),
        appended(b, c, q),
    ensures
        appended(a, c, p + q),
{
    assert(c.take(a.len() as int) =~= b.take(a.len() as int)) by {
        assert(c.take(b.len() as int) == b);
        assert forall|i: int| 0 <= i < a.len() implies c.take(a.len() as int)[i] == b.take(a.len() as int)[i] by {
            assert(c.take(b.len() as int)[i] == c[i]);
        }
    }
    let s = c.skip(a.len() as int);
    assert forall|i: int| 0 <= i < (p + q).len() implies emitted_ok(#[trigger] (p + q)[i], jv(s[i])) by {
        if i < p.len() {
            assert(b.skip(a.len() as int)[i] == b[a.len() + i]);
            assert(c.take(b.len() as int)[a.len() + i] == c[a.len() + i]);
        } else {
            assert(c.skip(b.len() as int)[i - p.len()] == c[b.len() + i - p.len()]);
        }
    }
}

/// Appending one value.
pub proof fn lemma_appended_push(a: Seq<Json>, b: Seq<Json>, p: Seq<Emitted>, j: Json, e: Emitted)
    requires
        appended(a, b, p),
        emitted_ok(e, jv(j)),
    ensures
        appended(a, b.push(j), p.push(e)),
{
    let c = b.push(j);
    assert(appended(b, c, seq![e])) by {
        assert(c.take(b.len() as int) =~= b);
        assert(c.skip(b.len() as int) =~= seq![j]);
    }
    lemma_appended_chain(a, b, c, p, seq![e]);
    assert(p + seq![e] =~= p.push(e));
}

// ── Deltas ──

/// The first delta: `{"role": "assistant", "content": ""}`.
pub open spec fn role_delta() -> JsonV {
    JsonV::Object(seq![("role"@, JsonV::Str("assistant"@)), ("content"@, JsonV::Str(Seq::empty()))])
}

/// A text delta.
pub open spec fn content_delta(t: Seq<char>) -> JsonV {
    JsonV::Object(seq![("content"@, JsonV::Str(t))])
}

/// The delta that opens a tool call: index, id, type and name, no arguments yet.
pub open spec fn tool_initial_delta(idx: u32, call_id: Seq<char>, name: Seq<char>) -> JsonV {
    JsonV::Object(seq![("tool_calls"@, JsonV::Array(seq![JsonV::Object(seq![
        ("index"@, u64_number(idx as u64)),
        ("id"@, JsonV::Str(call_id)),
        ("type"@, JsonV::Str("function"@)),
        ("function"@, JsonV::Object(seq![("name"@, JsonV::Str(name)), ("arguments"@, JsonV::Str(Seq::empty()))])),
    ])]))])
}

/// A delta that carries one argument fragment of a tool call.
pub open spec fn tool_args_delta(idx: u32, args: Seq<char>) -> JsonV {
    JsonV::Object(seq![("tool_calls"@, JsonV::Array(seq![JsonV::Object(seq![
        ("index"@, u64_number(idx as u64)),
        ("function"@, JsonV::Object(seq![("arguments"@, JsonV::Str(args))])),
    ])]))])
}

/// A chunk made in state `m`.
pub open spec fn chunk_of(m: TranslatorModel, delta: JsonV, finish: Option<Seq<char>>) -> Emitted {
    Emitted::Chunk { rid: m.response_id, created: m.created_at, model: m.model_name, delta, finish }
}

/// An error chunk made in state `m`.
pub open spec fn failure_of(m: TranslatorModel, error: JsonV) -> Emitted {
    Emitted::Failure { rid: m.response_id, created: m.created_at, model: m.model_name, error }
}

// ── Steps ──

/// Sending the role chunk once.
pub open spec fn role_step(m: TranslatorModel) -> (TranslatorModel, Seq<Emitted>) {
    if m.has_sent_role {
        (m, Seq::empty())
    } else {
        (TranslatorModel { has_sent_role: true, ..m }, seq![chunk_of(m, role_delta(), None)])
    }
}

/// Sending text (nothing for empty text).
pub open spec fn text_step(m: TranslatorModel, t: Seq<char>) -> (TranslatorModel, Seq<Emitted>) {
    if t.len() == 0 {
        (m, Seq::empty())
    } else {
        let (m1, p) = role_step(m);
        (TranslatorModel { has_sent_text_delta: true, has_text_output: true, ..m1 }, p.push(chunk_of(m1, content_delta(t), None)))
    }
}

/// Opening a tool call.
pub open spec fn initial_step(m: TranslatorModel, idx: u32, call_id: Seq<char>, name: Seq<char>) -> (TranslatorModel, Seq<Emitted>) {
    let (m1, p) = role_step(m);
    (TranslatorModel { has_tool_calls: true, ..m1 }, p.push(chunk_of(m1, tool_initial_delta(idx, call_id, name), None)))
}

/// The finish reason at the end of the stream.
pub open spec fn final_reason(m: TranslatorModel) -> Seq<char> {
    if m.has_tool_calls { "tool_calls"@ } else { "stop"@ }
}

/// Ending the stream: one finish chunk, never twice.
pub open spec fn finish_step(m: TranslatorModel) -> (TranslatorModel, Seq<Emitted>) {
    if m.is_finished {
        (m, Seq::empty())
    } else {
        (TranslatorModel { is_finished: true, ..m }, seq![chunk_of(m, empty_v(), Some(final_reason(m)))])
    }
}


// ── Events ──

/// The text of a string value, or `d`.
pub open spec fn text_or(j: Option<Json>, d: Seq<char>) -> Seq<char> {
    match str_of(j) {
        Some(t) => t,
        None => d,
    }
}

/// The event's `output_index` (0 when absent), cut to 32 bits.
pub open spec fn event_index(data: Json) -> u32 {
    (match u64_of(get(data, "output_index"@)) { Some(n) => n, None => 0 }) as u32
}

/// The index after `i`, counting round at the 32-bit limit.
pub open spec fn next_index(i: u32) -> u32 {
    if i == u32::MAX { 0 } else { (i + 1) as u32 }
}

/// Whether an entry is the tool call `k`.
pub open spec fn tool_named(k: Seq<char>) -> spec_fn((Seq<char>, ToolModel)) -> bool {
    |e: (Seq<char>, ToolModel)| e.0 == k
}

/// Where the tool call `k` is kept.
pub open spec fn tool_pos(ts: Seq<(Seq<char>, ToolModel)>, k: Seq<char>) -> Option<int> {
    first_where(ts, tool_named(k))
}

/// The tool calls with `k` set to `t` (replaced where it was, else added).
pub open spec fn tool_set(ts: Seq<(Seq<char>, ToolModel)>, k: Seq<char>, t: ToolModel) -> Seq<(Seq<char>, ToolModel)> {
    match tool_pos(ts, k) {
        Some(i) => ts.update(i, (k, t)),
        None => ts.push((k, t)),
    }
}

/// The tool call `k` (meaningful where it is kept).
pub open spec fn tool_at(ts: Seq<(Seq<char>, ToolModel)>, k: Seq<char>) -> ToolModel {
    ts[tool_pos(ts, k)->0].1
}

/// Whether an entry is for output index `oi`.
pub open spec fn index_named(oi: u32) -> spec_fn((u32, Seq<char>)) -> bool {
    |e: (u32, Seq<char>)| e.0 == oi
}

/// Where output index `oi` is kept.
pub open spec fn index_pos(ms: Seq<(u32, Seq<char>)>, oi: u32) -> Option<int> {
    first_where(ms, index_named(oi))
}

/// The index map with `oi` set to `k`.
pub open spec fn index_set(ms: Seq<(u32, Seq<char>)>, oi: u32, k: Seq<char>) -> Seq<(u32, Seq<char>)> {
    match index_pos(ms, oi) {
        Some(i) => ms.update(i, (oi, k)),
        None => ms.push((oi, k)),
    }
}

/// `response.created`: the response's id, model (when not empty) and creation time.
pub open spec fn created_step(m: TranslatorModel, data: Json) -> TranslatorModel {
    match get(data, "response"@) {
        Some(r) => {
            let m1 = match str_of(get(r, "id"@)) {
                Some(id) => if id.len() > 0 { TranslatorModel { response_id: id, ..m } } else { m },
                None => m,
            };
            let m2 = match str_of(get(r, "model"@)) {
                Some(md) => if md.len() > 0 { TranslatorModel { model_name: md, ..m1 } } else { m1 },
                None => m1,
            };
            match json::i64_of(get(r, "created_at"@)) {
                Some(c) => TranslatorModel { created_at: c, ..m2 },
                None => m2,
            }
        },
        None => m,
    }
}

/// `response.output_item.added`: a message item is noted; a function call
/// gets the next Chat index and its opening chunk is sent.
pub open spec fn item_added_step(m: TranslatorModel, data: Json) -> (TranslatorModel, Seq<Emitted>) {
    let oi = event_index(data);
    match get(data, "item"@) {
        None => (m, Seq::empty()),
        Some(item) => {
            let ty = text_or(get(item, "type"@), Seq::empty());
            let iid = text_or(get(item, "id"@), Seq::empty());
            if ty == "message"@ {
                (TranslatorModel { text_item_id: Some(iid), text_output_index: Some(oi), has_sent_text_delta: false, ..m }, Seq::empty())
            } else if ty == "function_call"@ {
                let call_id = text_or(get(item, "call_id"@), iid);
                let name = text_or(get(item, "name"@), Seq::empty());
                let idx = m.next_tool_chat_index;
                let m1 = TranslatorModel {
                    next_tool_chat_index: next_index(idx),
                    tools: tool_set(m.tools, iid, ToolModel { arguments: Seq::empty(), chat_index: idx, has_sent_initial: false }),
                    index_map: index_set(m.index_map, oi, iid),
                    ..m
                };
                let (m2, p) = initial_step(m1, idx, call_id, name);
                (TranslatorModel {
                    tools: tool_set(m2.tools, iid, ToolModel { arguments: Seq::empty(), chat_index: idx, has_sent_initial: true }),
                    ..m2
                }, p)
            } else {
                (m, Seq::empty())
            }
        },
    }
}

/// The tool call an argument fragment belongs to: by `item_id` when the
/// event names one, else by its output index.
pub open spec fn found_tool(m: TranslatorModel, data: Json) -> Option<Seq<char>> {
    match str_of(get(data, "item_id"@)) {
        Some(iid) => if tool_pos(m.tools, iid) is Some { Some(iid) } else { None },
        None => match index_pos(m.index_map, event_index(data)) {
            Some(k) => if tool_pos(m.tools, m.index_map[k].1) is Some { Some(m.index_map[k].1) } else { None },
            None => None,
        },
    }
}

/// `response.function_call_arguments.delta`: the fragment is forwarded as it
/// is (the call is opened first if that was not done); a fragment of an
/// unknown call is skipped.
pub open spec fn args_step(m: TranslatorModel, data: Json) -> (TranslatorModel, Seq<Emitted>) {
    let d = text_or(get(data, "delta"@), Seq::empty());
    if d.len() == 0 {
        (m, Seq::empty())
    } else {
        match found_tool(m, data) {
            None => (m, Seq::empty()),
            Some(iid) => {
                let t = tool_at(m.tools, iid);
                let t1 = ToolModel { has_sent_initial: true, ..t };
                let (m1, p1) = if !t.has_sent_initial {
                    let (a, b) = initial_step(m, t.chat_index, Seq::empty(), Seq::empty());
                    (TranslatorModel { tools: tool_set(a.tools, iid, t1), ..a }, b)
                } else {
                    (m, Seq::empty())
                };
                let m2 = TranslatorModel { tools: tool_set(m1.tools, iid, ToolModel { arguments: t.arguments + d, ..t1 }), ..m1 };
                (m2, p1.push(chunk_of(m2, tool_args_delta(t.chat_index, d), None)))
            },
        }
    }
}

/// Whether an item is a function call.
pub open spec fn is_call_item(item: Json) -> bool {
    str_of(get(item, "type"@)) == Some("function_call"@)
}

/// Whether any of the items is a function call.
pub open spec fn calls_in(items: Seq<Json>) -> bool
    decreases items.len(),
{
    items.len() > 0 && (calls_in(items.drop_last()) || is_call_item(items.last()))
}

/// `response.completed` / `response.done`: the id is kept and a function call
/// in the output is noted; nothing is sent and the stream goes on.
pub open spec fn completed_step(m: TranslatorModel, data: Json) -> TranslatorModel {
    match get(data, "response"@) {
        Some(r) => {
            let m1 = match str_of(get(r, "id"@)) {
                Some(id) => if id.len() > 0 { TranslatorModel { response_id: id, ..m } } else { m },
                None => m,
            };
            match json::array_of(get(r, "output"@)) {
                Some(items) => if calls_in(items) { TranslatorModel { has_tool_calls: true, ..m1 } } else { m1 },
                None => m1,
            }
        },
        None => m,
    }
}

/// `response.output_item.done`: a function call item is noted.
pub open spec fn item_done_step(m: TranslatorModel, data: Json) -> TranslatorModel {
    match get(data, "item"@) {
        Some(item) => if is_call_item(item) { TranslatorModel { has_tool_calls: true, ..m } } else { m },
        None => m,
    }
}

/// The `error` member sent for `response.failed`.
pub open spec fn failed_error(data: Json) -> JsonV {
    let e = json::get_opt(get(data, "response"@), "error"@);
    let msg = text_or(json::get_opt(e, "message"@), "Unknown upstream error"@);
    let code = text_or(json::get_opt(e, "code"@), "unknown"@);
    JsonV::Object(seq![("error"@, JsonV::Object(seq![
        ("message"@, JsonV::Str("Upstream error: "@ + msg + " (code: "@ + code + ")"@)),
        ("code"@, JsonV::Str(code)),
    ]))])
}

/// The `error` member sent for an `error` event.
pub open spec fn event_error(data: Json) -> JsonV {
    JsonV::Object(seq![("message"@, JsonV::Str(text_or(get(data, "message"@), "Unknown upstream error"@)))])
}

/// An upstream failure ends the stream with an error chunk (once).
pub open spec fn failure_step(m: TranslatorModel, error: JsonV) -> (TranslatorModel, Seq<Emitted>) {
    if m.is_finished {
        (m, Seq::empty())
    } else {
        (TranslatorModel { is_finished: true, ..m }, seq![failure_of(m, error)])
    }
}

/// Event types that need nothing done.
pub open spec fn quiet_event(t: Seq<char>) -> bool {
    t == "response.in_progress"@ || t == "response.output_text.done"@ || t == "response.content_part.done"@
        || t == "response.content_part.added"@ || t == "response.function_call_arguments.done"@
}

/// One upstream event: the new state, what is sent, and whether the stream ends.
pub open spec fn event_step(m: TranslatorModel, data: Json) -> (TranslatorModel, Seq<Emitted>, bool) {
    let t = text_or(get(data, "type"@), Seq::empty());
    if t == "response.created"@ {
        (created_step(m, data), Seq::empty(), false)
    } else if t == "response.output_item.added"@ {
        let (a, p) = item_added_step(m, data);
        (a, p, false)
    } else if t == "response.output_text.delta"@ {
        let (a, p) = text_step(m, text_or(get(data, "delta"@), Seq::empty()));
        (a, p, false)
    } else if t == "response.function_call_arguments.delta"@ {
        let (a, p) = args_step(m, data);
        (a, p, false)
    } else if t == "response.output_item.done"@ {
        (item_done_step(m, data), Seq::empty(), false)
    } else if t == "response.completed"@ || t == "response.done"@ {
        (completed_step(m, data), Seq::empty(), false)
    } else if t == "response.failed"@ {
        let (a, p) = failure_step(m, failed_error(data));
        (a, p, true)
    } else if t == "error"@ {
        let (a, p) = failure_step(m, event_error(data));
        (a, p, true)
    } else if quiet_event(t) {
        (m, Seq::empty(), false)
    } else if t.len() == 0 {
        if get(data, "choices"@) is Some { (m, seq![Emitted::Pass(jv(data))], false) } else { (m, Seq::empty(), false) }
    } else {
        let (a, p) = text_step(m, text_or(get(data, "delta"@), Seq::empty()));
        let (b, q) = text_step(a, text_or(get(data, "text"@), Seq::empty()));
        (b, p + q, false)
    }
}


// ── Tool-call and index maps ──

fn tool_position(ts: &Vec<(String, ToolCallState)>, k: &String) -> (r: Option<usize>)
    ensures
        match r {
            Some(i) => i < ts@.len() && tool_pos(tools_view(ts@), k@) == Some(i as int),
            None => tool_pos(tools_view(ts@), k@) is None,
        },
{
    let ghost v = tools_view(ts@);
    let ghost f = tool_named(k@);
    let mut i: usize = 0;
    while i < ts.len()
        invariant
            i <= ts.len(),
            v == tools_view(ts@),
            f == tool_named(k@),
            first_where(v.take(i as int), f) is None,
        decreases ts.len() - i,
    {
        proof {
            lemma_first_where(v, f, i as int);
        }
        if ts[i].0 == *k {
            proof {
                assert(f(v[i as int]));
                lemma_first_where(v, f, i + 1);
                lemma_first_where(v, f, v.len() as int);
                assert(v.take(v.len() as int) =~= v);
            }
            return Some(i);
        }
        proof {
            assert(!f(v[i as int]));
        }
        i += 1;
    }
    proof {
        lemma_first_where(v, f, i as int);
        assert(v.take(i as int) =~= v);
    }
    None
}

fn set_tool(ts: &mut Vec<(String, ToolCallState)>, k: String, t: ToolCallState)
    ensures
        tools_view(final(ts)@) == tool_set(tools_view(old(ts)@), k@, tool_view(t)),
{
    let ghost kv = k@;
    let ghost tv = tool_view(t);
    match tool_position(ts, &k) {
        Some(i) => {
            ts.set(i, (k, t));
            proof {
                assert(tools_view(ts@) =~= tools_view(old(ts)@).update(i as int, (kv, tv)));
            }
        },
        None => {
            ts.push((k, t));
            proof {
                assert(tools_view(ts@) =~= tools_view(old(ts)@).push((kv, tv)));
            }
        },
    }
}

fn index_position(ms: &Vec<(u32, String)>, oi: u32) -> (r: Option<usize>)
    ensures
        match r {
            Some(i) => i < ms@.len() && index_pos(index_view(ms@), oi) == Some(i as int),
            None => index_pos(index_view(ms@), oi) is None,
        },
{
    let ghost v = index_view(ms@);
    let ghost f = index_named(oi);
    let mut i: usize = 0;
    while i < ms.len()
        invariant
            i <= ms.len(),
            v == index_view(ms@),
            f == index_named(oi),
            first_where(v.take(i as int), f) is None,
        decreases ms.len() - i,
    {
        proof {
            lemma_first_where(v, f, i as int);
        }
        if ms[i].0 == oi {
            proof {
                assert(f(v[i as int]));
                lemma_first_where(v, f, i + 1);
                lemma_first_where(v, f, v.len() as int);
                assert(v.take(v.len() as int) =~= v);
            }
            return Some(i);
        }
        proof {
            assert(!f(v[i as int]));
        }
        i += 1;
    }
    proof {
        lemma_first_where(v, f, i as int);
        assert(v.take(i as int) =~= v);
    }
    None
}

fn set_index(ms: &mut Vec<(u32, String)>, oi: u32, k: String)
    ensures
        index_view(final(ms)@) == index_set(index_view(old(ms)@), oi, k@),
{
    let ghost kv = k@;
    match index_position(ms, oi) {
        Some(i) => {
            ms.set(i, (oi, k));
            proof {
                assert(index_view(ms@) =~= index_view(old(ms)@).update(i as int, (oi, kv)));
            }
        },
        None => {
            ms.push((oi, k));
            proof {
                assert(index_view(ms@) =~= index_view(old(ms)@).push((oi, kv)));
            }
        },
    }
}

fn text_of<'a>(j: &'a Json, key: &str) -> (r: Option<&'a String>)
    ensures
        match r {
            Some(t) => str_of(get(*j, key@)) == Some(t@),
            None => str_of(get(*j, key@)) is None,
        },
{
    json::as_str(json::get_member(j, key))
}

fn text_or_default(j: &Json, key: &str, d: &str) -> (r: String)
    ensures
        r@ == text_or(get(*j, key@), d@),
{
    match text_of(j, key) {
        Some(t) => t.clone(),
        None => owned(d),
    }
}


fn has_call(items: &Vec<Json>) -> (r: bool)
    ensures
        r == calls_in(items@),
{
    let mut found = false;
    let mut i: usize = 0;
    while i < items.len()
        invariant
            i <= items.len(),
            found == calls_in(items@.take(i as int)),
        decreases items.len() - i,
    {
        proof {
            assert(items@.take(i + 1).drop_last() =~= items@.take(i as int));
        }
        match text_of(&items[i], "type") {
            Some(t) => {
                if *t == owned("function_call") {
                    found = true;
                }
            },
            None => {},
        }
        i += 1;
    }
    proof {
        assert(items@.take(i as int) =~= items@);
    }
    found
}


// ── Lines and bytes ──

/// Bytes kept without a line end before they are dropped.
pub const SSE_LINE_BUFFER_LIMIT: usize = 8388608;

/// What one SSE line did.
#[derive(Debug, Clone, Copy, PartialEq, Eq, Structural)]
pub enum LineOutcome {
    /// Nothing that counts as data (blank line, `event:` line, `[DONE]`).
    Quiet,
    /// Data or an upstream comment arrived (the idle timer restarts).
    Activity,
    /// The line ended the stream.
    Terminated,
}

/// The payload of a trimmed line: after `data:`, none for `event:` lines,
/// else the whole line (some upstreams send bare JSON).
pub open spec fn line_data(t: Seq<char>) -> Option<Seq<char>> {
    if has_prefix(t, "data:"@) {
        Some(trim_ws(t.skip(5)))
    } else if has_prefix(t, "event:"@) {
        None
    } else {
        Some(trim_ws(t))
    }
}

/// One SSE line. A blank line ends an event and drops an unfinished payload;
/// `[DONE]` is noted and does not end the stream; a payload that does not
/// parse (yet) is kept or skipped.
pub open spec fn line_step(m: TranslatorModel, line: Seq<char>) -> (TranslatorModel, Seq<Emitted>, LineOutcome) {
    let t = trim_ws(line);
    if t.len() == 0 {
        (TranslatorModel { pending: Seq::empty(), ..m }, Seq::empty(), LineOutcome::Quiet)
    } else if t[0] == ':' {
        (m, Seq::empty(), LineOutcome::Activity)
    } else {
        match line_data(t) {
            None => (m, Seq::empty(), LineOutcome::Quiet),
            Some(d) => if d == "[DONE]"@ {
                (TranslatorModel { pending: Seq::empty(), seen_done: true, ..m }, Seq::empty(), LineOutcome::Quiet)
            } else {
                let (doc, rest) = sse_line_result(m.pending, d);
                let m1 = TranslatorModel { pending: rest, ..m };
                match doc {
                    None => (m1, Seq::empty(), LineOutcome::Activity),
                    Some(j) => {
                        let (m2, p, end) = event_step(m1, j);
                        (m2, p, if end { LineOutcome::Terminated } else { LineOutcome::Activity })
                    },
                }
            },
        }
    }
}

/// Lines in order, stopping after one that ends the stream: the state, what
/// is sent, whether any data arrived, and whether the stream ended.
pub open spec fn lines_step(m: TranslatorModel, ls: Seq<Seq<char>>) -> (TranslatorModel, Seq<Emitted>, bool, bool)
    decreases ls.len(),
{
    if ls.len() == 0 {
        (m, Seq::empty(), false, false)
    } else {
        let (m1, p1, a1, t1) = lines_step(m, ls.drop_last());
        if t1 {
            (m1, p1, a1, t1)
        } else {
            let (m2, p2, o) = line_step(m1, ls.last());
            (m2, p1 + p2, a1 || o != LineOutcome::Quiet, o == LineOutcome::Terminated)
        }
    }
}

/// The position of the last line end.
pub open spec fn last_newline(b: Seq<u8>) -> Option<int>
    decreases b.len(),
{
    if b.len() == 0 {
        None
    } else if b.last() == 10 {
        Some(b.len() - 1)
    } else {
        last_newline(b.drop_last())
    }
}

/// The lines of a text, as `split_terminator('\n')` gives them.
pub open spec fn pieces_of(text: Seq<char>) -> Seq<Seq<char>> {
    if text.len() == 0 {
        Seq::empty()
    } else if text.last() == '\n' {
        split_newlines(text.drop_last())
    } else {
        split_newlines(text)
    }
}

/// Upstream bytes: only complete lines are read (a line, a `data:` prefix or
/// a multi-byte character cut by the transport waits for the rest); bytes
/// without a line end beyond the limit are dropped.
pub open spec fn feed_step(m: TranslatorModel, chunk: Seq<u8>) -> (TranslatorModel, Seq<Emitted>, bool, bool) {
    let buf = m.line_buf + chunk;
    match last_newline(buf) {
        None => (TranslatorModel { line_buf: if buf.len() > SSE_LINE_BUFFER_LIMIT { Seq::empty() } else { buf }, ..m },
            Seq::empty(), false, false),
        Some(k) => lines_step(TranslatorModel { line_buf: buf.skip(k + 1), ..m }, pieces_of(lossy_text(buf.take(k + 1)))),
    }
}

/// What a piece of upstream data did.
#[derive(Debug, Clone, Copy)]
pub struct Fed {
    /// Whether data or an upstream comment arrived (the idle timer restarts).
    pub data_seen: bool,
    /// Whether the stream ended.
    pub terminated: bool,
}

fn split_pieces(s: &Vec<char>) -> (r: Vec<Vec<char>>)
    ensures
        r@.map_values(|l: Vec<char>| l@) == pieces_of(s@),
{
    let ghost sv = s@;
    let mut out: Vec<Vec<char>> = Vec::new();
    let mut cur: Vec<char> = Vec::new();
    if s.len() == 0 {
        proof {
            assert(out@.map_values(|l: Vec<char>| l@) =~= pieces_of(s@));
        }
        return out;
    }
    let n: usize = if s[s.len() - 1] == '\n' { s.len() - 1 } else { s.len() };
    let mut i: usize = 0;
    while i < n
        invariant
            n <= s.len(),
            i <= n,
            sv == s@,
            ({
                let p = split_newlines(sv.take(i as int));
                &&& p.len() == out@.len() + 1
                &&& p.last() == cur@
                &&& forall|k: int| 0 <= k < out@.len() ==> #[trigger] out@[k]@ == p[k]
            }),
        decreases n - i,
    {
        proof {
            assert(sv.take(i + 1).drop_last() =~= sv.take(i as int));
            assert(sv.take(i + 1).last() == sv[i as int]);
            crate::text::lemma_split_nonempty(sv.take(i as int));
        }
        if s[i] == '\n' {
            out.push(cur);
            cur = Vec::new();
        } else {
            cur.push(s[i]);
        }
        i += 1;
    }
    proof {
        crate::text::lemma_split_nonempty(sv.take(n as int));
        if n < s.len() {
            assert(sv.take(n as int) =~= sv.drop_last());
        } else {
            assert(sv.take(n as int) =~= sv);
        }
    }
    out.push(cur);
    proof {
        let p = split_newlines(sv.take(n as int));
        assert forall|k: int| 0 <= k < out@.len() implies #[trigger] out@[k]@ == p[k] by {}
        assert(out@.map_values(|l: Vec<char>| l@) =~= pieces_of(sv));
    }
    out
}


fn last_line_end(b: &Vec<u8>) -> (r: Option<usize>)
    ensures
        match r {
            Some(k) => k < b@.len() && last_newline(b@) == Some(k as int),
            None => last_newline(b@) is None,
        },
{
    let mut n: usize = b.len();
    proof {
        assert(b@.take(n as int) =~= b@);
    }
    while n > 0
        invariant
            n <= b.len(),
            last_newline(b@) == last_newline(b@.take(n as int)),
        decreases n,
    {
        if b[n - 1] == 10 {
            return Some(n - 1);
        }
        proof {
            assert(b@.take(n as int).drop_last() =~= b@.take(n - 1));
        }
        n -= 1;
    }
    None
}

/// Once a line ends the stream, later lines change nothing.
proof fn lemma_lines_stop(m: TranslatorModel, ls: Seq<Seq<char>>, n: int)
    requires
        0 <= n <= ls.len(),
        lines_step(m, ls.take(n)).3,
    ensures
        lines_step(m, ls) == lines_step(m, ls.take(n)),
    decreases ls.len() - n,
{
    if n < ls.len() {
        assert(ls.take(n + 1).drop_last() =~= ls.take(n));
        lemma_lines_stop(m, ls, n + 1);
    } else {
        assert(ls.take(n) =~= ls);
    }
}

// ── Building chunks ──

fn text_json(s: &str) -> (r: Json)
    ensures
        jv(r) == JsonV::Str(s@),
{
    Json::Str(owned(s))
}

fn member(k: &str, v: Json) -> (r: (String, Json))
    ensures
        r.0@ == k@,
        r.1 == v,
{
    (owned(k), v)
}

impl StreamTranslatorState {
    /// The id of the next chunk.
    fn chunk_id(&self) -> (r: String)
        ensures
            chunk_id_ok(self.response_id@, r@),
    {
        let mut v: Vec<char> = Vec::new();
        push_str(&mut v, "chatcmpl-");
        let rid = str_chars(self.response_id.as_str());
        if rid.len() == 0 {
            let u = str_chars(crate::clock::new_uuid().as_str());
            let ghost head = v@;
            let mut i: usize = 0;
            while i < u.len()
                invariant
                    v@.len() >= head.len(),
                    v@.take(head.len() as int) == head,
                decreases u.len() - i,
            {
                if u[i] != '-' {
                    v.push(u[i]);
                    assert(v@.take(head.len() as int) =~= head);
                }
                i += 1;
            }
        } else {
            let rest = strip_all(&rid, "resp_");
            crate::text::push_all(&mut v, &rest);
        }
        proof {
            reveal_strlit("chatcmpl-");
        }
        string_from_chars(&v)
    }

    fn chunk_members(&self, delta: Json, finish: Option<&str>) -> (r: Vec<(String, Json)>)
        ensures
            id_ok(jv_members(r@), self.response_id@),
            jv_members(r@).drop_first() == chunk_tail(self.created_at, self.model_name@, jv(delta),
                match finish { Some(f) => Some(f@), None => None }),
    {
        let ghost d = jv(delta);
        let mut choice: Vec<(String, Json)> = Vec::new();
        choice.push(member("index", u64_json(0)));
        choice.push(member("delta", delta));
        match finish {
            Some(f) => choice.push(member("finish_reason", text_json(f))),
            None => choice.push(member("finish_reason", Json::Null)),
        }
        let ghost fv: Option<Seq<char>> = match finish { Some(f) => Some(f@), None => None };
        proof {
            json::lemma_jv_members(choice@);
            assert(jv_members(choice@) =~= choice_v(d, fv)->Object_0);
        }
        let mut arr: Vec<Json> = Vec::new();
        arr.push(Json::Object(choice));
        proof {
            json::lemma_jv_seq(arr@);
            assert(json::jv_seq(arr@) =~= seq![choice_v(d, fv)]);
        }
        let mut es: Vec<(String, Json)> = Vec::new();
        es.push(member("id", Json::Str(self.chunk_id())));
        es.push(member("object", text_json("chat.completion.chunk")));
        es.push(member("created", i64_json(self.created_at)));
        es.push(member("model", Json::Str(self.model_name.clone())));
        es.push(member("choices", Json::Array(arr)));
        proof {
            json::lemma_jv_members(es@);
            assert(jv_members(es@).drop_first() =~= chunk_tail(self.created_at, self.model_name@, d, fv));
        }
        es
    }

    fn chunk_json(&self, delta: Json, finish: Option<&str>) -> (r: Json)
        ensures
            emitted_ok(chunk_of(self@, jv(delta), match finish { Some(f) => Some(f@), None => None }), jv(r)),
    {
        Json::Object(self.chunk_members(delta, finish))
    }

    fn push_failure(&self, out: &mut Vec<Json>, error: Json)
        ensures
            appended(old(out)@, final(out)@, seq![failure_of(self@, jv(error))]),
    {
        let ghost e = jv(error);
        let ghost before = out@;
        let mut es = self.chunk_members(Json::Object(Vec::new()), Some("error"));
        let ghost es0 = es@;
        es.push(member("error", error));
        proof {
            reveal_strlit("error");
            json::lemma_jv_members(es0);
            json::lemma_jv_members(es@);
            assert(jv_members(Seq::<(String, Json)>::empty()) =~= Seq::<(Seq<char>, JsonV)>::empty());
            assert(jv_members(es@) =~= jv_members(es0).push(("error"@, e)));
            assert(jv_members(es@).drop_first() =~= jv_members(es0).drop_first().push(("error"@, e)));
        }
        let c = Json::Object(es);
        out.push(c);
        proof {
            lemma_appended_none(before);
            lemma_appended_push(before, before, Seq::empty(), c, failure_of(self@, e));
            assert(Seq::<Emitted>::empty().push(failure_of(self@, e)) =~= seq![failure_of(self@, e)]);
        }
    }

    fn push_chunk(&self, out: &mut Vec<Json>, delta: Json, finish: Option<&str>)
        ensures
            appended(old(out)@, final(out)@, seq![chunk_of(self@, jv(delta), match finish { Some(f) => Some(f@), None => None })]),
    {
        let ghost before = out@;
        let c = self.chunk_json(delta, finish);
        out.push(c);
        proof {
            lemma_appended_none(before);
            lemma_appended_push(before, before, Seq::empty(), c,
                chunk_of(self@, jv(delta), match finish { Some(f) => Some(f@), None => None }));
            assert(Seq::<Emitted>::empty().push(chunk_of(self@, jv(delta), match finish { Some(f) => Some(f@), None => None }))
                =~= seq![chunk_of(self@, jv(delta), match finish { Some(f) => Some(f@), None => None })]);
        }
    }

    /// Sends the `role: "assistant"` chunk, once.
    pub fn send_role_chunk(&mut self, out: &mut Vec<Json>)
        ensures
            final(self)@ == role_step(old(self)@).0,
            appended(old(out)@, final(out)@, role_step(old(self)@).1),
    {
        if self.has_sent_role {
            proof { lemma_appended_none(out@); }
            return;
        }
        self.has_sent_role = true;
        let mut d: Vec<(String, Json)> = Vec::new();
        d.push(member("role", text_json("assistant")));
        d.push(member("content", text_json("")));
        proof {
            json::lemma_jv_members(d@);
            reveal_strlit("");
            assert(""@ =~= Seq::<char>::empty());
            assert(jv_members(d@) =~= role_delta()->Object_0);
        }
        self.push_chunk(out, Json::Object(d), None);
    }

    /// Sends a text delta (nothing for empty text).
    pub fn send_text_delta(&mut self, out: &mut Vec<Json>, text: &str)
        ensures
            final(self)@ == text_step(old(self)@, text@).0,
            appended(old(out)@, final(out)@, text_step(old(self)@, text@).1),
    {
        if str_chars(text).len() == 0 {
            proof { lemma_appended_none(out@); }
            return;
        }
        let ghost o0 = out@;
        self.send_role_chunk(out);
        let ghost o1 = out@;
        self.has_sent_text_delta = true;
        self.has_text_output = true;
        let mut d: Vec<(String, Json)> = Vec::new();
        d.push(member("content", text_json(text)));
        proof {
            json::lemma_jv_members(d@);
            assert(jv_members(d@) =~= content_delta(text@)->Object_0);
        }
        self.push_chunk(out, Json::Object(d), None);
        proof {
            lemma_appended_chain(o0, o1, out@, role_step(old(self)@).1, seq![chunk_of(role_step(old(self)@).0, content_delta(text@), None)]);
            assert(role_step(old(self)@).1 + seq![chunk_of(role_step(old(self)@).0, content_delta(text@), None)]
                =~= role_step(old(self)@).1.push(chunk_of(role_step(old(self)@).0, content_delta(text@), None)));
        }
    }

    /// Sends the chunk that opens a tool call.
    pub fn send_tool_call_initial(&mut self, out: &mut Vec<Json>, chat_index: u32, call_id: &str, name: &str)
        ensures
            final(self)@ == initial_step(old(self)@, chat_index, call_id@, name@).0,
            appended(old(out)@, final(out)@, initial_step(old(self)@, chat_index, call_id@, name@).1),
    {
        let ghost o0 = out@;
        self.send_role_chunk(out);
        let ghost o1 = out@;
        self.has_tool_calls = true;
        let ghost m1 = self@;
        let mut f: Vec<(String, Json)> = Vec::new();
        f.push(member("name", text_json(name)));
        f.push(member("arguments", text_json("")));
        let ghost fv = f@;
        let mut c: Vec<(String, Json)> = Vec::new();
        c.push(member("index", u64_json(chat_index as u64)));
        c.push(member("id", text_json(call_id)));
        c.push(member("type", text_json("function")));
        c.push(member("function", Json::Object(f)));
        let ghost cv = c@;
        let mut arr: Vec<Json> = Vec::new();
        arr.push(Json::Object(c));
        let ghost av = arr@;
        let mut d: Vec<(String, Json)> = Vec::new();
        d.push(member("tool_calls", Json::Array(arr)));
        let ghost delta = tool_initial_delta(chat_index, call_id@, name@);
        proof {
            reveal_strlit("");
            assert(""@ =~= Seq::<char>::empty());
            json::lemma_jv_members(fv);
            json::lemma_jv_members(cv);
            json::lemma_jv_seq(av);
            json::lemma_jv_members(d@);
            assert(jv_members(fv) =~= seq![("name"@, JsonV::Str(name@)), ("arguments"@, JsonV::Str(Seq::empty()))]);
            assert(jv_members(cv) =~= seq![
                ("index"@, u64_number(chat_index as u64)),
                ("id"@, JsonV::Str(call_id@)),
                ("type"@, JsonV::Str("function"@)),
                ("function"@, JsonV::Object(seq![("name"@, JsonV::Str(name@)), ("arguments"@, JsonV::Str(Seq::empty()))])),
            ]);
            assert(json::jv_seq(av) =~= seq![jv(av[0])]);
            assert(jv_members(d@) =~= delta->Object_0);
        }
        self.push_chunk(out, Json::Object(d), None);
        proof {
            let p = role_step(old(self)@).1;
            lemma_appended_chain(o0, o1, out@, p, seq![chunk_of(m1, delta, None)]);
            assert(p + seq![chunk_of(m1, delta, None)] =~= p.push(chunk_of(m1, delta, None)));
        }
    }

    /// Sends one argument fragment of a tool call (nothing for an empty one).
    pub fn send_tool_call_args_delta(&mut self, out: &mut Vec<Json>, chat_index: u32, arguments: &str)
        ensures
            final(self)@ == old(self)@,
            appended(old(out)@, final(out)@,
                if arguments@.len() == 0 { Seq::empty() } else { seq![chunk_of(old(self)@, tool_args_delta(chat_index, arguments@), None)] }),
    {
        if str_chars(arguments).len() == 0 {
            proof { lemma_appended_none(out@); }
            return;
        }
        let mut f: Vec<(String, Json)> = Vec::new();
        f.push(member("arguments", text_json(arguments)));
        let ghost fv = f@;
        let mut c: Vec<(String, Json)> = Vec::new();
        c.push(member("index", u64_json(chat_index as u64)));
        c.push(member("function", Json::Object(f)));
        let ghost cv = c@;
        let mut arr: Vec<Json> = Vec::new();
        arr.push(Json::Object(c));
        let ghost av = arr@;
        let mut d: Vec<(String, Json)> = Vec::new();
        d.push(member("tool_calls", Json::Array(arr)));
        proof {
            json::lemma_jv_members(fv);
            json::lemma_jv_members(cv);
            json::lemma_jv_seq(av);
            json::lemma_jv_members(d@);
            assert(jv_members(fv) =~= seq![("arguments"@, JsonV::Str(arguments@))]);
            assert(jv_members(cv) =~= seq![
                ("index"@, u64_number(chat_index as u64)),
                ("function"@, JsonV::Object(seq![("arguments"@, JsonV::Str(arguments@))])),
            ]);
            assert(json::jv_seq(av) =~= seq![jv(av[0])]);
            assert(jv_members(d@) =~= tool_args_delta(chat_index, arguments@)->Object_0);
        }
        self.push_chunk(out, Json::Object(d), None);
    }

    /// Ends the stream: sends the finish chunk, once. The reason is
    /// `tool_calls` when the stream held any tool call, else `stop`.
    pub fn send_finish_chunk(&mut self, out: &mut Vec<Json>)
        ensures
            final(self)@ == finish_step(old(self)@).0,
            appended(old(out)@, final(out)@, finish_step(old(self)@).1),
    {
        if self.is_finished {
            proof { lemma_appended_none(out@); }
            return;
        }
        let ghost m0 = self@;
        self.is_finished = true;
        let reason = if self.has_tool_calls { "tool_calls" } else { "stop" };
        let d: Vec<(String, Json)> = Vec::new();
        proof {
            assert(jv_members(d@) =~= Seq::<(Seq<char>, JsonV)>::empty());
        }
        self.push_chunk(out, Json::Object(d), Some(reason));
    }

    /// `response.created`: takes the response's id, model and creation time.
    pub fn handle_response_created(&mut self, data: &Json)
        ensures
            final(self)@ == created_step(old(self)@, *data),
    {
        match json::get_member(data, "response") {
            Some(r) => {
                match text_of(r, "id") {
                    Some(id) => {
                        if str_chars(id.as_str()).len() > 0 {
                            self.response_id = id.clone();
                        }
                    },
                    None => {},
                }
                match text_of(r, "model") {
                    Some(md) => {
                        if str_chars(md.as_str()).len() > 0 {
                            self.model_name = md.clone();
                        }
                    },
                    None => {},
                }
                match json::as_i64(json::get_member(r, "created_at")) {
                    Some(c) => {
                        self.created_at = c;
                    },
                    None => {},
                }
            },
            None => {},
        }
    }

    /// `response.output_item.added`.
    pub fn handle_output_item_added(&mut self, out: &mut Vec<Json>, data: &Json)
        ensures
            final(self)@ == item_added_step(old(self)@, *data).0,
            appended(old(out)@, final(out)@, item_added_step(old(self)@, *data).1),
    {
        proof {
            reveal_strlit("");
            assert(""@ =~= Seq::<char>::empty());
        }
        let oi: u32 = match json::as_u64(json::get_member(data, "output_index")) {
            Some(n) => n as u32,
            None => 0,
        };
        let item = match json::get_member(data, "item") {
            Some(i) => i,
            None => {
                proof { lemma_appended_none(out@); }
                return;
            },
        };
        let ty = text_or_default(item, "type", "");
        let iid = text_or_default(item, "id", "");
        if ty == owned("message") {
            self.text_item_id = Some(iid);
            self.text_output_index = Some(oi);
            self.has_sent_text_delta = false;
            proof { lemma_appended_none(out@); }
        } else if ty == owned("function_call") {
            let call_id = match text_of(item, "call_id") {
                Some(c) => c.clone(),
                None => iid.clone(),
            };
            let name = text_or_default(item, "name", "");
            let idx = self.next_tool_chat_index;
            self.next_tool_chat_index = if idx == u32::MAX { 0 } else { idx + 1 };
            set_tool(&mut self.tool_calls, iid.clone(), ToolCallState { arguments_buffer: String::new(), chat_index: idx, has_sent_initial: false });
            set_index(&mut self.output_index_to_item_id, oi, iid.clone());
            self.send_tool_call_initial(out, idx, call_id.as_str(), name.as_str());
            set_tool(&mut self.tool_calls, iid, ToolCallState { arguments_buffer: String::new(), chat_index: idx, has_sent_initial: true });
        } else {
            proof { lemma_appended_none(out@); }
        }
    }

    /// `response.output_text.delta`: the text is forwarded.
    pub fn handle_output_text_delta(&mut self, out: &mut Vec<Json>, data: &Json)
        ensures
            final(self)@ == text_step(old(self)@, text_or(get(*data, "delta"@), Seq::empty())).0,
            appended(old(out)@, final(out)@, text_step(old(self)@, text_or(get(*data, "delta"@), Seq::empty())).1),
    {
        proof {
            reveal_strlit("");
            assert(""@ =~= Seq::<char>::empty());
        }
        let d = text_or_default(data, "delta", "");
        self.send_text_delta(out, d.as_str());
    }

    /// `response.function_call_arguments.delta`.
    pub fn handle_function_call_args_delta(&mut self, out: &mut Vec<Json>, data: &Json)
        ensures
            final(self)@ == args_step(old(self)@, *data).0,
            appended(old(out)@, final(out)@, args_step(old(self)@, *data).1),
    {
        proof {
            reveal_strlit("");
            assert(""@ =~= Seq::<char>::empty());
        }
        let ghost m0 = self@;
        let oi: u32 = match json::as_u64(json::get_member(data, "output_index")) {
            Some(n) => n as u32,
            None => 0,
        };
        let d = text_or_default(data, "delta", "");
        if str_chars(d.as_str()).len() == 0 {
            proof { lemma_appended_none(out@); }
            return;
        }
        let found: Option<usize> = match text_of(data, "item_id") {
            Some(iid) => tool_position(&self.tool_calls, iid),
            None => match index_position(&self.output_index_to_item_id, oi) {
                Some(k) => tool_position(&self.tool_calls, &self.output_index_to_item_id[k].1),
                None => None,
            },
        };
        let i = match found {
            Some(i) => i,
            None => {
                proof { lemma_appended_none(out@); }
                return;
            },
        };
        let ghost key = found_tool(m0, *data)->0;
        proof {
            lemma_first_where_props(m0.tools, tool_named(key));
            assert(m0.tools[i as int].0 == self.tool_calls@[i as int].0@);
        }
        let iid = self.tool_calls[i].0.clone();
        let chat_index = self.tool_calls[i].1.chat_index;
        let sent = self.tool_calls[i].1.has_sent_initial;
        let args_before = self.tool_calls[i].1.arguments_buffer.clone();
        proof {
            assert(iid@ == key);
            assert(tool_at(m0.tools, key) == tool_view(self.tool_calls@[i as int].1));
        }
        let ghost o0 = out@;
        if !sent {
            self.send_tool_call_initial(out, chat_index, "", "");
            set_tool(&mut self.tool_calls, iid.clone(),
                ToolCallState { arguments_buffer: args_before.clone(), chat_index, has_sent_initial: true });
        } else {
            proof { lemma_appended_none(out@); }
        }
        let ghost o1 = out@;
        let ghost p1 = if !sent { initial_step(m0, chat_index, Seq::empty(), Seq::empty()).1 } else { Seq::<Emitted>::empty() };
        let mut buf = str_chars(args_before.as_str());
        push_str(&mut buf, d.as_str());
        set_tool(&mut self.tool_calls, iid,
            ToolCallState { arguments_buffer: string_from_chars(&buf), chat_index, has_sent_initial: true });
        let ghost m2 = self@;
        self.send_tool_call_args_delta(out, chat_index, d.as_str());
        proof {
            let e = chunk_of(m2, tool_args_delta(chat_index, d@), None);
            lemma_appended_chain(o0, o1, out@, p1, seq![e]);
            assert(p1 + seq![e] =~= p1.push(e));
        }
    }

    /// `response.completed` and `response.done`: the id is kept and a tool
    /// call in the output is noted; nothing is sent, the stream goes on.
    pub fn handle_response_completed(&mut self, data: &Json)
        ensures
            final(self)@ == completed_step(old(self)@, *data),
    {
        match json::get_member(data, "response") {
            Some(r) => {
                match text_of(r, "id") {
                    Some(id) => {
                        if str_chars(id.as_str()).len() > 0 {
                            self.response_id = id.clone();
                        }
                    },
                    None => {},
                }
                match json::as_array(json::get_member(r, "output")) {
                    Some(items) => {
                        if has_call(items) {
                            self.has_tool_calls = true;
                        }
                    },
                    None => {},
                }
            },
            None => {},
        }
    }

    /// `response.output_item.done`: a function call item is noted.
    pub fn handle_output_item_done(&mut self, data: &Json)
        ensures
            final(self)@ == item_done_step(old(self)@, *data),
    {
        match json::get_member(data, "item") {
            Some(item) => {
                match text_of(item, "type") {
                    Some(t) => {
                        if *t == owned("function_call") {
                            self.has_tool_calls = true;
                        }
                    },
                    None => {},
                }
            },
            None => {},
        }
    }

    /// `response.failed`: ends the stream with an error chunk carrying the
    /// upstream message and code.
    pub fn handle_response_failed(&mut self, out: &mut Vec<Json>, data: &Json)
        ensures
            final(self)@ == failure_step(old(self)@, failed_error(*data)).0,
            appended(old(out)@, final(out)@, failure_step(old(self)@, failed_error(*data)).1),
    {
        if self.is_finished {
            proof { lemma_appended_none(out@); }
            return;
        }
        self.is_finished = true;
        let e = json::get_in(json::get_member(data, "response"), "error");
        let msg = match json::as_str(json::get_in(e, "message")) {
            Some(t) => t.clone(),
            None => owned("Unknown upstream error"),
        };
        let code = match json::as_str(json::get_in(e, "code")) {
            Some(t) => t.clone(),
            None => owned("unknown"),
        };
        let mut text: Vec<char> = Vec::new();
        push_str(&mut text, "Upstream error: ");
        push_str(&mut text, msg.as_str());
        push_str(&mut text, " (code: ");
        push_str(&mut text, code.as_str());
        push_str(&mut text, ")");
        let mut inner: Vec<(String, Json)> = Vec::new();
        inner.push(member("message", Json::Str(string_from_chars(&text))));
        inner.push(member("code", Json::Str(code)));
        let ghost iv = inner@;
        let mut outer: Vec<(String, Json)> = Vec::new();
        outer.push(member("error", Json::Object(inner)));
        proof {
            json::lemma_jv_members(iv);
            json::lemma_jv_members(outer@);
            assert(jv_members(iv) =~= seq![
                ("message"@, JsonV::Str("Upstream error: "@ + msg@ + " (code: "@ + code@ + ")"@)),
                ("code"@, JsonV::Str(code@)),
            ]);
            assert(jv_members(outer@) =~= failed_error(*data)->Object_0);
        }
        self.push_failure(out, Json::Object(outer));
    }

    /// An `error` event: ends the stream with an error chunk carrying the message.
    pub fn handle_error_event(&mut self, out: &mut Vec<Json>, data: &Json)
        ensures
            final(self)@ == failure_step(old(self)@, event_error(*data)).0,
            appended(old(out)@, final(out)@, failure_step(old(self)@, event_error(*data)).1),
    {
        if self.is_finished {
            proof { lemma_appended_none(out@); }
            return;
        }
        self.is_finished = true;
        let msg = text_or_default(data, "message", "Unknown upstream error");
        let mut es: Vec<(String, Json)> = Vec::new();
        es.push(member("message", Json::Str(msg)));
        proof {
            json::lemma_jv_members(es@);
            assert(jv_members(es@) =~= event_error(*data)->Object_0);
        }
        self.push_failure(out, Json::Object(es));
    }

    /// One upstream event: sends what it calls for and tells whether it ends
    /// the stream (`response.failed` and `error` do; `response.completed`,
    /// `response.done` and the rest do not).
    pub fn handle_event(&mut self, out: &mut Vec<Json>, data: &Json) -> (terminated: bool)
        ensures
            final(self)@ == event_step(old(self)@, *data).0,
            appended(old(out)@, final(out)@, event_step(old(self)@, *data).1),
            terminated == event_step(old(self)@, *data).2,
    {
        proof {
            reveal_strlit("");
            assert(""@ =~= Seq::<char>::empty());
        }
        let t = text_or_default(data, "type", "");
        if t == owned("response.created") {
            self.handle_response_created(data);
            proof { lemma_appended_none(out@); }
            false
        } else if t == owned("response.output_item.added") {
            self.handle_output_item_added(out, data);
            false
        } else if t == owned("response.output_text.delta") {
            self.handle_output_text_delta(out, data);
            false
        } else if t == owned("response.function_call_arguments.delta") {
            self.handle_function_call_args_delta(out, data);
            false
        } else if t == owned("response.output_item.done") {
            self.handle_output_item_done(data);
            proof { lemma_appended_none(out@); }
            false
        } else if t == owned("response.completed") || t == owned("response.done") {
            self.handle_response_completed(data);
            proof { lemma_appended_none(out@); }
            false
        } else if t == owned("response.failed") {
            self.handle_response_failed(out, data);
            true
        } else if t == owned("error") {
            self.handle_error_event(out, data);
            true
        } else if t == owned("response.in_progress") || t == owned("response.output_text.done")
            || t == owned("response.content_part.done") || t == owned("response.content_part.added")
            || t == owned("response.function_call_arguments.done") {
            proof { lemma_appended_none(out@); }
            false
        } else if str_chars(t.as_str()).len() == 0 {
            if json::get_member(data, "choices").is_some() {
                let ghost before = out@;
                let c = json::copy_json(data);
                out.push(c);
                proof {
                    lemma_appended_none(before);
                    lemma_appended_push(before, before, Seq::empty(), c, Emitted::Pass(jv(*data)));
                    assert(Seq::<Emitted>::empty().push(Emitted::Pass(jv(*data))) =~= seq![Emitted::Pass(jv(*data))]);
                }
            } else {
                proof { lemma_appended_none(out@); }
            }
            false
        } else {
            let ghost o0 = out@;
            let ghost m0 = self@;
            let d = text_or_default(data, "delta", "");
            self.send_text_delta(out, d.as_str());
            let ghost o1 = out@;
            let x = text_or_default(data, "text", "");
            self.send_text_delta(out, x.as_str());
            proof {
                lemma_appended_chain(o0, o1, out@, text_step(m0, d@).1, text_step(text_step(m0, d@).0, x@).1);
            }
            false
        }
    }

    /// A new translator for a stream of `model`, created now.
    pub fn new(model: &str) -> (r: Self)
        ensures
            r@ == initial_model(model@, r.created_at),
            crate::clock::clock_range(r.created_at as int),
    {
        let created_at = crate::clock::now_unix_seconds();
        let r = StreamTranslatorState {
            response_id: String::new(),
            model_name: owned(model),
            created_at,
            has_sent_role: false,
            text_item_id: None,
            text_output_index: None,
            has_sent_text_delta: false,
            tool_calls: Vec::new(),
            output_index_to_item_id: Vec::new(),
            next_tool_chat_index: 0,
            is_finished: false,
            has_tool_calls: false,
            has_text_output: false,
            pending_sse_fragments: Vec::new(),
            line_buf: Vec::new(),
            seen_done: false,
        };
        proof {
            assert(tools_view(r.tool_calls@) =~= Seq::empty());
            assert(index_view(r.output_index_to_item_id@) =~= Seq::empty());
            assert(string_views(r.pending_sse_fragments@) =~= Seq::empty());
            assert(r.line_buf@ =~= Seq::empty());
            assert(r@ =~= initial_model(model@, created_at));
        }
        r
    }

    /// One SSE line.
    pub fn feed_line(&mut self, out: &mut Vec<Json>, line: &str) -> (r: LineOutcome)
        ensures
            final(self)@ == line_step(old(self)@, line@).0,
            appended(old(out)@, final(out)@, line_step(old(self)@, line@).1),
            r == line_step(old(self)@, line@).2,
    {
        proof {
            reveal_strlit("data:");
            reveal_strlit("event:");
        }
        let t = crate::text::trim(&str_chars(line));
        if t.len() == 0 {
            self.pending_sse_fragments.clear();
            proof {
                assert(string_views(self.pending_sse_fragments@) =~= Seq::<Seq<char>>::empty());
                lemma_appended_none(out@);
            }
            return LineOutcome::Quiet;
        }
        if t[0] == ':' {
            proof { lemma_appended_none(out@); }
            return LineOutcome::Activity;
        }
        let data: Vec<char> = if crate::text::starts_with(&t, &str_chars("data:")) {
            crate::text::trim(&crate::text::slice_chars(&t, 5, t.len()))
        } else if crate::text::starts_with(&t, &str_chars("event:")) {
            proof { lemma_appended_none(out@); }
            return LineOutcome::Quiet;
        } else {
            crate::text::trim(&t)
        };
        proof {
            if has_prefix(t@, "data:"@) {
                assert(t@.skip(5) =~= t@.subrange(5, t@.len() as int));
            }
        }
        let ds = string_from_chars(&data);
        if ds == owned("[DONE]") {
            self.pending_sse_fragments.clear();
            self.seen_done = true;
            proof {
                assert(string_views(self.pending_sse_fragments@) =~= Seq::<Seq<char>>::empty());
                lemma_appended_none(out@);
            }
            return LineOutcome::Quiet;
        }
        match parse_sse_line(&mut self.pending_sse_fragments, ds.as_str()) {
            None => {
                proof { lemma_appended_none(out@); }
                LineOutcome::Activity
            },
            Some(doc) => {
                if self.handle_event(out, &doc) {
                    LineOutcome::Terminated
                } else {
                    LineOutcome::Activity
                }
            },
        }
    }

    fn feed_lines(&mut self, out: &mut Vec<Json>, ls: &Vec<Vec<char>>) -> (r: Fed)
        ensures
            final(self)@ == lines_step(old(self)@, ls@.map_values(|l: Vec<char>| l@)).0,
            appended(old(out)@, final(out)@, lines_step(old(self)@, ls@.map_values(|l: Vec<char>| l@)).1),
            r.data_seen == lines_step(old(self)@, ls@.map_values(|l: Vec<char>| l@)).2,
            r.terminated == lines_step(old(self)@, ls@.map_values(|l: Vec<char>| l@)).3,
    {
        let ghost m0 = self@;
        let ghost o0 = out@;
        let ghost lv = ls@.map_values(|l: Vec<char>| l@);
        let mut seen = false;
        let mut i: usize = 0;
        proof {
            assert(lv.take(0) =~= Seq::<Seq<char>>::empty());
            lemma_appended_none(o0);
        }
        while i < ls.len()
            invariant
                i <= ls.len(),
                m0 == old(self)@,
                o0 == old(out)@,
                lv == ls@.map_values(|l: Vec<char>| l@),
                self@ == lines_step(m0, lv.take(i as int)).0,
                appended(o0, out@, lines_step(m0, lv.take(i as int)).1),
                seen == lines_step(m0, lv.take(i as int)).2,
                !lines_step(m0, lv.take(i as int)).3,
            decreases ls.len() - i,
        {
            proof {
                assert(lv.take(i + 1).drop_last() =~= lv.take(i as int));
                assert(lv.take(i + 1).last() == ls@[i as int]@);
            }
            let ghost o1 = out@;
            let ghost m1 = self@;
            let line = string_from_chars(&ls[i]);
            let o = self.feed_line(out, line.as_str());
            proof {
                lemma_appended_chain(o0, o1, out@, lines_step(m0, lv.take(i as int)).1, line_step(m1, line@).1);
            }
            if o != LineOutcome::Quiet {
                seen = true;
            }
            if o == LineOutcome::Terminated {
                proof {
                    let prev = lines_step(m0, lv.take(i as int));
                    assert(lines_step(m0, lv.take(i + 1)) == (self@, prev.1 + line_step(m1, line@).1, true, true));
                    lemma_lines_stop(m0, lv, i as int + 1);
                }
                return Fed { data_seen: true, terminated: true };
            }
            i += 1;
        }
        proof {
            assert(lv.take(i as int) =~= lv);
        }
        Fed { data_seen: seen, terminated: false }
    }

    /// A piece of upstream data: buffered, and every complete line read.
    pub fn feed_bytes(&mut self, out: &mut Vec<Json>, chunk: &[u8]) -> (r: Fed)
        ensures
            final(self)@ == feed_step(old(self)@, chunk@).0,
            appended(old(out)@, final(out)@, feed_step(old(self)@, chunk@).1),
            r.data_seen == feed_step(old(self)@, chunk@).2,
            r.terminated == feed_step(old(self)@, chunk@).3,
    {
        let ghost buf = self.line_buf@ + chunk@;
        let mut i: usize = 0;
        while i < chunk.len()
            invariant
                i <= chunk.len(),
                self.line_buf@ == old(self).line_buf@ + chunk@.take(i as int),
                self.tool_calls == old(self).tool_calls,
                self@ == (TranslatorModel { line_buf: self.line_buf@, ..old(self)@ }),
            decreases chunk.len() - i,
        {
            self.line_buf.push(chunk[i]);
            proof {
                assert(chunk@.take(i + 1) =~= chunk@.take(i as int).push(chunk@[i as int]));
                assert(self.line_buf@ =~= old(self).line_buf@ + chunk@.take(i + 1));
            }
            i += 1;
        }
        proof {
            assert(chunk@.take(i as int) =~= chunk@);
        }
        let split = last_line_end(&self.line_buf);
        match split {
            None => {
                if self.line_buf.len() > SSE_LINE_BUFFER_LIMIT {
                    self.line_buf.clear();
                }
                proof { lemma_appended_none(out@); }
                Fed { data_seen: false, terminated: false }
            },
            Some(k) => {
                let mut complete: Vec<u8> = Vec::new();
                let mut rest: Vec<u8> = Vec::new();
                let mut j: usize = 0;
                while j < self.line_buf.len()
                    invariant
                        j <= self.line_buf.len(),
                        k < self.line_buf.len(),
                        self.line_buf@ == buf,
                        complete@ == buf.take(if j <= k + 1 { j as int } else { k + 1 }),
                        rest@ == if j <= k + 1 { Seq::<u8>::empty() } else { buf.subrange(k + 1, j as int) },
                    decreases self.line_buf.len() - j,
                {
                    if j <= k {
                        complete.push(self.line_buf[j]);
                        proof { assert(complete@ =~= buf.take(j + 1)); }
                    } else {
                        rest.push(self.line_buf[j]);
                        proof { assert(rest@ =~= buf.subrange(k + 1, j + 1)); }
                    }
                    j += 1;
                }
                proof {
                    assert(rest@ =~= buf.skip(k + 1));
                }
                self.line_buf = rest;
                let text = str_chars(lossy(complete.as_slice()).as_str());
                let ls = split_pieces(&text);
                self.feed_lines(out, &ls)
            },
        }
    }

    /// Ends the stream (end of upstream data, timeout, session limit): the
    /// finish chunk, once. The caller sends `data: [DONE]` after it.
    pub fn finish(&mut self, out: &mut Vec<Json>)
        ensures
            final(self)@ == finish_step(old(self)@).0,
            appended(old(out)@, final(out)@, finish_step(old(self)@).1),
    {
        self.send_finish_chunk(out);
    }

    /// At the end of upstream data: drops bytes after the last line end (the
    /// upstream cut a line) and tells how many there were.
    pub fn end_of_input(&mut self) -> (r: usize)
        ensures
            r == old(self).line_buf@.len(),
            final(self)@ == (TranslatorModel { line_buf: Seq::empty(), ..old(self)@ }),
    {
        let n = self.line_buf.len();
        self.line_buf.clear();
        proof {
            assert(self@ =~= TranslatorModel { line_buf: Seq::empty(), ..old(self)@ });
        }
        n
    }

    /// What the end-of-stream hook receives: the response id (none while
    /// empty), whether tool calls and whether text were seen.
    pub fn completion(&self) -> (r: (Option<String>, bool, bool))
        ensures
            opt_view(r.0) == (if self.response_id@.len() == 0 { None } else { Some(self.response_id@) }),
            r.1 == self.has_tool_calls,
            r.2 == self.has_text_output,
    {
        let rid = if str_chars(self.response_id.as_str()).len() == 0 { None } else { Some(self.response_id.clone()) };
        (rid, self.has_tool_calls, self.has_text_output)
    }
}

// ── Timers ──

/// At least one second.
pub open spec fn at_least_one(x: u64) -> u64 {
    if x < 1 { 1 } else { x }
}

/// The heartbeat interval in nanoseconds (at least a second).
pub open spec fn heartbeat_ns(c: BridgeConfig) -> int {
    at_least_one(c.heartbeat_interval_secs) * 1_000_000_000
}

/// The allowed silence in nanoseconds: before the first chunk was sent the
/// first-chunk timeout, after it the idle timeout (each at least a second).
pub open spec fn idle_ns(c: BridgeConfig, has_sent_role: bool) -> int {
    at_least_one(if has_sent_role { c.chunk_idle_timeout_secs } else { c.first_chunk_timeout_secs }) * 1_000_000_000
}

/// What remains of `limit` after `spent` (not below zero).
pub open spec fn remaining(limit: int, spent: int) -> int {
    if spent < limit { limit - spent } else { 0 }
}

/// Whether the session has run too long (whole seconds, as elapsed).
pub fn session_expired(config: &BridgeConfig, elapsed_secs: u64) -> (r: bool)
    ensures
        r == (elapsed_secs > config.session_max_duration_secs),
{
    elapsed_secs > config.session_max_duration_secs
}

fn secs_ns(secs: u64) -> (r: u128)
    ensures
        r == at_least_one(secs) * 1_000_000_000,
{
    let s: u64 = if secs < 1 { 1 } else { secs };
    assert(s * 1_000_000_000 <= u64::MAX as int * 1_000_000_000) by (nonlinear_arith)
        requires s <= u64::MAX;
    (s as u128) * 1_000_000_000
}

/// How long to wait for upstream data before the next decision: until the
/// next heartbeat is due or the allowed silence is over, whichever is first.
/// The heartbeat clock restarts with any upstream bytes, the silence clock
/// only with data (so heartbeats do not keep a dead stream alive).
pub fn wait_budget_ns(config: &BridgeConfig, has_sent_role: bool, since_activity_ns: u128, since_data_ns: u128) -> (r: u128)
    ensures
        r as int == ({
            let h = remaining(heartbeat_ns(*config), since_activity_ns as int);
            let d = remaining(idle_ns(*config, has_sent_role), since_data_ns as int);
            if h < d { h } else { d }
        }),
{
    let hb = secs_ns(config.heartbeat_interval_secs);
    let idle = secs_ns(if has_sent_role { config.chunk_idle_timeout_secs } else { config.first_chunk_timeout_secs });
    let h: u128 = if since_activity_ns < hb { hb - since_activity_ns } else { 0 };
    let d: u128 = if since_data_ns < idle { idle - since_data_ns } else { 0 };
    if h < d { h } else { d }
}

/// What to do when the wait ends without upstream data.
#[derive(Debug, Clone, Copy, PartialEq, Eq, Structural)]
pub enum TimerAction {
    /// End the stream (finish chunk and `[DONE]`).
    Stop,
    /// Send a `: ping` comment and wait again.
    Ping,
    /// Wait again.
    Wait,
}

/// The decision on a timeout: stop a finished stream; send a heartbeat when
/// one is due; stop when the allowed silence is over; else wait.
pub fn on_timeout(config: &BridgeConfig, is_finished: bool, has_sent_role: bool, since_activity_ns: u128, since_data_ns: u128) -> (r: TimerAction)
    ensures
        r == (if is_finished {
            TimerAction::Stop
        } else if since_activity_ns >= heartbeat_ns(*config) {
            TimerAction::Ping
        } else if since_data_ns >= idle_ns(*config, has_sent_role) {
            TimerAction::Stop
        } else {
            TimerAction::Wait
        }),
{
    if is_finished {
        return TimerAction::Stop;
    }
    if since_activity_ns >= secs_ns(config.heartbeat_interval_secs) {
        return TimerAction::Ping;
    }
    if since_data_ns >= secs_ns(if has_sent_role { config.chunk_idle_timeout_secs } else { config.first_chunk_timeout_secs }) {
        return TimerAction::Stop;
    }
    TimerAction::Wait
}

/// The comment line sent as a heartbeat.
pub const PING_FRAME: &'static str = ": ping\n\n";

/// The line that closes the client stream.
pub const DONE_FRAME: &'static str = "data: [DONE]\n\n";

/// The SSE frame for a sent value: `data: ` and its JSON text, then a blank line.
pub fn sse_frame(j: &Json) -> (r: String)
    ensures
        r@ == "data: "@ + json::print_text(*j) + "\n\n"@,
{
    let mut v: Vec<char> = Vec::new();
    push_str(&mut v, "data: ");
    push_str(&mut v, json::print(j).as_str());
    push_str(&mut v, "\n\n");
    string_from_chars(&v)
}

} // verus!
