//! Properties of the two stream translators that hold for every state and input.

use vstd::prelude::*;
use crate::bridge_stream::{
    args_step, event_step, feed_step, final_reason, finish_step, initial_step, last_newline, lines_step, pieces_of, item_added_step, line_data, line_step, next_index, role_step,
    text_or, text_step, tool_at, Emitted, LineOutcome, TranslatorModel,
};
use crate::codex_stream::{
    call_item, call_items, calls_sorted, close_step, complete_step, completed_event, error_end_step, failure_event, final_output,
    message_item, output_text_part, reasoning_item, response_head, text_member, CallModel, StreamModel,
};
use crate::codex_translator::{sanitized_arguments, sse_line_result};
use crate::json::{get, vmember, vnamed, Json, JsonV};
use crate::sorting::{first_where, lemma_first_where_props};
use crate::proxy::lossy_text;
use crate::text::trim_ws;

verus! {

/// Whether a sent value is a chunk that carries a finish reason.
pub open spec fn finishes(e: Emitted) -> bool {
    match e {
        Emitted::Chunk { finish, .. } => finish is Some,
        _ => false,
    }
}

/// Whether none of the sent values carries a finish reason.
pub open spec fn no_finish(p: Seq<Emitted>) -> bool {
    forall|i: int| 0 <= i < p.len() ==> !finishes(#[trigger] p[i])
}

proof fn lemma_no_finish_concat(p: Seq<Emitted>, q: Seq<Emitted>)
    requires
        no_finish(p),
        no_finish(q),
    ensures
        no_finish(p + q),
{
    assert forall|i: int| 0 <= i < (p + q).len() implies !finishes(#[trigger] (p + q)[i]) by {
        if i < p.len() {
            assert((p + q)[i] == p[i]);
        } else {
            assert((p + q)[i] == q[i - p.len()]);
        }
    }
}

proof fn lemma_role_no_finish(m: TranslatorModel)
    ensures
        no_finish(role_step(m).1),
{
}

proof fn lemma_text_no_finish(m: TranslatorModel, t: Seq<char>)
    ensures
        no_finish(text_step(m, t).1),
{
    lemma_role_no_finish(m);
    if t.len() > 0 {
        let p = role_step(m).1;
        assert forall|i: int| 0 <= i < p.len() + 1 implies !finishes(#[trigger] text_step(m, t).1[i]) by {
            if i < p.len() {
                assert(text_step(m, t).1[i] == p[i]);
            }
        }
    }
}

proof fn lemma_initial_no_finish(m: TranslatorModel, idx: u32, id: Seq<char>, name: Seq<char>)
    ensures
        no_finish(initial_step(m, idx, id, name).1),
{
    lemma_role_no_finish(m);
    let p = role_step(m).1;
    assert forall|i: int| 0 <= i < p.len() + 1 implies !finishes(#[trigger] initial_step(m, idx, id, name).1[i]) by {
        if i < p.len() {
            assert(initial_step(m, idx, id, name).1[i] == p[i]);
        }
    }
}

proof fn lemma_args_no_finish(m: TranslatorModel, data: Json)
    ensures
        no_finish(args_step(m, data).1),
{
    let d = text_or(get(data, "delta"@), Seq::empty());
    if d.len() > 0 {
        match crate::bridge_stream::found_tool(m, data) {
            Some(iid) => {
                let t = tool_at(m.tools, iid);
                lemma_initial_no_finish(m, t.chat_index, Seq::empty(), Seq::empty());
                let p1 = if !t.has_sent_initial { initial_step(m, t.chat_index, Seq::empty(), Seq::empty()).1 } else { Seq::empty() };
                assert forall|i: int| 0 <= i < p1.len() + 1 implies !finishes(#[trigger] args_step(m, data).1[i]) by {
                    if i < p1.len() {
                        assert(args_step(m, data).1[i] == p1[i]);
                    }
                }
            },
            None => {},
        }
    }
}

/// No upstream event makes the client's turn end normally: whatever an event
/// sends, none of it carries a finish reason (`stop` / `tool_calls`). Only
/// the end of the upstream stream does ([`law_finish_reason`]); upstream
/// failures end it with an error chunk instead.
pub proof fn law_events_never_finish(m: TranslatorModel, data: Json)
    ensures
        no_finish(event_step(m, data).1),
{
    let t = text_or(get(data, "type"@), Seq::empty());
    lemma_text_no_finish(m, text_or(get(data, "delta"@), Seq::empty()));
    lemma_args_no_finish(m, data);
    match get(data, "item"@) {
        Some(item) => {
            let iid = text_or(get(item, "id"@), Seq::empty());
            let idx = m.next_tool_chat_index;
            let m1 = TranslatorModel {
                next_tool_chat_index: next_index(idx),
                tools: crate::bridge_stream::tool_set(m.tools, iid,
                    crate::bridge_stream::ToolModel { arguments: Seq::empty(), chat_index: idx, has_sent_initial: false }),
                index_map: crate::bridge_stream::index_set(m.index_map, crate::bridge_stream::event_index(data), iid),
                ..m
            };
            lemma_initial_no_finish(m1, idx, text_or(get(item, "call_id"@), iid), text_or(get(item, "name"@), Seq::empty()));
        },
        None => {},
    }
    let a = text_step(m, text_or(get(data, "delta"@), Seq::empty()));
    lemma_text_no_finish(a.0, text_or(get(data, "text"@), Seq::empty()));
    lemma_no_finish_concat(a.1, text_step(a.0, text_or(get(data, "text"@), Seq::empty())).1);
}

/// `response.completed` and `response.done` never end the stream: nothing is
/// sent, the stream is not finished, and it goes on.
pub proof fn law_completed_does_not_end(m: TranslatorModel, data: Json)
    requires
        text_or(get(data, "type"@), Seq::empty()) == "response.completed"@
            || text_or(get(data, "type"@), Seq::empty()) == "response.done"@,
    ensures
        event_step(m, data).1.len() == 0,
        !event_step(m, data).2,
        event_step(m, data).0.is_finished == m.is_finished,
{
    reveal_strlit("response.completed");
    reveal_strlit("response.done");
    reveal_strlit("response.created");
    reveal_strlit("response.output_item.added");
    reveal_strlit("response.output_text.delta");
    reveal_strlit("response.function_call_arguments.delta");
    reveal_strlit("response.output_item.done");
    let t = text_or(get(data, "type"@), Seq::empty());
    assert(t.len() == 18 || t.len() == 13);
    assert(t != "response.created"@);
    assert(t != "response.output_item.added"@);
    assert(t != "response.output_text.delta"@);
    assert(t != "response.function_call_arguments.delta"@);
    assert(t != "response.output_item.done"@);
}

/// A `[DONE]` line in mid-stream is only noted: nothing is sent, the stream
/// is not finished, and later events are still read.
pub proof fn law_done_line_does_not_end(m: TranslatorModel, line: Seq<char>)
    requires
        trim_ws(line).len() > 0,
        trim_ws(line)[0] != ':',
        line_data(trim_ws(line)) == Some("[DONE]"@),
    ensures
        line_step(m, line).1.len() == 0,
        line_step(m, line).2 == LineOutcome::Quiet,
        line_step(m, line).0.is_finished == m.is_finished,
        line_step(m, line).0.seen_done,
{
}

/// A payload that does not parse (and cannot be completed yet) is skipped:
/// nothing is sent, the stream goes on, and only the unfinished-payload
/// buffer changes.
pub proof fn law_malformed_payload_skipped(m: TranslatorModel, line: Seq<char>, d: Seq<char>)
    requires
        trim_ws(line).len() > 0,
        trim_ws(line)[0] != ':',
        line_data(trim_ws(line)) == Some(d),
        d != "[DONE]"@,
        sse_line_result(m.pending, d).0 is None,
    ensures
        line_step(m, line).1.len() == 0,
        line_step(m, line).2 == LineOutcome::Activity,
        line_step(m, line).0 == (TranslatorModel { pending: sse_line_result(m.pending, d).1, ..m }),
{
}

/// The finish chunk is sent once: a second end sends nothing. Its reason is
/// `tool_calls` when any tool call was seen in the whole stream, else `stop`.
pub proof fn law_finish_reason(m: TranslatorModel)
    ensures
        finish_step(finish_step(m).0).1.len() == 0,
        !m.is_finished ==> (finish_step(m).1.len() == 1 && (finish_step(m).1[0] matches Emitted::Chunk { finish: Some(r), .. }
            && r == (if m.has_tool_calls { "tool_calls"@ } else { "stop"@ }))),
        m.is_finished ==> finish_step(m).1.len() == 0,
{
}

/// A function call gets the next Chat index of the whole stream, and the
/// count moves on, so calls of later responses never reuse an index.
pub proof fn law_tool_index_continues(m: TranslatorModel, data: Json)
    requires
        (get(data, "item"@) matches Some(item) && text_or(get(item, "type"@), Seq::empty()) == "function_call"@),
    ensures
        item_added_step(m, data).0.next_tool_chat_index == next_index(m.next_tool_chat_index),
        ({
            let item = get(data, "item"@)->0;
            let iid = text_or(get(item, "id"@), Seq::empty());
            let ts = item_added_step(m, data).0.tools;
            crate::bridge_stream::tool_pos(ts, iid) is Some && tool_at(ts, iid).chat_index == m.next_tool_chat_index
        }),
{
    reveal_strlit("function_call");
    reveal_strlit("message");
    let item = get(data, "item"@)->0;
    assert(text_or(get(item, "type"@), Seq::empty()) == "function_call"@);
    assert("function_call"@.len() == 13);
    assert("message"@.len() == 7);
    assert(text_or(get(item, "type"@), Seq::empty()) != "message"@);
    let iid = text_or(get(item, "id"@), Seq::empty());
    let idx = m.next_tool_chat_index;
    let t0 = crate::bridge_stream::ToolModel { arguments: Seq::empty(), chat_index: idx, has_sent_initial: false };
    let t1 = crate::bridge_stream::ToolModel { arguments: Seq::empty(), chat_index: idx, has_sent_initial: true };
    let ts0 = crate::bridge_stream::tool_set(m.tools, iid, t0);
    lemma_tool_set_found(m.tools, iid, t0);
    lemma_tool_set_found(ts0, iid, t1);
}

proof fn lemma_tool_set_found(ts: Seq<(Seq<char>, crate::bridge_stream::ToolModel)>, k: Seq<char>, t: crate::bridge_stream::ToolModel)
    ensures
        crate::bridge_stream::tool_pos(crate::bridge_stream::tool_set(ts, k, t), k) is Some,
        tool_at(crate::bridge_stream::tool_set(ts, k, t), k) == t,
{
    let f = crate::bridge_stream::tool_named(k);
    let r = crate::bridge_stream::tool_set(ts, k, t);
    crate::sorting::lemma_first_where_props(ts, f);
    crate::sorting::lemma_first_where_props(r, f);
    match crate::bridge_stream::tool_pos(ts, k) {
        Some(i) => {
            assert(f(r[i]));
            match crate::bridge_stream::tool_pos(r, k) {
                Some(j) => {
                    if j < i {
                        assert(r[j] == ts[j]);
                    }
                },
                None => {},
            }
        },
        None => {
            assert(f(r[ts.len() as int]));
            match crate::bridge_stream::tool_pos(r, k) {
                Some(j) => {
                    if j < ts.len() {
                        assert(r[j] == ts[j]);
                    }
                },
                None => {},
            }
        },
    }
}

/// A response is completed once: completing again only repeats the closing
/// events, without a second `response.completed`.
pub proof fn law_completed_once(m: StreamModel)
    ensures
        complete_step(m).0.is_completed,
        complete_step(complete_step(m).0).1 == crate::codex_stream::flush_events(complete_step(m).0),
{
}

/// Once the response is completed (or failed), the end of the stream, a
/// timeout, the last-resort check and a transport error send nothing more.
pub proof fn law_nothing_after_completion(m: StreamModel, msg: Seq<char>)
    requires
        m.is_completed,
    ensures
        close_step(m, msg) == (m, Seq::<JsonV>::empty()),
        error_end_step(m, msg) == (m, Seq::<JsonV>::empty()),
{
}

/// A stream that never produced a valid chunk never ends in a silent empty
/// completion: it ends with one failed `response.created` carrying the reason.
pub proof fn law_empty_stream_fails(m: StreamModel, msg: Seq<char>)
    requires
        !m.has_sent_created,
        !m.is_completed,
    ensures
        close_step(m, msg).1 == seq![failure_event(m, msg)],
        close_step(m, msg).0.is_completed,
        (failure_event(m, msg) matches JsonV::Object(ms) && ms[0].1 == JsonV::Str("response.created"@)),
{
}

/// Upstream chunks fed in order, the stream stopping once it has ended: the
/// state and everything sent.
pub open spec fn feeds(m: TranslatorModel, cs: Seq<Seq<u8>>) -> (TranslatorModel, Seq<Emitted>, bool)
    decreases cs.len(),
{
    if cs.len() == 0 {
        (m, Seq::empty(), false)
    } else {
        let (m1, p1, t1) = feeds(m, cs.drop_last());
        if t1 {
            (m1, p1, t1)
        } else {
            let (m2, p2, _a, t2) = feed_step(m1, cs.last());
            (m2, p1 + p2, t2)
        }
    }
}

/// No line of upstream text carries a finish reason.
pub proof fn law_line_never_finishes(m: TranslatorModel, line: Seq<char>)
    ensures
        no_finish(line_step(m, line).1),
{
    let t = trim_ws(line);
    if t.len() > 0 && t[0] != ':' {
        match line_data(t) {
            Some(d) => if d != "[DONE]"@ {
                let (doc, rest) = sse_line_result(m.pending, d);
                match doc {
                    Some(j) => law_events_never_finish(TranslatorModel { pending: rest, ..m }, j),
                    None => {},
                }
            },
            None => {},
        }
    }
}

/// No run of upstream lines carries a finish reason.
pub proof fn law_lines_never_finish(m: TranslatorModel, ls: Seq<Seq<char>>)
    ensures
        no_finish(lines_step(m, ls).1),
    decreases ls.len(),
{
    if ls.len() > 0 {
        law_lines_never_finish(m, ls.drop_last());
        let (m1, p1, a1, t1) = lines_step(m, ls.drop_last());
        if !t1 {
            law_line_never_finishes(m1, ls.last());
            lemma_no_finish_concat(p1, line_step(m1, ls.last()).1);
        }
    }
}

/// Whatever upstream bytes arrive, in whatever pieces, none of what they
/// produce carries a finish reason; ending the stream then sends exactly one
/// finish chunk, unless the stream was already finished, and ending it again
/// sends nothing: a client sees at most one finish chunk per stream.
pub proof fn law_one_finish_per_stream(m: TranslatorModel, cs: Seq<Seq<u8>>)
    ensures
        no_finish(feeds(m, cs).1),
        !feeds(m, cs).0.is_finished ==> (finish_step(feeds(m, cs).0).1.len() == 1
            && finishes(finish_step(feeds(m, cs).0).1[0])),
        feeds(m, cs).0.is_finished ==> finish_step(feeds(m, cs).0).1.len() == 0,
        finish_step(finish_step(feeds(m, cs).0).0).1.len() == 0,
    decreases cs.len(),
{
    if cs.len() > 0 {
        law_one_finish_per_stream(m, cs.drop_last());
        let (m1, p1, t1) = feeds(m, cs.drop_last());
        if !t1 {
            let buf = m1.line_buf + cs.last();
            match last_newline(buf) {
                None => {},
                Some(k) => law_lines_never_finish(TranslatorModel { line_buf: buf.skip(k + 1), ..m1 },
                    pieces_of(lossy_text(buf.take(k + 1)))),
            }
            lemma_no_finish_concat(p1, feed_step(m1, cs.last()).1);
        }
    }
}

/// The `response.output` list of an event, as a client reads it.
pub open spec fn response_output(ev: JsonV) -> Option<Seq<JsonV>> {
    match ev {
        JsonV::Object(es) => match vmember(es, "response"@) {
            Some(JsonV::Object(r)) => match vmember(r, "output"@) {
                Some(JsonV::Array(o)) => Some(o),
                _ => None,
            },
            _ => None,
        },
        _ => None,
    }
}

/// How many items come before the function calls in the completed output:
/// the reasoning item when reasoning was announced and holds text, and the
/// message item when it was announced.
pub open spec fn items_before_calls(m: StreamModel) -> int {
    (if m.has_sent_reasoning && m.reasoning_buffer.len() > 0 { 1int } else { 0int })
        + (if m.has_sent_output_item { 1int } else { 0int })
}

proof fn lemma_call_items(cs: Seq<(u32, CallModel)>)
    ensures
        call_items(cs).len() == cs.len(),
        forall|c: int| 0 <= c < cs.len() ==> #[trigger] call_items(cs)[c]
            == call_item(cs[c].1.id, cs[c].1.name, sanitized_arguments(cs[c].1.arguments)),
    decreases cs.len(),
{
    if cs.len() > 0 {
        lemma_call_items(cs.drop_last());
        assert forall|c: int| 0 <= c < cs.len() implies #[trigger] call_items(cs)[c]
            == call_item(cs[c].1.id, cs[c].1.name, sanitized_arguments(cs[c].1.arguments)) by {
            if c < cs.len() - 1 {
                assert(cs.drop_last()[c] == cs[c]);
            }
        }
    }
}

/// The value of the member at `i` when it is the first with its key.
proof fn lemma_vmember_at(es: Seq<(Seq<char>, JsonV)>, key: Seq<char>, i: int)
    requires
        0 <= i < es.len(),
        es[i].0 == key,
        forall|j: int| 0 <= j < i ==> (#[trigger] es[j]).0 != key,
    ensures
        vmember(es, key) == Some(es[i].1),
{
    lemma_first_where_props(es, vnamed(key));
    assert(vnamed(key)(es[i]));
    match first_where(es, vnamed(key)) {
        Some(k) => {
            if k < i {
                assert(es[k].0 != key);
            } else if k > i {
                assert(!vnamed(key)(es[i]));
            }
        },
        None => {},
    }
}

/// Closing a response that is not completed yet ends with
/// `response.completed`, whose `response.output` holds, after the reasoning
/// and message items, one `function_call` item per tool call of the stream,
/// in index order, with the call's id, name and sanitized arguments.
pub proof fn law_completed_lists_every_call(m: StreamModel)
    requires
        !m.is_completed,
        calls_sorted(m.calls),
    ensures
        match response_output(complete_step(m).1.last()) {
            Some(out) => {
                &&& out.len() == items_before_calls(m) + m.calls.len()
                &&& forall|c: int| 0 <= c < m.calls.len() ==> #[trigger] out[items_before_calls(m) + c]
                        == call_item(m.calls[c].1.id, m.calls[c].1.name, sanitized_arguments(m.calls[c].1.arguments))
                &&& forall|c: int, d: int| 0 <= c < d < m.calls.len() ==> m.calls[c].0 < m.calls[d].0
            },
            None => false,
        },
{
    reveal_strlit("type");
    reveal_strlit("response");
    reveal_strlit("output");
    reveal_strlit("id");
    reveal_strlit("object");
    reveal_strlit("created_at");
    reveal_strlit("model");
    reveal_strlit("status");
    let ev = complete_step(m).1.last();
    assert(ev == completed_event(m));
    let top = seq![
        text_member("type"@, "response.completed"@),
        ("response"@, JsonV::Object(response_head(m, "completed"@).push(("output"@, JsonV::Array(final_output(m)))))),
    ];
    assert(ev == JsonV::Object(top));
    assert("type"@ != "response"@) by {
        assert("type"@.len() != "response"@.len());
    }
    lemma_vmember_at(top, "response"@, 1);
    let r = response_head(m, "completed"@).push(("output"@, JsonV::Array(final_output(m))));
    assert("id"@ != "output"@) by { assert("id"@.len() != "output"@.len()); }
    assert("object"@ != "output"@) by { assert("object"@[1] != "output"@[1]); }
    assert("created_at"@ != "output"@) by { assert("created_at"@.len() != "output"@.len()); }
    assert("model"@ != "output"@) by { assert("model"@.len() != "output"@.len()); }
    assert("status"@ != "output"@) by { assert("status"@[0] != "output"@[0]); }
    assert forall|j: int| 0 <= j < 5 implies (#[trigger] r[j]).0 != "output"@ by {}
    lemma_vmember_at(r, "output"@, 5);
    lemma_call_items(m.calls);
    let out = final_output(m);
    let h = items_before_calls(m);
    let pre = (if m.has_sent_reasoning && m.reasoning_buffer.len() > 0 { seq![reasoning_item(m, m.reasoning_buffer)] } else { Seq::empty() })
        + (if m.has_sent_output_item { seq![message_item(m, seq![output_text_part(m.text_buffer)])] } else { Seq::empty() });
    assert(pre.len() == h);
    assert(out == pre + call_items(m.calls));
    assert forall|c: int| 0 <= c < m.calls.len() implies #[trigger] out[h + c]
        == call_item(m.calls[c].1.id, m.calls[c].1.name, sanitized_arguments(m.calls[c].1.arguments)) by {
        assert(out[h + c] == call_items(m.calls)[c]);
    }
}

} // verus!
