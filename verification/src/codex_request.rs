//! Responses API request (as Codex sends it) → Chat Completions request.

use vstd::prelude::*;
use crate::bridge_request::{lemma_vget, or_text, vget, vget_opt, vput_opt, vtext};
use crate::codex_translator::{sanitize_tool_arguments, sanitized_arguments};
use crate::json::{
    self, Json, JsonV, jv, jv_members, jv_seq, lemma_jv_members, lemma_jv_seq, vhas, vinsert, vmember, vremove,
};
use crate::sorting::keep;
use crate::text::{owned, str_chars};

verus! {

// ── Messages made here ──

/// `{"content": content, "role": role}`.
pub open spec fn role_msg(content: JsonV, role: Seq<char>) -> JsonV {
    JsonV::Object(seq![("content"@, content), ("role"@, JsonV::Str(role))])
}

/// `{"role": "user", "content": content}` (the role set first).
pub open spec fn user_msg_of(content: JsonV) -> JsonV {
    JsonV::Object(seq![("role"@, JsonV::Str("user"@)), ("content"@, content)])
}

/// A tool result message.
pub open spec fn tool_msg(call_id: Seq<char>, output: Seq<char>) -> JsonV {
    JsonV::Object(seq![
        ("content"@, JsonV::Str(output)),
        ("role"@, JsonV::Str("tool"@)),
        ("tool_call_id"@, JsonV::Str(call_id)),
    ])
}

/// An assistant message carrying only tool calls.
pub open spec fn calls_msg(calls: Seq<JsonV>) -> JsonV {
    JsonV::Object(seq![
        ("content"@, JsonV::Null),
        ("role"@, JsonV::Str("assistant"@)),
        ("tool_calls"@, JsonV::Array(calls)),
    ])
}

/// The id a function call is answered under: its non-empty `call_id`, else its `id`.
pub open spec fn call_id_of(fc: JsonV) -> Seq<char> {
    match vtext(vget(fc, "call_id"@)) {
        Some(c) => if c.len() > 0 { c } else { or_text(vtext(vget(fc, "id"@)), Seq::empty()) },
        None => or_text(vtext(vget(fc, "id"@)), Seq::empty()),
    }
}

/// A Responses function call as a Chat tool call, its arguments made valid JSON.
pub open spec fn tool_call_of(fc: JsonV) -> JsonV {
    JsonV::Object(seq![
        ("function"@, JsonV::Object(seq![
            ("arguments"@, JsonV::Str(sanitized_arguments(or_text(vtext(vget(fc, "arguments"@)), "{}"@)))),
            ("name"@, JsonV::Str(or_text(vtext(vget(fc, "name"@)), Seq::empty()))),
        ])),
        ("id"@, JsonV::Str(call_id_of(fc))),
        ("type"@, JsonV::Str("function"@)),
    ])
}

// ── Content parts ──

/// An `image_url` given as a plain string becomes `{"url": ...}`.
pub open spec fn wrap_url(es: Seq<(Seq<char>, JsonV)>) -> Seq<(Seq<char>, JsonV)> {
    match vmember(es, "image_url"@) {
        Some(JsonV::Str(u)) => vinsert(es, "image_url"@, JsonV::Object(seq![("url"@, JsonV::Str(u))])),
        _ => es,
    }
}

/// A Responses content part as a Chat content part: input/output text →
/// text, image → image_url (string URLs wrapped), file → file, audio → audio;
/// anything else is kept.
pub open spec fn chat_part(p: JsonV) -> JsonV {
    match p {
        JsonV::Object(es) => match vtext(vmember(es, "type"@)) {
            Some(t) => if t == "input_text"@ || t == "output_text"@ {
                JsonV::Object(vinsert(es, "type"@, JsonV::Str("text"@)))
            } else if t == "input_image"@ || t == "output_image"@ {
                JsonV::Object(wrap_url(vinsert(es, "type"@, JsonV::Str("image_url"@))))
            } else if t == "input_file"@ || t == "output_file"@ {
                JsonV::Object(vinsert(es, "type"@, JsonV::Str("file"@)))
            } else if t == "input_audio"@ || t == "output_audio"@ {
                JsonV::Object(vinsert(es, "type"@, JsonV::Str("audio"@)))
            } else {
                p
            },
            None => p,
        },
        _ => p,
    }
}

/// A message whose array content has each part converted.
pub open spec fn content_converted(msg: JsonV) -> JsonV {
    match msg {
        JsonV::Object(es) => match vmember(es, "content"@) {
            Some(JsonV::Array(ps)) => JsonV::Object(vinsert(es, "content"@, JsonV::Array(ps.map_values(|p: JsonV| chat_part(p))))),
            _ => msg,
        },
        _ => msg,
    }
}

// ── History messages ──

/// Output item types that are dropped when an output is folded into content.
pub open spec fn dropped_output_type(t: Seq<char>) -> bool {
    t == "reasoning"@ || t == "function_call_output"@ || t == "computer_call"@ || t == "file_search_call"@
        || t == "web_search_call"@ || t == "refusal"@ || t == "output_refusal"@
}

/// The type of an item ("" when it has none).
pub open spec fn item_type(item: JsonV) -> Seq<char> {
    or_text(vtext(vget(item, "type"@)), Seq::empty())
}

/// The content parts folded from output items: a message item gives its
/// content parts (or its content), function calls and dropped types give
/// nothing, any other item is a part itself.
pub open spec fn fold_parts(items: Seq<JsonV>) -> Seq<JsonV>
    decreases items.len(),
{
    if items.len() == 0 {
        Seq::empty()
    } else {
        let item = items.last();
        let t = item_type(item);
        fold_parts(items.drop_last()) + if t == "function_call"@ {
            Seq::empty()
        } else if t == "message"@ {
            match vget(item, "content"@) {
                Some(JsonV::Array(a)) => a,
                Some(c) => seq![c],
                None => Seq::empty(),
            }
        } else if dropped_output_type(t) {
            Seq::empty()
        } else {
            seq![item]
        }
    }
}

/// The tool calls folded from output items.
pub open spec fn fold_calls(items: Seq<JsonV>) -> Seq<JsonV>
    decreases items.len(),
{
    if items.len() == 0 {
        Seq::empty()
    } else {
        fold_calls(items.drop_last()) + if item_type(items.last()) == "function_call"@ {
            seq![tool_call_of(items.last())]
        } else {
            Seq::empty()
        }
    }
}

/// A message's `output` folded into `content` / `tool_calls`, unless it already has content.
pub open spec fn folded(es: Seq<(Seq<char>, JsonV)>) -> Seq<(Seq<char>, JsonV)> {
    match vmember(es, "output"@) {
        None => es,
        Some(output) => {
            let r = vremove(es, "output"@);
            if vhas(r, "content"@) {
                r
            } else {
                match output {
                    JsonV::Array(items) => {
                        let parts = fold_parts(items);
                        let calls = fold_calls(items);
                        let r1 = if parts.len() == 1 {
                            if parts[0] is Str {
                                vinsert(r, "content"@, parts[0])
                            } else {
                                vinsert(r, "content"@, JsonV::Array(parts))
                            }
                        } else if parts.len() > 0 {
                            vinsert(r, "content"@, JsonV::Array(parts))
                        } else {
                            r
                        };
                        let r2 = if calls.len() > 0 { vinsert(r1, "tool_calls"@, JsonV::Array(calls)) } else { r1 };
                        if vhas(r2, "content"@) { r2 } else { vinsert(r2, "content"@, JsonV::Null) }
                    },
                    JsonV::Str(_) => vinsert(r, "content"@, output),
                    _ => r,
                }
            }
        },
    }
}

/// The Responses-only message fields that are removed.
pub open spec fn stray_message_keys() -> Seq<Seq<char>> {
    seq!["id"@, "status"@, "metadata"@, "type"@, "input"@, "from_messages"@, "call_id"@, "reasoning"@, "annotations"@, "sender"@]
}

/// The members without any of the keys.
pub open spec fn without_keys(es: Seq<(Seq<char>, JsonV)>, keys: Seq<Seq<char>>) -> Seq<(Seq<char>, JsonV)>
    decreases keys.len(),
{
    if keys.len() == 0 {
        es
    } else {
        vremove(without_keys(es, keys.drop_last()), keys.last())
    }
}

/// A history message made acceptable to Chat upstreams: output folded,
/// Responses-only fields removed, content parts converted.
pub open spec fn sanitized_msg(msg: JsonV) -> JsonV {
    match msg {
        JsonV::Object(es) => content_converted(JsonV::Object(without_keys(folded(es), stray_message_keys()))),
        _ => msg,
    }
}

// ── Input items ──

/// The messages so far and the function calls waiting for a message.
pub open spec fn flush(st: (Seq<JsonV>, Seq<JsonV>)) -> Seq<JsonV> {
    if st.1.len() > 0 {
        st.0.push(calls_msg(st.1.map_values(|fc: JsonV| tool_call_of(fc))))
    } else {
        st.0
    }
}

/// One input item taken in: function calls wait; anything else first
/// flushes the waiting calls into an assistant message.
pub open spec fn item_step(st: (Seq<JsonV>, Seq<JsonV>), item: JsonV) -> (Seq<JsonV>, Seq<JsonV>) {
    match item {
        JsonV::Str(s) => (flush(st).push(role_msg(item, "user"@)), Seq::empty()),
        JsonV::Object(es) => {
            let t = or_text(vtext(vmember(es, "type"@)), Seq::empty());
            if t == "function_call_output"@ {
                (flush(st).push(tool_msg(or_text(vtext(vmember(es, "call_id"@)), Seq::empty()),
                    or_text(vtext(vmember(es, "output"@)), Seq::empty()))), Seq::empty())
            } else if t == "function_call"@ {
                (st.0, st.1.push(item))
            } else if vhas(es, "role"@) {
                (flush(st).push(sanitized_msg(item)), Seq::empty())
            } else {
                match vmember(es, "content"@) {
                    Some(c) => (flush(st).push(content_converted(user_msg_of(c))), Seq::empty()),
                    None => (flush(st).push(role_msg(item, "user"@)), Seq::empty()),
                }
            }
        },
        _ => (flush(st).push(role_msg(item, "user"@)), Seq::empty()),
    }
}

/// The state after taking in the items in order.
pub open spec fn items_state(items: Seq<JsonV>) -> (Seq<JsonV>, Seq<JsonV>)
    decreases items.len(),
{
    if items.len() == 0 {
        (Seq::empty(), Seq::empty())
    } else {
        item_step(items_state(items.drop_last()), items.last())
    }
}

/// The messages made from an `input` value.
pub open spec fn input_messages(input: JsonV) -> Seq<JsonV> {
    match input {
        JsonV::Str(_) => seq![role_msg(input, "user"@)],
        JsonV::Array(items) => flush(items_state(items)),
        _ => seq![role_msg(input, "user"@)],
    }
}

// ── Tools ──

/// The function fields moved between the tool and its `function` object.
pub open spec fn moved_fn(fes: Seq<(Seq<char>, JsonV)>, from: Seq<(Seq<char>, JsonV)>, order: Seq<Seq<char>>) -> Seq<(Seq<char>, JsonV)>
    decreases order.len(),
{
    if order.len() == 0 {
        fes
    } else {
        vput_opt(moved_fn(fes, from, order.drop_last()), order.last(), vmember(from, order.last()))
    }
}

/// A function tool in Chat form: top-level function fields nested under
/// `function` (or stray ones swept into an existing `function` object), and
/// every key but `type` and `function` dropped.
pub open spec fn nested_tool(es: Seq<(Seq<char>, JsonV)>) -> Seq<(Seq<char>, JsonV)> {
    let n = if vhas(es, "name"@) && !vhas(es, "function"@) {
        let order = seq!["name"@, "description"@, "parameters"@, "strict"@];
        let f = moved_fn(Seq::empty(), es, order);
        let rest = without_keys(es, order);
        if f.len() > 0 { vinsert(rest, "function"@, JsonV::Object(f)) } else { rest }
    } else if vhas(es, "function"@) {
        let stray = seq!["strict"@, "name"@, "description"@, "parameters"@];
        let rest = without_keys(es, seq!["strict"@, "name"@, "description"@, "parameters"@]);
        match vmember(rest, "function"@) {
            Some(JsonV::Object(fes)) => vinsert(rest, "function"@, JsonV::Object(moved_fn(fes, es, stray))),
            _ => rest,
        }
    } else {
        es
    };
    keep(n, |e: (Seq<char>, JsonV)| e.0 == "type"@ || e.0 == "function"@)
}

/// The tools kept for a Chat request: function tools converted, others dropped.
pub open spec fn chat_tools(ts: Seq<JsonV>) -> Seq<JsonV>
    decreases ts.len(),
{
    if ts.len() == 0 {
        Seq::empty()
    } else {
        let t = ts.last();
        chat_tools(ts.drop_last()) + if item_type(t) == "function"@ {
            seq![match t {
                JsonV::Object(es) => JsonV::Object(nested_tool(es)),
                _ => t,
            }]
        } else {
            Seq::empty()
        }
    }
}

/// The function names of the tools.
pub open spec fn tool_names(ts: Seq<JsonV>) -> Seq<Seq<char>>
    decreases ts.len(),
{
    if ts.len() == 0 {
        Seq::empty()
    } else {
        tool_names(ts.drop_last()) + match vtext(vget_opt(vget(ts.last(), "function"@), "name"@)) {
            Some(n) => seq![n],
            None => Seq::empty(),
        }
    }
}

// ── Post-processing of messages ──

/// Whether a role is one Chat upstreams accept.
pub open spec fn valid_role(r: Seq<char>) -> bool {
    r == "user"@ || r == "assistant"@ || r == "system"@ || r == "tool"@
}

/// A message's role set, when it is an object.
pub open spec fn with_role(m: JsonV, role: Seq<char>) -> JsonV {
    match m {
        JsonV::Object(es) => JsonV::Object(vinsert(es, "role"@, JsonV::Str(role))),
        _ => m,
    }
}

/// A tool call whose function arguments are made valid JSON ("{}" when missing or not a string).
pub open spec fn fixed_call(tc: JsonV) -> JsonV {
    match tc {
        JsonV::Object(tes) => match vmember(tes, "function"@) {
            Some(JsonV::Object(fes)) => JsonV::Object(vinsert(tes, "function"@, JsonV::Object(match vmember(fes, "arguments"@) {
                Some(JsonV::Str(s)) => vinsert(fes, "arguments"@, JsonV::Str(sanitized_arguments(s))),
                _ => vinsert(fes, "arguments"@, JsonV::Str("{}"@)),
            }))),
            _ => tc,
        },
        _ => tc,
    }
}

/// A message after the role fixes and the tool-call argument fixes.
pub open spec fn fixed_msg(m: JsonV) -> JsonV {
    let m1 = if vtext(vget(m, "role"@)) == Some("developer"@) { with_role(m, "system"@) } else { m };
    let m2 = match vtext(vget(m1, "role"@)) {
        Some(r) => if valid_role(r) { m1 } else { with_role(m1, "user"@) },
        None => with_role(m1, "user"@),
    };
    match m2 {
        JsonV::Object(es) => match vmember(es, "tool_calls"@) {
            Some(JsonV::Array(tcs)) => JsonV::Object(vinsert(es, "tool_calls"@, JsonV::Array(tcs.map_values(|tc: JsonV| fixed_call(tc))))),
            _ => m2,
        },
        _ => m2,
    }
}

/// The ids of the tool calls of the messages.
pub open spec fn call_ids(ms: Seq<JsonV>) -> Seq<Seq<char>>
    decreases ms.len(),
{
    if ms.len() == 0 {
        Seq::empty()
    } else {
        call_ids(ms.drop_last()) + match vget(ms.last(), "tool_calls"@) {
            Some(JsonV::Array(tcs)) => ids_of(tcs),
            _ => Seq::empty(),
        }
    }
}

/// The string ids of a list of tool calls.
pub open spec fn ids_of(tcs: Seq<JsonV>) -> Seq<Seq<char>>
    decreases tcs.len(),
{
    if tcs.len() == 0 {
        Seq::empty()
    } else {
        ids_of(tcs.drop_last()) + match vtext(vget(tcs.last(), "id"@)) {
            Some(i) => seq![i],
            None => Seq::empty(),
        }
    }
}

/// Whether a message is a tool result whose call id is not among `ids`.
pub open spec fn orphan(m: JsonV, ids: Seq<Seq<char>>) -> bool {
    vtext(vget(m, "role"@)) == Some("tool"@) && !(match vtext(vget(m, "tool_call_id"@)) {
        Some(c) => ids.contains(c),
        None => false,
    })
}

/// The messages after all fixes, orphan tool results dropped.
pub open spec fn post_messages(ms: Seq<JsonV>) -> Seq<JsonV> {
    let fixed = ms.map_values(|m: JsonV| fixed_msg(m));
    let ids = call_ids(fixed);
    keep(fixed, |m: JsonV| !orphan(m, ids))
}

// ── The request ──

/// The Responses-only request fields that are removed at the end.
pub open spec fn stray_request_keys() -> Seq<Seq<char>> {
    seq!["previous_response_id"@, "store"@, "include"@, "truncation"@, "prompt_cache_key"@, "client_metadata"@,
        "x-codex-turn-metadata"@, "turn_id"@]
}

/// Step 1: `input` (or `from_messages`) becomes `messages`.
pub open spec fn with_messages(m0: Seq<(Seq<char>, JsonV)>) -> Seq<(Seq<char>, JsonV)> {
    match vmember(m0, "input"@) {
        Some(input) => vremove(vinsert(vremove(m0, "input"@), "messages"@, JsonV::Array(input_messages(input))), "from_messages"@),
        None => match vmember(m0, "from_messages"@) {
            Some(fm) => {
                let r = vremove(m0, "from_messages"@);
                match fm {
                    JsonV::Array(ms) => vinsert(r, "messages"@, JsonV::Array(ms.map_values(|m: JsonV| sanitized_msg(m)))),
                    _ => vinsert(r, "messages"@, fm),
                }
            },
            None => m0,
        },
    }
}

/// Step 2: string `instructions` become a leading system message.
pub open spec fn with_instructions(a: Seq<(Seq<char>, JsonV)>) -> Seq<(Seq<char>, JsonV)> {
    match vmember(a, "instructions"@) {
        Some(JsonV::Str(ins)) => {
            let r = vremove(a, "instructions"@);
            let msgs = match vmember(r, "messages"@) {
                Some(v) => v,
                None => JsonV::Array(Seq::empty()),
            };
            let new_msgs = match msgs {
                JsonV::Array(v) => JsonV::Array(seq![role_msg(JsonV::Str(ins), "system"@)] + v),
                _ => msgs,
            };
            vinsert(vremove(r, "messages"@), "messages"@, new_msgs)
        },
        Some(_) => vremove(a, "instructions"@),
        None => a,
    }
}

/// Step 3: `max_output_tokens` becomes `max_tokens` unless that is set.
pub open spec fn with_max_tokens(b: Seq<(Seq<char>, JsonV)>) -> Seq<(Seq<char>, JsonV)> {
    match vmember(b, "max_output_tokens"@) {
        Some(mt) => {
            let r = vremove(b, "max_output_tokens"@);
            if vhas(r, "max_tokens"@) { r } else { vinsert(r, "max_tokens"@, mt) }
        },
        None => b,
    }
}

/// Step 4: the tools converted; no tool left removes `tools`.
pub open spec fn with_tools(c: Seq<(Seq<char>, JsonV)>) -> Seq<(Seq<char>, JsonV)> {
    match vmember(c, "tools"@) {
        Some(JsonV::Array(ts)) => {
            let conv = chat_tools(ts);
            if conv.len() == 0 { vremove(c, "tools"@) } else { vinsert(c, "tools"@, JsonV::Array(conv)) }
        },
        _ => c,
    }
}

/// Step 5: `reasoning` (an object's `effort`, or a string) becomes `reasoning_effort` unless set.
pub open spec fn with_effort(d: Seq<(Seq<char>, JsonV)>) -> Seq<(Seq<char>, JsonV)> {
    match vmember(d, "reasoning"@) {
        Some(r) => {
            let rem = vremove(d, "reasoning"@);
            let effort = match vtext(vget(r, "effort"@)) {
                Some(e) => Some(e),
                None => match r {
                    JsonV::Str(s) => Some(s),
                    _ => None,
                },
            };
            match effort {
                Some(e) => if vhas(rem, "reasoning_effort"@) { rem } else { vinsert(rem, "reasoning_effort"@, JsonV::Str(e)) },
                None => rem,
            }
        },
        None => d,
    }
}

/// Whether the tool choice must go: no tools are left, it is not a function
/// choice, or it names a function that is not among the tools.
pub open spec fn drop_choice(e: Seq<(Seq<char>, JsonV)>) -> bool {
    if !vhas(e, "tools"@) {
        vhas(e, "tool_choice"@)
    } else {
        match vmember(e, "tool_choice"@) {
            None => false,
            Some(v) => {
                if or_text(vtext(vget(v, "type"@)), "function"@) != "function"@ {
                    true
                } else {
                    match vtext(vget(v, "name"@)) {
                        Some(n) => !(match vmember(e, "tools"@) {
                            Some(JsonV::Array(ts)) => tool_names(ts),
                            _ => Seq::empty(),
                        }).contains(n),
                        None => false,
                    }
                }
            },
        }
    }
}

/// Step 6: the tool choice dropped or put in Chat form (`name` nested under
/// `function`, other keys but `type` and `function` dropped).
pub open spec fn with_choice(e: Seq<(Seq<char>, JsonV)>) -> Seq<(Seq<char>, JsonV)> {
    let f1 = if drop_choice(e) { vremove(e, "tool_choice"@) } else { e };
    match vmember(f1, "tool_choice"@) {
        Some(JsonV::Object(tes)) => {
            let t1 = if vhas(tes, "name"@) && !vhas(tes, "function"@) {
                match vmember(tes, "name"@) {
                    Some(nm) => vinsert(vremove(tes, "name"@), "function"@, JsonV::Object(seq![("name"@, nm)])),
                    None => tes,
                }
            } else {
                tes
            };
            vinsert(f1, "tool_choice"@, JsonV::Object(keep(t1, |x: (Seq<char>, JsonV)| x.0 == "type"@ || x.0 == "function"@)))
        },
        _ => f1,
    }
}

/// Step 7: `text.format` becomes `response_format` unless set (a JSON schema
/// nested under `json_schema`, a plain text format omitted).
pub open spec fn with_format(f: Seq<(Seq<char>, JsonV)>) -> Seq<(Seq<char>, JsonV)> {
    match vmember(f, "text"@) {
        Some(t) => {
            let r = vremove(f, "text"@);
            match vget(t, "format"@) {
                Some(fmt) => if vhas(r, "response_format"@) {
                    r
                } else {
                    match fmt {
                        JsonV::Object(fes) => {
                            let ty = or_text(vtext(vmember(fes, "type"@)), Seq::empty());
                            if ty == "json_schema"@ {
                                let order = seq!["name"@, "schema"@, "strict"@, "description"@];
                                let inner = moved_fn(Seq::empty(), fes, order);
                                vinsert(r, "response_format"@, JsonV::Object(vinsert(without_keys(fes, order), "json_schema"@, JsonV::Object(inner))))
                            } else if ty == "text"@ {
                                r
                            } else {
                                vinsert(r, "response_format"@, fmt)
                            }
                        },
                        _ => vinsert(r, "response_format"@, fmt),
                    }
                },
                None => r,
            }
        },
        None => f,
    }
}

/// Step 8: the messages fixed and orphan tool results dropped.
pub open spec fn with_post(g: Seq<(Seq<char>, JsonV)>) -> Seq<(Seq<char>, JsonV)> {
    match vmember(g, "messages"@) {
        Some(JsonV::Array(ms)) => vinsert(g, "messages"@, JsonV::Array(post_messages(ms))),
        _ => g,
    }
}

/// The members of the Chat request made from the members of a Responses request.
pub open spec fn chat_request_members(m0: Seq<(Seq<char>, JsonV)>) -> Seq<(Seq<char>, JsonV)> {
    without_keys(with_post(with_format(with_choice(with_effort(with_tools(with_max_tokens(
        with_instructions(with_messages(m0)))))))), stray_request_keys())
}

// ── Building blocks ──

fn str_json(s: &str) -> (r: Json)
    ensures
        jv(r) == JsonV::Str(s@),
{
    Json::Str(owned(s))
}

fn push_item(out: &mut Vec<Json>, item: Json)
    ensures
        jv_seq(final(out)@) == jv_seq(old(out)@).push(jv(item)),
{
    out.push(item);
    proof {
        assert(out@.drop_last() =~= old(out)@);
    }
}

proof fn lemma_jv_seq_take(s: Seq<Json>, i: int)
    requires
        0 <= i < s.len(),
    ensures
        jv_seq(s.take(i + 1)) == jv_seq(s.take(i)).push(jv(s[i])),
        jv_seq(s).take(i + 1) == jv_seq(s.take(i + 1)),
        jv_seq(s)[i] == jv(s[i]),
{
    assert(s.take(i + 1).drop_last() =~= s.take(i));
    assert(s.take(i + 1).last() == s[i]);
    lemma_jv_seq(s);
    lemma_jv_seq(s.take(i + 1));
    assert(jv_seq(s).take(i + 1) =~= jv_seq(s.take(i + 1)));
}

fn copy_members(es: &Vec<(String, Json)>) -> (r: Vec<(String, Json)>)
    ensures
        jv_members(r@) == jv_members(es@),
{
    let mut out: Vec<(String, Json)> = Vec::new();
    let mut i: usize = 0;
    while i < es.len()
        invariant
            i <= es.len(),
            out@.len() == i,
            forall|x: int| 0 <= x < i ==> (#[trigger] out@[x]).0@ == es@[x].0@ && jv(out@[x].1) == jv(es@[x].1),
        decreases es.len() - i,
    {
        out.push((es[i].0.clone(), json::copy_json(&es[i].1)));
        i += 1;
    }
    proof {
        lemma_jv_members(es@);
        json::lemma_jv_members_ext(out@, jv_members(es@));
    }
    out
}

fn member_text<'a>(es: &'a Vec<(String, Json)>, key: &str) -> (r: Option<&'a String>)
    ensures
        match r {
            Some(s) => vtext(vmember(jv_members(es@), key@)) == Some(s@),
            None => vtext(vmember(jv_members(es@), key@)) is None,
        },
{
    match json::member_index(es, key) {
        Some(i) => match &es[i].1 {
            Json::Str(s) => Some(s),
            _ => None,
        },
        None => None,
    }
}

fn value_text<'a>(j: &'a Json, key: &str) -> (r: Option<&'a String>)
    ensures
        match r {
            Some(s) => vtext(vget(jv(*j), key@)) == Some(s@),
            None => vtext(vget(jv(*j), key@)) is None,
        },
{
    proof {
        lemma_vget(*j, key@);
    }
    json::as_str(json::get_member(j, key))
}

fn text_or<'a>(t: Option<&'a String>, d: &'a str) -> (r: &'a str)
    ensures
        r@ == or_text(match t { Some(s) => Some(s@), None => None }, d@),
{
    match t {
        Some(s) => s.as_str(),
        None => d,
    }
}

fn object_json(es: Vec<(String, Json)>) -> (r: Json)
    ensures
        jv(r) == JsonV::Object(jv_members(es@)),
{
    Json::Object(es)
}

/// Removes every member whose key is one of `keys`.
fn strip_keys(es: &mut Vec<(String, Json)>, keys: &Vec<String>)
    ensures
        jv_members(final(es)@) == without_keys(jv_members(old(es)@), crate::text::texts(keys@)),
{
    let ghost start = jv_members(es@);
    let ghost ks = crate::text::texts(keys@);
    let mut i: usize = 0;
    while i < keys.len()
        invariant
            i <= keys.len(),
            ks == crate::text::texts(keys@),
            jv_members(es@) == without_keys(start, ks.take(i as int)),
        decreases keys.len() - i,
    {
        let _ = json::take_member(es, keys[i].as_str());
        proof {
            assert(ks.take(i + 1).drop_last() =~= ks.take(i as int));
            assert(ks.take(i + 1).last() == keys@[i as int]@);
        }
        i += 1;
    }
    proof {
        assert(ks.take(i as int) =~= ks);
    }
}

fn message_keys() -> (r: Vec<String>)
    ensures
        crate::text::texts(r@) == stray_message_keys(),
{
    let mut v: Vec<String> = Vec::new();
    v.push(owned("id"));
    v.push(owned("status"));
    v.push(owned("metadata"));
    v.push(owned("type"));
    v.push(owned("input"));
    v.push(owned("from_messages"));
    v.push(owned("call_id"));
    v.push(owned("reasoning"));
    v.push(owned("annotations"));
    v.push(owned("sender"));
    proof {
        assert(crate::text::texts(v@) =~= stray_message_keys());
    }
    v
}

fn request_keys() -> (r: Vec<String>)
    ensures
        crate::text::texts(r@) == stray_request_keys(),
{
    let mut v: Vec<String> = Vec::new();
    v.push(owned("previous_response_id"));
    v.push(owned("store"));
    v.push(owned("include"));
    v.push(owned("truncation"));
    v.push(owned("prompt_cache_key"));
    v.push(owned("client_metadata"));
    v.push(owned("x-codex-turn-metadata"));
    v.push(owned("turn_id"));
    proof {
        assert(crate::text::texts(v@) =~= stray_request_keys());
    }
    v
}

fn tool_call_json(fc: &Json) -> (r: Json)
    ensures
        jv(r) == tool_call_of(jv(*fc)),
{
    proof {
        reveal_strlit("");
        assert(""@ =~= Seq::<char>::empty());
    }
    let cid = value_text(fc, "call_id");
    let id_text = value_text(fc, "id");
    let id: &str = match cid {
        Some(c) => if str_chars(c.as_str()).len() > 0 { c.as_str() } else { text_or(id_text, "") },
        None => text_or(id_text, ""),
    };
    let name = text_or(value_text(fc, "name"), "");
    let args = sanitize_tool_arguments(text_or(value_text(fc, "arguments"), "{}"));
    let mut f: Vec<(String, Json)> = Vec::new();
    f.push((owned("arguments"), Json::Str(args)));
    f.push((owned("name"), str_json(name)));
    let ghost fv = f@;
    let mut es: Vec<(String, Json)> = Vec::new();
    es.push((owned("function"), Json::Object(f)));
    es.push((owned("id"), str_json(id)));
    es.push((owned("type"), str_json("function")));
    proof {
        lemma_jv_members(fv);
        lemma_jv_members(es@);
        assert(jv_members(fv) =~= seq![
            ("arguments"@, JsonV::Str(sanitized_arguments(or_text(vtext(vget(jv(*fc), "arguments"@)), "{}"@)))),
            ("name"@, JsonV::Str(or_text(vtext(vget(jv(*fc), "name"@)), Seq::empty()))),
        ]);
        assert(jv_members(es@) =~= seq![
            ("function"@, JsonV::Object(jv_members(fv))),
            ("id"@, JsonV::Str(call_id_of(jv(*fc)))),
            ("type"@, JsonV::Str("function"@)),
        ]);
    }
    Json::Object(es)
}

fn wrap_url_members(es: &mut Vec<(String, Json)>)
    ensures
        jv_members(final(es)@) == wrap_url(jv_members(old(es)@)),
{
    let url: Option<String> = match member_text(es, "image_url") {
        Some(u) => Some(u.clone()),
        None => None,
    };
    match url {
        Some(u) => {
            let mut inner: Vec<(String, Json)> = Vec::new();
            inner.push((owned("url"), Json::Str(u)));
            let ghost iv = inner@;
            json::put(es, "image_url", Json::Object(inner));
            proof {
                lemma_jv_members(iv);
                assert(jv_members(iv) =~= seq![("url"@, JsonV::Str(u@))]);
            }
        },
        None => {},
    }
}

fn chat_part_json(p: &Json) -> (r: Json)
    ensures
        jv(r) == chat_part(jv(*p)),
{
    match p {
        Json::Object(es) => {
            let t: Option<String> = match member_text(es, "type") {
                Some(s) => Some(s.clone()),
                None => None,
            };
            match t {
                Some(t) => {
                    let kind: u8 = if t == owned("input_text") || t == owned("output_text") {
                        1
                    } else if t == owned("input_image") || t == owned("output_image") {
                        2
                    } else if t == owned("input_file") || t == owned("output_file") {
                        3
                    } else if t == owned("input_audio") || t == owned("output_audio") {
                        4
                    } else {
                        0
                    };
                    if kind == 0 {
                        return json::copy_json(p);
                    }
                    let mut ces = copy_members(es);
                    if kind == 1 {
                        json::put(&mut ces, "type", str_json("text"));
                    } else if kind == 2 {
                        json::put(&mut ces, "type", str_json("image_url"));
                        wrap_url_members(&mut ces);
                    } else if kind == 3 {
                        json::put(&mut ces, "type", str_json("file"));
                    } else {
                        json::put(&mut ces, "type", str_json("audio"));
                    }
                    object_json(ces)
                },
                None => json::copy_json(p),
            }
        },
        _ => json::copy_json(p),
    }
}

fn convert_content_members(es: &mut Vec<(String, Json)>)
    ensures
        JsonV::Object(jv_members(final(es)@)) == content_converted(JsonV::Object(jv_members(old(es)@))),
{
    let conv: Option<Vec<Json>> = match json::member_index(es, "content") {
        Some(ci) => match &es[ci].1 {
            Json::Array(ps) => {
                let mut out: Vec<Json> = Vec::new();
                let mut i: usize = 0;
                while i < ps.len()
                    invariant
                        i <= ps.len(),
                        out@.len() == i,
                        forall|x: int| 0 <= x < i ==> jv(#[trigger] out@[x]) == chat_part(jv(ps@[x])),
                    decreases ps.len() - i,
                {
                    out.push(chat_part_json(&ps[i]));
                    i += 1;
                }
                proof {
                    lemma_jv_seq(ps@);
                    json::lemma_jv_seq_ext(out@, jv_seq(ps@).map_values(|p: JsonV| chat_part(p)));
                }
                Some(out)
            },
            _ => None,
        },
        None => None,
    };
    match conv {
        Some(out) => json::put(es, "content", Json::Array(out)),
        None => {},
    }
}

fn fold_output(items: &Vec<Json>) -> (r: (Vec<Json>, Vec<Json>))
    ensures
        jv_seq(r.0@) == fold_parts(jv_seq(items@)),
        jv_seq(r.1@) == fold_calls(jv_seq(items@)),
{
    proof {
        reveal_strlit("");
        assert(""@ =~= Seq::<char>::empty());
    }
    let mut parts: Vec<Json> = Vec::new();
    let mut calls: Vec<Json> = Vec::new();
    let mut i: usize = 0;
    proof {
        assert(jv_seq(items@.take(0)) =~= Seq::<JsonV>::empty());
        assert(jv_seq(parts@) =~= Seq::<JsonV>::empty());
    }
    while i < items.len()
        invariant
            i <= items.len(),
            ""@ == Seq::<char>::empty(),
            jv_seq(parts@) == fold_parts(jv_seq(items@.take(i as int))),
            jv_seq(calls@) == fold_calls(jv_seq(items@.take(i as int))),
        decreases items.len() - i,
    {
        let item = &items[i];
        proof {
            lemma_jv_seq_take(items@, i as int);
            let s = jv_seq(items@.take(i + 1));
            assert(s.drop_last() =~= jv_seq(items@.take(i as int)));
            assert(s.last() == jv(*item));
        }
        let ghost bp = jv_seq(parts@);
        let ghost bc = jv_seq(calls@);
        let t = text_or(value_text(item, "type"), "");
        let ts = owned(t);
        if ts == owned("function_call") {
            push_item(&mut calls, tool_call_json(item));
            proof {
                assert(jv_seq(parts@) =~= bp + Seq::<JsonV>::empty());
                assert(jv_seq(calls@) =~= bc + seq![tool_call_of(jv(*item))]);
            }
        } else if ts == owned("message") {
            proof {
                lemma_vget(*item, "content"@);
            }
            match json::get_member(item, "content") {
                Some(c) => match c {
                    Json::Array(a) => {
                        let mut k: usize = 0;
                        while k < a.len()
                            invariant
                                k <= a.len(),
                                jv_seq(parts@) == bp + jv_seq(a@).take(k as int),
                            decreases a.len() - k,
                        {
                            push_item(&mut parts, json::copy_json(&a[k]));
                            proof {
                                lemma_jv_seq(a@);
                                assert(jv_seq(a@).take(k + 1) =~= jv_seq(a@).take(k as int).push(jv(a@[k as int])));
                                assert(jv_seq(parts@) =~= bp + jv_seq(a@).take(k + 1));
                            }
                            k += 1;
                        }
                        proof {
                            lemma_jv_seq(a@);
                            assert(jv_seq(a@).take(k as int) =~= jv_seq(a@));
                        }
                    },
                    _ => {
                        push_item(&mut parts, json::copy_json(c));
                        proof {
                            assert(jv_seq(parts@) =~= bp + seq![jv(*c)]);
                        }
                    },
                },
                None => {
                    proof {
                        assert(jv_seq(parts@) =~= bp + Seq::<JsonV>::empty());
                    }
                },
            }
            proof {
                assert(jv_seq(calls@) =~= bc + Seq::<JsonV>::empty());
            }
        } else if ts == owned("reasoning") || ts == owned("function_call_output") || ts == owned("computer_call")
            || ts == owned("file_search_call") || ts == owned("web_search_call") || ts == owned("refusal")
            || ts == owned("output_refusal") {
            proof {
                assert(jv_seq(parts@) =~= bp + Seq::<JsonV>::empty());
                assert(jv_seq(calls@) =~= bc + Seq::<JsonV>::empty());
            }
        } else {
            push_item(&mut parts, json::copy_json(item));
            proof {
                assert(jv_seq(parts@) =~= bp + seq![jv(*item)]);
                assert(jv_seq(calls@) =~= bc + Seq::<JsonV>::empty());
            }
        }
        i += 1;
    }
    proof {
        assert(items@.take(i as int) =~= items@);
    }
    (parts, calls)
}

fn folded_members(es: &mut Vec<(String, Json)>)
    ensures
        jv_members(final(es)@) == folded(jv_members(old(es)@)),
{
    let ghost m = jv_members(es@);
    let ghost before = es@;
    let output = json::take_member(es, "output");
    proof {
        json::lemma_first_key(before, "output"@);
    }
    let output = match output {
        Some(o) => o,
        None => {
            proof {
                json::lemma_vremove_absent(m, "output"@);
            }
            return;
        },
    };
    if json::member_index(es, "content").is_some() {
        return;
    }
    match output {
        Json::Array(items) => {
            let (mut parts, calls) = fold_output(&items);
            let ghost r = jv_members(es@);
            let ghost pv = jv_seq(parts@);
            proof {
                lemma_jv_seq(parts@);
            }
            if parts.len() == 1 {
                let is_str = match &parts[0] {
                    Json::Str(_) => true,
                    _ => false,
                };
                if is_str {
                    let first = parts.remove(0);
                    json::put(es, "content", first);
                } else {
                    json::put(es, "content", Json::Array(parts));
                }
            } else if parts.len() > 0 {
                json::put(es, "content", Json::Array(parts));
            }
            let ghost r1 = jv_members(es@);
            proof {
                assert(r1 == (if pv.len() == 1 {
                    if pv[0] is Str { vinsert(r, "content"@, pv[0]) } else { vinsert(r, "content"@, JsonV::Array(pv)) }
                } else if pv.len() > 0 {
                    vinsert(r, "content"@, JsonV::Array(pv))
                } else {
                    r
                }));
            }
            if calls.len() > 0 {
                json::put(es, "tool_calls", Json::Array(calls));
            }
            proof {
                lemma_jv_seq(calls@);
            }
            if json::member_index(es, "content").is_none() {
                json::put(es, "content", Json::Null);
            }
        },
        Json::Str(s) => {
            json::put(es, "content", Json::Str(s));
        },
        _ => {},
    }
}

/// Makes a history message acceptable to Chat upstreams (see [`sanitized_msg`]).
fn sanitized_msg_json(msg: Json) -> (r: Json)
    ensures
        jv(r) == sanitized_msg(jv(msg)),
{
    match msg {
        Json::Object(mut es) => {
            folded_members(&mut es);
            let keys = message_keys();
            strip_keys(&mut es, &keys);
            convert_content_members(&mut es);
            Json::Object(es)
        },
        other => other,
    }
}

fn role_msg_json(content: Json, role: &str) -> (r: Json)
    ensures
        jv(r) == role_msg(jv(content), role@),
{
    let ghost cv = jv(content);
    let mut es: Vec<(String, Json)> = Vec::new();
    es.push((owned("content"), content));
    es.push((owned("role"), str_json(role)));
    proof {
        lemma_jv_members(es@);
        assert(jv_members(es@) =~= seq![("content"@, cv), ("role"@, JsonV::Str(role@))]);
    }
    Json::Object(es)
}

fn flush_json(msgs: &mut Vec<Json>, pending: &mut Vec<Json>)
    ensures
        jv_seq(final(msgs)@) == flush((jv_seq(old(msgs)@), jv_seq(old(pending)@))),
        final(pending)@.len() == 0,
{
    if pending.len() == 0 {
        proof {
            assert(jv_seq(pending@) =~= Seq::<JsonV>::empty());
        }
        return;
    }
    let mut calls: Vec<Json> = Vec::new();
    let mut i: usize = 0;
    while i < pending.len()
        invariant
            i <= pending.len(),
            calls@.len() == i,
            forall|x: int| 0 <= x < i ==> jv(#[trigger] calls@[x]) == tool_call_of(jv(pending@[x])),
        decreases pending.len() - i,
    {
        calls.push(tool_call_json(&pending[i]));
        i += 1;
    }
    proof {
        lemma_jv_seq(pending@);
        json::lemma_jv_seq_ext(calls@, jv_seq(pending@).map_values(|fc: JsonV| tool_call_of(fc)));
    }
    let ghost cv = jv_seq(calls@);
    let mut es: Vec<(String, Json)> = Vec::new();
    es.push((owned("content"), Json::Null));
    es.push((owned("role"), str_json("assistant")));
    es.push((owned("tool_calls"), Json::Array(calls)));
    proof {
        lemma_jv_members(es@);
        assert(jv_members(es@) =~= seq![
            ("content"@, JsonV::Null),
            ("role"@, JsonV::Str("assistant"@)),
            ("tool_calls"@, JsonV::Array(cv)),
        ]);
    }
    push_item(msgs, Json::Object(es));
    *pending = Vec::new();
    proof {
        assert(pending@ =~= Seq::<Json>::empty());
    }
}

fn tool_result_json(es: &Vec<(String, Json)>) -> (r: Json)
    ensures
        jv(r) == tool_msg(or_text(vtext(vmember(jv_members(es@), "call_id"@)), Seq::empty()),
            or_text(vtext(vmember(jv_members(es@), "output"@)), Seq::empty())),
{
    proof {
        reveal_strlit("");
        assert(""@ =~= Seq::<char>::empty());
    }
    let call_id = text_or(member_text(es, "call_id"), "");
    let output = text_or(member_text(es, "output"), "");
    let mut out: Vec<(String, Json)> = Vec::new();
    out.push((owned("content"), str_json(output)));
    out.push((owned("role"), str_json("tool")));
    out.push((owned("tool_call_id"), str_json(call_id)));
    proof {
        lemma_jv_members(out@);
        assert(jv_members(out@) =~= seq![
            ("content"@, JsonV::Str(output@)),
            ("role"@, JsonV::Str("tool"@)),
            ("tool_call_id"@, JsonV::Str(call_id@)),
        ]);
    }
    Json::Object(out)
}

fn take_item(msgs: &mut Vec<Json>, pending: &mut Vec<Json>, item: Json)
    ensures
        (jv_seq(final(msgs)@), jv_seq(final(pending)@)) == item_step((jv_seq(old(msgs)@), jv_seq(old(pending)@)), jv(item)),
{
    proof {
        reveal_strlit("");
        assert(""@ =~= Seq::<char>::empty());
    }
    let ghost st = (jv_seq(msgs@), jv_seq(pending@));
    let ghost iv = jv(item);
    match item {
        Json::Object(es) => {
            let t = owned(text_or(member_text(&es, "type"), ""));
            if t == owned("function_call_output") {
                flush_json(msgs, pending);
                push_item(msgs, tool_result_json(&es));
                proof {
                    assert(jv_seq(pending@) =~= Seq::<JsonV>::empty());
                }
            } else if t == owned("function_call") {
                push_item(pending, Json::Object(es));
            } else if json::member_index(&es, "role").is_some() {
                flush_json(msgs, pending);
                push_item(msgs, sanitized_msg_json(Json::Object(es)));
                proof {
                    assert(jv_seq(pending@) =~= Seq::<JsonV>::empty());
                }
            } else {
                let content: Option<Json> = match json::member_index(&es, "content") {
                    Some(ci) => Some(json::copy_json(&es[ci].1)),
                    None => None,
                };
                flush_json(msgs, pending);
                match content {
                    Some(c) => {
                        let ghost cv = jv(c);
                        let mut m: Vec<(String, Json)> = Vec::new();
                        m.push((owned("role"), str_json("user")));
                        m.push((owned("content"), c));
                        proof {
                            lemma_jv_members(m@);
                            assert(jv_members(m@) =~= seq![("role"@, JsonV::Str("user"@)), ("content"@, cv)]);
                        }
                        convert_content_members(&mut m);
                        push_item(msgs, Json::Object(m));
                    },
                    None => {
                        push_item(msgs, role_msg_json(Json::Object(es), "user"));
                    },
                }
                proof {
                    assert(jv_seq(pending@) =~= Seq::<JsonV>::empty());
                }
            }
        },
        other => {
            flush_json(msgs, pending);
            push_item(msgs, role_msg_json(other, "user"));
            proof {
                assert(jv_seq(pending@) =~= Seq::<JsonV>::empty());
            }
        },
    }
}

/// The messages made from an `input` value (see [`input_messages`]).
fn input_messages_json(input: Json) -> (r: Vec<Json>)
    ensures
        jv_seq(r@) == input_messages(jv(input)),
{
    let ghost iv = jv(input);
    match input {
        Json::Array(items) => {
            let ghost itv = jv_seq(items@);
            let mut msgs: Vec<Json> = Vec::new();
            let mut pending: Vec<Json> = Vec::new();
            let mut rest = items;
            let mut i: usize = 0;
            let n = rest.len();
            let ghost orig = rest@;
            proof {
                assert(rest@.skip(0) =~= orig);
                assert(jv_seq(msgs@) =~= Seq::<JsonV>::empty());
                assert(orig.take(0) =~= Seq::<Json>::empty());
            }
            while i < n
                invariant
                    i <= n,
                    n == orig.len(),
                    rest@ == orig.skip(i as int),
                    (jv_seq(msgs@), jv_seq(pending@)) == items_state(jv_seq(orig.take(i as int))),
                decreases n - i,
            {
                let item = rest.remove(0);
                proof {
                    assert(item == orig[i as int]);
                    assert(rest@ =~= orig.skip(i + 1));
                    lemma_jv_seq_take(orig, i as int);
                    let s = jv_seq(orig.take(i + 1));
                    assert(s.drop_last() =~= jv_seq(orig.take(i as int)));
                }
                take_item(&mut msgs, &mut pending, item);
                i += 1;
            }
            flush_json(&mut msgs, &mut pending);
            proof {
                assert(orig.take(i as int) =~= orig);
            }
            msgs
        },
        other => {
            let mut msgs: Vec<Json> = Vec::new();
            push_item(&mut msgs, role_msg_json(other, "user"));
            proof {
                assert(jv_seq(Seq::<Json>::empty()) =~= Seq::<JsonV>::empty());
            }
            msgs
        },
    }
}

fn move_fields(fes: &mut Vec<(String, Json)>, from: &Vec<(String, Json)>, keys: &Vec<String>)
    ensures
        jv_members(final(fes)@) == moved_fn(jv_members(old(fes)@), jv_members(from@), crate::text::texts(keys@)),
{
    let ghost start = jv_members(fes@);
    let ghost ks = crate::text::texts(keys@);
    let mut i: usize = 0;
    while i < keys.len()
        invariant
            i <= keys.len(),
            ks == crate::text::texts(keys@),
            jv_members(fes@) == moved_fn(start, jv_members(from@), ks.take(i as int)),
        decreases keys.len() - i,
    {
        proof {
            assert(ks.take(i + 1).drop_last() =~= ks.take(i as int));
            assert(ks.take(i + 1).last() == keys@[i as int]@);
        }
        match json::member_index(from, keys[i].as_str()) {
            Some(j) => {
                json::put(fes, keys[i].as_str(), json::copy_json(&from[j].1));
            },
            None => {},
        }
        i += 1;
    }
    proof {
        assert(ks.take(i as int) =~= ks);
    }
}

fn text_list(a: &str, b: &str, c: &str, d: &str) -> (r: Vec<String>)
    ensures
        crate::text::texts(r@) == seq![a@, b@, c@, d@],
{
    let mut v: Vec<String> = Vec::new();
    v.push(owned(a));
    v.push(owned(b));
    v.push(owned(c));
    v.push(owned(d));
    proof {
        assert(crate::text::texts(v@) =~= seq![a@, b@, c@, d@]);
    }
    v
}

fn keep_type_and_function(es: &Vec<(String, Json)>) -> (r: Vec<(String, Json)>)
    ensures
        jv_members(r@) == keep(jv_members(es@), |e: (Seq<char>, JsonV)| e.0 == "type"@ || e.0 == "function"@),
{
    let ghost f = |e: (Seq<char>, JsonV)| e.0 == "type"@ || e.0 == "function"@;
    let ty = owned("type");
    let func = owned("function");
    let mut out: Vec<(String, Json)> = Vec::new();
    let mut i: usize = 0;
    proof {
        assert(es@.take(0) =~= Seq::<(String, Json)>::empty());
        assert(jv_members(out@) =~= Seq::<(Seq<char>, JsonV)>::empty());
    }
    while i < es.len()
        invariant
            i <= es.len(),
            ty@ == "type"@,
            func@ == "function"@,
            f == (|e: (Seq<char>, JsonV)| e.0 == "type"@ || e.0 == "function"@),
            jv_members(out@) == keep(jv_members(es@.take(i as int)), f),
        decreases es.len() - i,
    {
        proof {
            assert(es@.take(i + 1) =~= es@.take(i as int).push(es@[i as int]));
            assert(es@.take(i + 1).drop_last() =~= es@.take(i as int));
            let w = jv_members(es@.take(i + 1));
            assert(w.drop_last() =~= jv_members(es@.take(i as int)));
            assert(w.last() == (es@[i as int].0@, jv(es@[i as int].1)));
        }
        if es[i].0 == ty || es[i].0 == func {
            let ghost b = out@;
            out.push((es[i].0.clone(), json::copy_json(&es[i].1)));
            proof {
                assert(out@.drop_last() =~= b);
            }
        }
        i += 1;
    }
    proof {
        assert(es@.take(i as int) =~= es@);
    }
    out
}

fn nested_tool_members(es: Vec<(String, Json)>) -> (r: Vec<(String, Json)>)
    ensures
        jv_members(r@) == nested_tool(jv_members(es@)),
{
    let ghost m = jv_members(es@);
    let has_name = json::member_index(&es, "name").is_some();
    let has_fn = json::member_index(&es, "function").is_some();
    let mut es = es;
    if has_name && !has_fn {
        let order = text_list("name", "description", "parameters", "strict");
        let mut f: Vec<(String, Json)> = Vec::new();
        proof {
            assert(jv_members(f@) =~= Seq::<(Seq<char>, JsonV)>::empty());
        }
        move_fields(&mut f, &es, &order);
        strip_keys(&mut es, &order);
        proof {
            lemma_jv_members(f@);
        }
        if f.len() > 0 {
            json::put(&mut es, "function", Json::Object(f));
        }
    } else if has_fn {
        let stray = text_list("strict", "name", "description", "parameters");
        let orig = copy_members(&es);
        strip_keys(&mut es, &stray);
        let conv: Option<Vec<(String, Json)>> = match json::member_index(&es, "function") {
            Some(fi) => match &es[fi].1 {
                Json::Object(fes) => {
                    let mut fes2 = copy_members(fes);
                    move_fields(&mut fes2, &orig, &stray);
                    Some(fes2)
                },
                _ => None,
            },
            None => None,
        };
        match conv {
            Some(fes2) => json::put(&mut es, "function", Json::Object(fes2)),
            None => {},
        }
    }
    keep_type_and_function(&es)
}

fn chat_tools_json(ts: &Vec<Json>) -> (r: Vec<Json>)
    ensures
        jv_seq(r@) == chat_tools(jv_seq(ts@)),
{
    proof {
        reveal_strlit("");
        assert(""@ =~= Seq::<char>::empty());
    }
    let mut out: Vec<Json> = Vec::new();
    let mut i: usize = 0;
    proof {
        assert(jv_seq(ts@.take(0)) =~= Seq::<JsonV>::empty());
        assert(jv_seq(out@) =~= Seq::<JsonV>::empty());
    }
    while i < ts.len()
        invariant
            i <= ts.len(),
            ""@ == Seq::<char>::empty(),
            jv_seq(out@) == chat_tools(jv_seq(ts@.take(i as int))),
        decreases ts.len() - i,
    {
        let t = &ts[i];
        proof {
            lemma_jv_seq_take(ts@, i as int);
            let s = jv_seq(ts@.take(i + 1));
            assert(s.drop_last() =~= jv_seq(ts@.take(i as int)));
            assert(s.last() == jv(*t));
        }
        let ghost b = jv_seq(out@);
        let ty = owned(text_or(value_text(t, "type"), ""));
        if ty == owned("function") {
            let conv = match t {
                Json::Object(es) => Json::Object(nested_tool_members(copy_members(es))),
                _ => json::copy_json(t),
            };
            push_item(&mut out, conv);
            proof {
                assert(jv_seq(out@) =~= b + seq![jv(conv)]);
            }
        } else {
            proof {
                assert(jv_seq(out@) =~= b + Seq::<JsonV>::empty());
            }
        }
        i += 1;
    }
    proof {
        assert(ts@.take(i as int) =~= ts@);
    }
    out
}

fn tool_names_vec(ts: &Vec<Json>) -> (r: Vec<String>)
    ensures
        crate::text::texts(r@) == tool_names(jv_seq(ts@)),
{
    let mut out: Vec<String> = Vec::new();
    let mut i: usize = 0;
    proof {
        assert(jv_seq(ts@.take(0)) =~= Seq::<JsonV>::empty());
        assert(crate::text::texts(out@) =~= Seq::<Seq<char>>::empty());
    }
    while i < ts.len()
        invariant
            i <= ts.len(),
            crate::text::texts(out@) == tool_names(jv_seq(ts@.take(i as int))),
        decreases ts.len() - i,
    {
        let t = &ts[i];
        proof {
            lemma_jv_seq_take(ts@, i as int);
            let s = jv_seq(ts@.take(i + 1));
            assert(s.drop_last() =~= jv_seq(ts@.take(i as int)));
            assert(s.last() == jv(*t));
            lemma_vget(*t, "function"@);
        }
        let f = json::get_member(t, "function");
        proof {
            match json::opt_val(f) {
                Some(fv) => lemma_vget(fv, "name"@),
                None => {},
            }
        }
        let ghost b = crate::text::texts(out@);
        match json::as_str(json::get_in(f, "name")) {
            Some(n) => {
                out.push(n.clone());
                proof {
                    assert(crate::text::texts(out@) =~= b + seq![n@]);
                }
            },
            None => {
                proof {
                    assert(crate::text::texts(out@) =~= b + Seq::<Seq<char>>::empty());
                }
            },
        }
        i += 1;
    }
    proof {
        assert(ts@.take(i as int) =~= ts@);
    }
    out
}

fn has_text(v: &Vec<String>, s: &String) -> (r: bool)
    ensures
        r == crate::text::texts(v@).contains(s@),
{
    let mut i: usize = 0;
    while i < v.len()
        invariant
            i <= v.len(),
            forall|x: int| 0 <= x < i ==> v@[x]@ != s@,
        decreases v.len() - i,
    {
        if v[i] == *s {
            proof {
                assert(crate::text::texts(v@)[i as int] == s@);
            }
            return true;
        }
        i += 1;
    }
    proof {
        if crate::text::texts(v@).contains(s@) {
            let k = choose|k: int| 0 <= k < crate::text::texts(v@).len() && crate::text::texts(v@)[k] == s@;
            assert(v@[k]@ == s@);
        }
    }
    false
}

fn fixed_call_json(tc: &Json) -> (r: Json)
    ensures
        jv(r) == fixed_call(jv(*tc)),
{
    match tc {
        Json::Object(tes) => {
            let conv: Option<Vec<(String, Json)>> = match json::member_index(tes, "function") {
                Some(fi) => match &tes[fi].1 {
                    Json::Object(fes) => {
                        let mut f2 = copy_members(fes);
                        let args: Option<String> = match member_text(fes, "arguments") {
                            Some(s) => Some(sanitize_tool_arguments(s.as_str())),
                            None => None,
                        };
                        match args {
                            Some(a) => json::put(&mut f2, "arguments", Json::Str(a)),
                            None => json::put(&mut f2, "arguments", str_json("{}")),
                        }
                        Some(f2)
                    },
                    _ => None,
                },
                None => None,
            };
            match conv {
                Some(f2) => {
                    let mut t2 = copy_members(tes);
                    json::put(&mut t2, "function", Json::Object(f2));
                    Json::Object(t2)
                },
                None => json::copy_json(tc),
            }
        },
        _ => json::copy_json(tc),
    }
}

fn is_valid_role(r: &String) -> (b: bool)
    ensures
        b == valid_role(r@),
{
    *r == owned("user") || *r == owned("assistant") || *r == owned("system") || *r == owned("tool")
}

fn fixed_msg_json(m: &Json) -> (r: Json)
    ensures
        jv(r) == fixed_msg(jv(*m)),
{
    match m {
        Json::Object(es) => {
            let mut ces = copy_members(es);
            let is_dev = match member_text(&ces, "role") {
                Some(r) => *r == owned("developer"),
                None => false,
            };
            if is_dev {
                json::put(&mut ces, "role", str_json("system"));
            }
            let valid = match member_text(&ces, "role") {
                Some(r) => is_valid_role(r),
                None => false,
            };
            if !valid {
                json::put(&mut ces, "role", str_json("user"));
            }
            let conv: Option<Vec<Json>> = match json::member_index(&ces, "tool_calls") {
                Some(ti) => match &ces[ti].1 {
                    Json::Array(tcs) => {
                        let mut out: Vec<Json> = Vec::new();
                        let mut i: usize = 0;
                        while i < tcs.len()
                            invariant
                                i <= tcs.len(),
                                out@.len() == i,
                                forall|x: int| 0 <= x < i ==> jv(#[trigger] out@[x]) == fixed_call(jv(tcs@[x])),
                            decreases tcs.len() - i,
                        {
                            out.push(fixed_call_json(&tcs[i]));
                            i += 1;
                        }
                        proof {
                            lemma_jv_seq(tcs@);
                            json::lemma_jv_seq_ext(out@, jv_seq(tcs@).map_values(|tc: JsonV| fixed_call(tc)));
                        }
                        Some(out)
                    },
                    _ => None,
                },
                None => None,
            };
            match conv {
                Some(out) => json::put(&mut ces, "tool_calls", Json::Array(out)),
                None => {},
            }
            Json::Object(ces)
        },
        _ => json::copy_json(m),
    }
}

fn ids_vec(tcs: &Vec<Json>, out: &mut Vec<String>)
    ensures
        crate::text::texts(final(out)@) == crate::text::texts(old(out)@) + ids_of(jv_seq(tcs@)),
{
    let ghost start = crate::text::texts(out@);
    let mut i: usize = 0;
    proof {
        assert(jv_seq(tcs@.take(0)) =~= Seq::<JsonV>::empty());
        assert(crate::text::texts(out@) =~= start + ids_of(jv_seq(tcs@.take(0))));
    }
    while i < tcs.len()
        invariant
            i <= tcs.len(),
            crate::text::texts(out@) == start + ids_of(jv_seq(tcs@.take(i as int))),
        decreases tcs.len() - i,
    {
        proof {
            lemma_jv_seq_take(tcs@, i as int);
            let s = jv_seq(tcs@.take(i + 1));
            assert(s.drop_last() =~= jv_seq(tcs@.take(i as int)));
            assert(s.last() == jv(tcs@[i as int]));
        }
        let ghost b = crate::text::texts(out@);
        match value_text(&tcs[i], "id") {
            Some(id) => {
                out.push(id.clone());
                proof {
                    assert(crate::text::texts(out@) =~= b.push(id@));
                    assert(start + ids_of(jv_seq(tcs@.take(i + 1))) =~= b + seq![id@]);
                }
            },
            None => {
                proof {
                    assert(start + ids_of(jv_seq(tcs@.take(i + 1))) =~= b + Seq::<Seq<char>>::empty());
                }
            },
        }
        i += 1;
    }
    proof {
        assert(tcs@.take(i as int) =~= tcs@);
    }
}

fn call_ids_vec(ms: &Vec<Json>) -> (r: Vec<String>)
    ensures
        crate::text::texts(r@) == call_ids(jv_seq(ms@)),
{
    let mut out: Vec<String> = Vec::new();
    let mut i: usize = 0;
    proof {
        assert(jv_seq(ms@.take(0)) =~= Seq::<JsonV>::empty());
        assert(crate::text::texts(out@) =~= Seq::<Seq<char>>::empty());
    }
    while i < ms.len()
        invariant
            i <= ms.len(),
            crate::text::texts(out@) == call_ids(jv_seq(ms@.take(i as int))),
        decreases ms.len() - i,
    {
        let m = &ms[i];
        proof {
            lemma_jv_seq_take(ms@, i as int);
            let s = jv_seq(ms@.take(i + 1));
            assert(s.drop_last() =~= jv_seq(ms@.take(i as int)));
            assert(s.last() == jv(*m));
            lemma_vget(*m, "tool_calls"@);
        }
        let ghost b = crate::text::texts(out@);
        match json::get_member(m, "tool_calls") {
            Some(tc) => match tc {
                Json::Array(tcs) => {
                    ids_vec(tcs, &mut out);
                },
                _ => {
                    proof {
                        assert(crate::text::texts(out@) =~= b + Seq::<Seq<char>>::empty());
                    }
                },
            },
            None => {
                proof {
                    assert(crate::text::texts(out@) =~= b + Seq::<Seq<char>>::empty());
                }
            },
        }
        i += 1;
    }
    proof {
        assert(ms@.take(i as int) =~= ms@);
    }
    out
}

fn is_orphan(m: &Json, ids: &Vec<String>) -> (r: bool)
    ensures
        r == orphan(jv(*m), crate::text::texts(ids@)),
{
    let is_tool = match value_text(m, "role") {
        Some(r) => *r == owned("tool"),
        None => false,
    };
    if !is_tool {
        return false;
    }
    match value_text(m, "tool_call_id") {
        Some(c) => !has_text(ids, c),
        None => true,
    }
}

fn post_messages_json(ms: &Vec<Json>) -> (r: Vec<Json>)
    ensures
        jv_seq(r@) == post_messages(jv_seq(ms@)),
{
    let mut fixed: Vec<Json> = Vec::new();
    let mut i: usize = 0;
    while i < ms.len()
        invariant
            i <= ms.len(),
            fixed@.len() == i,
            forall|x: int| 0 <= x < i ==> jv(#[trigger] fixed@[x]) == fixed_msg(jv(ms@[x])),
        decreases ms.len() - i,
    {
        fixed.push(fixed_msg_json(&ms[i]));
        i += 1;
    }
    proof {
        lemma_jv_seq(ms@);
        json::lemma_jv_seq_ext(fixed@, jv_seq(ms@).map_values(|m: JsonV| fixed_msg(m)));
    }
    let ghost fv = jv_seq(fixed@);
    let ids = call_ids_vec(&fixed);
    let ghost idv = crate::text::texts(ids@);
    let ghost f = |m: JsonV| !orphan(m, idv);
    let mut out: Vec<Json> = Vec::new();
    let mut k: usize = 0;
    proof {
        assert(fv.take(0) =~= Seq::<JsonV>::empty());
        assert(jv_seq(out@) =~= Seq::<JsonV>::empty());
    }
    while k < fixed.len()
        invariant
            k <= fixed.len(),
            fv == jv_seq(fixed@),
            idv == crate::text::texts(ids@),
            f == (|m: JsonV| !orphan(m, idv)),
            jv_seq(out@) == keep(fv.take(k as int), f),
        decreases fixed.len() - k,
    {
        proof {
            lemma_jv_seq(fixed@);
            assert(fv.take(k + 1).drop_last() =~= fv.take(k as int));
            assert(fv.take(k + 1).last() == jv(fixed@[k as int]));
        }
        if !is_orphan(&fixed[k], &ids) {
            push_item(&mut out, json::copy_json(&fixed[k]));
        }
        k += 1;
    }
    proof {
        lemma_jv_seq(fixed@);
        assert(fv.take(k as int) =~= fv);
    }
    out
}

fn system_msg_json(text: &String) -> (r: Json)
    ensures
        jv(r) == role_msg(JsonV::Str(text@), "system"@),
{
    role_msg_json(Json::Str(text.clone()), "system")
}

fn step_messages(es: &mut Vec<(String, Json)>)
    ensures
        jv_members(final(es)@) == with_messages(jv_members(old(es)@)),
{
    let ghost m0 = jv_members(es@);
    let ghost b0 = es@;
    let input = json::take_member(es, "input");
    proof {
        json::lemma_first_key(b0, "input"@);
    }
    match input {
        Some(inp) => {
            let msgs = input_messages_json(inp);
            json::put(es, "messages", Json::Array(msgs));
            let _ = json::take_member(es, "from_messages");
        },
        None => {
            proof {
                json::lemma_vremove_absent(m0, "input"@);
            }
            let ghost b1 = es@;
            let fm = json::take_member(es, "from_messages");
            proof {
                json::lemma_first_key(b1, "from_messages"@);
            }
            match fm {
                Some(Json::Array(ms)) => {
                    let ghost msv = jv_seq(ms@);
                    let mut rest = ms;
                    let n = rest.len();
                    let ghost orig = rest@;
                    let mut out: Vec<Json> = Vec::new();
                    let mut i: usize = 0;
                    proof {
                        assert(rest@.skip(0) =~= orig);
                    }
                    while i < n
                        invariant
                            i <= n,
                            n == orig.len(),
                            rest@ == orig.skip(i as int),
                            out@.len() == i,
                            forall|x: int| 0 <= x < i ==> jv(#[trigger] out@[x]) == sanitized_msg(jv(orig[x])),
                        decreases n - i,
                    {
                        let m = rest.remove(0);
                        proof {
                            assert(m == orig[i as int]);
                            assert(rest@ =~= orig.skip(i + 1));
                        }
                        out.push(sanitized_msg_json(m));
                        i += 1;
                    }
                    proof {
                        lemma_jv_seq(orig);
                        json::lemma_jv_seq_ext(out@, jv_seq(orig).map_values(|m: JsonV| sanitized_msg(m)));
                    }
                    json::put(es, "messages", Json::Array(out));
                },
                Some(other) => {
                    json::put(es, "messages", other);
                },
                None => {
                    proof {
                        json::lemma_vremove_absent(m0, "from_messages"@);
                    }
                },
            }
        },
    }
}

fn step_instructions(es: &mut Vec<(String, Json)>)
    ensures
        jv_members(final(es)@) == with_instructions(jv_members(old(es)@)),
{
    let ghost a = jv_members(es@);
    let ghost b0 = es@;
    let ins = json::take_member(es, "instructions");
    proof {
        json::lemma_first_key(b0, "instructions"@);
    }
    match ins {
        Some(Json::Str(s)) => {
            let ghost r = jv_members(es@);
            let ghost b1 = es@;
            let msgs = json::take_member(es, "messages");
            proof {
                json::lemma_first_key(b1, "messages"@);
            }
            let new_msgs: Json = match msgs {
                Some(Json::Array(v)) => {
                    let ghost vv = jv_seq(v@);
                    let mut out: Vec<Json> = Vec::new();
                    out.push(system_msg_json(&s));
                    let mut rest = v;
                    let n = rest.len();
                    let ghost orig = rest@;
                    let mut i: usize = 0;
                    proof {
                        assert(rest@.skip(0) =~= orig);
                        lemma_jv_seq(out@);
                    }
                    while i < n
                        invariant
                            i <= n,
                            n == orig.len(),
                            rest@ == orig.skip(i as int),
                            out@.len() == i + 1,
                            jv(out@[0]) == role_msg(JsonV::Str(s@), "system"@),
                            forall|x: int| 0 <= x < i ==> jv(#[trigger] out@[x + 1]) == jv(orig[x]),
                        decreases n - i,
                    {
                        let m = rest.remove(0);
                        proof {
                            assert(m == orig[i as int]);
                            assert(rest@ =~= orig.skip(i + 1));
                        }
                        out.push(m);
                        i += 1;
                    }
                    proof {
                        lemma_jv_seq(orig);
                        let want = seq![role_msg(JsonV::Str(s@), "system"@)] + jv_seq(orig);
                        assert forall|x: int| 0 <= x < out@.len() implies jv(#[trigger] out@[x]) == want[x] by {
                            if x > 0 {
                                assert(jv(out@[(x - 1) + 1]) == jv(orig[x - 1]));
                            }
                        }
                        json::lemma_jv_seq_ext(out@, want);
                    }
                    Json::Array(out)
                },
                Some(other) => other,
                None => {
                    let mut out: Vec<Json> = Vec::new();
                    out.push(system_msg_json(&s));
                    proof {
                        lemma_jv_seq(out@);
                        assert(jv_seq(out@) =~= seq![role_msg(JsonV::Str(s@), "system"@)] + Seq::<JsonV>::empty());
                    }
                    Json::Array(out)
                },
            };
            proof {
                if vmember(r, "messages"@) is None {
                    json::lemma_vremove_absent(r, "messages"@);
                }
            }
            json::put(es, "messages", new_msgs);
        },
        Some(_) => {},
        None => {
            proof {
                json::lemma_vremove_absent(a, "instructions"@);
            }
        },
    }
}

fn step_max_tokens(es: &mut Vec<(String, Json)>)
    ensures
        jv_members(final(es)@) == with_max_tokens(jv_members(old(es)@)),
{
    let ghost b = jv_members(es@);
    let ghost b0 = es@;
    let mt = json::take_member(es, "max_output_tokens");
    proof {
        json::lemma_first_key(b0, "max_output_tokens"@);
        if vmember(b, "max_output_tokens"@) is None {
            json::lemma_vremove_absent(b, "max_output_tokens"@);
        }
    }
    match mt {
        Some(v) => {
            if json::member_index(es, "max_tokens").is_none() {
                json::put(es, "max_tokens", v);
            }
        },
        None => {},
    }
}

fn step_tools(es: &mut Vec<(String, Json)>)
    ensures
        jv_members(final(es)@) == with_tools(jv_members(old(es)@)),
{
    let conv: Option<Vec<Json>> = match json::member_index(es, "tools") {
        Some(ti) => match &es[ti].1 {
            Json::Array(ts) => Some(chat_tools_json(ts)),
            _ => None,
        },
        None => None,
    };
    match conv {
        Some(c) => {
            proof {
                lemma_jv_seq(c@);
            }
            if c.len() == 0 {
                let _ = json::take_member(es, "tools");
            } else {
                json::put(es, "tools", Json::Array(c));
            }
        },
        None => {},
    }
}

fn step_effort(es: &mut Vec<(String, Json)>)
    ensures
        jv_members(final(es)@) == with_effort(jv_members(old(es)@)),
{
    let ghost d = jv_members(es@);
    let ghost b0 = es@;
    let reasoning = json::take_member(es, "reasoning");
    proof {
        json::lemma_first_key(b0, "reasoning"@);
    }
    match reasoning {
        Some(r) => {
            let effort: Option<String> = match value_text(&r, "effort") {
                Some(e) => Some(e.clone()),
                None => match &r {
                    Json::Str(s) => Some(s.clone()),
                    _ => None,
                },
            };
            match effort {
                Some(e) => {
                    if json::member_index(es, "reasoning_effort").is_none() {
                        json::put(es, "reasoning_effort", Json::Str(e));
                    }
                },
                None => {},
            }
        },
        None => {
            proof {
                json::lemma_vremove_absent(d, "reasoning"@);
            }
        },
    }
}

fn should_drop_choice(es: &Vec<(String, Json)>) -> (r: bool)
    ensures
        r == drop_choice(jv_members(es@)),
{
    let has_tools = json::member_index(es, "tools").is_some();
    if !has_tools {
        return json::member_index(es, "tool_choice").is_some();
    }
    match json::member_index(es, "tool_choice") {
        None => false,
        Some(ci) => {
            let v = &es[ci].1;
            let ct = owned(text_or(value_text(v, "type"), "function"));
            if ct != owned("function") {
                true
            } else {
                match value_text(v, "name") {
                    Some(n) => {
                        let names: Vec<String> = match json::member_index(es, "tools") {
                            Some(ti) => match &es[ti].1 {
                                Json::Array(ts) => tool_names_vec(ts),
                                _ => Vec::new(),
                            },
                            None => Vec::new(),
                        };
                        proof {
                            assert(crate::text::texts(Seq::<String>::empty()) =~= Seq::<Seq<char>>::empty());
                        }
                        !has_text(&names, n)
                    },
                    None => false,
                }
            }
        },
    }
}

fn step_choice(es: &mut Vec<(String, Json)>)
    ensures
        jv_members(final(es)@) == with_choice(jv_members(old(es)@)),
{
    if should_drop_choice(es) {
        let _ = json::take_member(es, "tool_choice");
    }
    let conv: Option<Vec<(String, Json)>> = match json::member_index(es, "tool_choice") {
        Some(ci) => match &es[ci].1 {
            Json::Object(tes) => {
                let mut t1 = copy_members(tes);
                if json::member_index(&t1, "name").is_some() && json::member_index(&t1, "function").is_none() {
                    let ghost bt = t1@;
                    let nm = json::take_member(&mut t1, "name");
                    proof {
                        json::lemma_first_key(bt, "name"@);
                    }
                    match nm {
                        Some(nv) => {
                            let ghost nvv = jv(nv);
                            let mut inner: Vec<(String, Json)> = Vec::new();
                            inner.push((owned("name"), nv));
                            proof {
                                lemma_jv_members(inner@);
                                assert(jv_members(inner@) =~= seq![("name"@, nvv)]);
                            }
                            json::put(&mut t1, "function", Json::Object(inner));
                        },
                        None => {},
                    }
                }
                Some(keep_type_and_function(&t1))
            },
            _ => None,
        },
        None => None,
    };
    match conv {
        Some(t) => json::put(es, "tool_choice", Json::Object(t)),
        None => {},
    }
}

fn step_format(es: &mut Vec<(String, Json)>)
    ensures
        jv_members(final(es)@) == with_format(jv_members(old(es)@)),
{
    proof {
        reveal_strlit("");
        assert(""@ =~= Seq::<char>::empty());
    }
    let ghost f = jv_members(es@);
    let ghost b0 = es@;
    let text = json::take_member(es, "text");
    proof {
        json::lemma_first_key(b0, "text"@);
    }
    match text {
        Some(t) => {
            proof {
                lemma_vget(t, "format"@);
            }
            match json::get_member(&t, "format") {
                Some(fmt) => {
                    if json::member_index(es, "response_format").is_none() {
                        match fmt {
                            Json::Object(fes) => {
                                let ty = owned(text_or(member_text(fes, "type"), ""));
                                if ty == owned("json_schema") {
                                    let order = text_list("name", "schema", "strict", "description");
                                    let mut inner: Vec<(String, Json)> = Vec::new();
                                    proof {
                                        assert(jv_members(inner@) =~= Seq::<(Seq<char>, JsonV)>::empty());
                                    }
                                    move_fields(&mut inner, fes, &order);
                                    let mut f2 = copy_members(fes);
                                    strip_keys(&mut f2, &order);
                                    json::put(&mut f2, "json_schema", Json::Object(inner));
                                    json::put(es, "response_format", Json::Object(f2));
                                } else if ty == owned("text") {
                                } else {
                                    json::put(es, "response_format", json::copy_json(fmt));
                                }
                            },
                            _ => {
                                json::put(es, "response_format", json::copy_json(fmt));
                            },
                        }
                    }
                },
                None => {},
            }
        },
        None => {
            proof {
                json::lemma_vremove_absent(f, "text"@);
            }
        },
    }
}

fn step_post(es: &mut Vec<(String, Json)>)
    ensures
        jv_members(final(es)@) == with_post(jv_members(old(es)@)),
{
    let conv: Option<Vec<Json>> = match json::member_index(es, "messages") {
        Some(mi) => match &es[mi].1 {
            Json::Array(ms) => Some(post_messages_json(ms)),
            _ => None,
        },
        None => None,
    };
    match conv {
        Some(c) => json::put(es, "messages", Json::Array(c)),
        None => {},
    }
}

/// Converts a Responses API request (as Codex sends it) to a Chat
/// Completions request: input items become messages, instructions a system
/// message, tools and tool choice take the Chat form (unsupported tools
/// dropped), reasoning becomes `reasoning_effort`, `text.format` becomes
/// `response_format`, messages are fixed for strict upstreams and
/// Responses-only fields are removed. `None` when the body is not a JSON object.
pub fn transform_responses_to_chat_completions(body_bytes: &[u8]) -> (r: Option<Vec<u8>>)
    ensures
        match json::parse_bytes_text(body_bytes@) {
            Some(Json::Object(es)) => r matches Some(out) && exists|o: Json| #![trigger json::print_bytes(o)]
                jv(o) == JsonV::Object(chat_request_members(jv_members(es@))) && out@ == json::print_bytes(o),
            _ => r is None,
        },
{
    let es: Vec<(String, Json)> = match json::parse_slice(body_bytes) {
        Some(Json::Object(es)) => es,
        _ => return None,
    };
    let out = Json::Object(chat_request(es));
    Some(json::to_bytes(&out))
}

/// The Chat Completions request made from the members of a parsed Responses
/// API request (see [`transform_responses_to_chat_completions`]).
pub fn chat_request(request: Vec<(String, Json)>) -> (r: Vec<(String, Json)>)
    ensures
        jv_members(r@) == chat_request_members(jv_members(request@)),
{
    let mut es = request;
    step_messages(&mut es);
    step_instructions(&mut es);
    step_max_tokens(&mut es);
    step_tools(&mut es);
    step_effort(&mut es);
    step_choice(&mut es);
    step_format(&mut es);
    step_post(&mut es);
    let keys = request_keys();
    strip_keys(&mut es, &keys);
    es
}

} // verus!
