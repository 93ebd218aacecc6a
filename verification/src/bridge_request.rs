//! Chat Completions request → Responses API request.

use vstd::prelude::*;
use crate::json::{
    self, Json, JsonV, get, get_opt, jv, jv_members, jv_seq, lemma_get_view, lemma_jv_members, lemma_jv_seq,
    print_text, str_of, vhas, vinsert, vmember, vremove,
};
use crate::responses_bridge::RequestContext;
use crate::text::{owned, str_chars};

verus! {

// ── Plain-value helpers ──

/// `j[key]` on a plain value.
pub open spec fn vget(j: JsonV, key: Seq<char>) -> Option<JsonV> {
    match j {
        JsonV::Object(es) => vmember(es, key),
        _ => None,
    }
}

/// `j[key]` on an optional plain value.
pub open spec fn vget_opt(j: Option<JsonV>, key: Seq<char>) -> Option<JsonV> {
    match j {
        Some(v) => vget(v, key),
        None => None,
    }
}

/// The text of an optional plain string.
pub open spec fn vtext(j: Option<JsonV>) -> Option<Seq<char>> {
    match j {
        Some(JsonV::Str(s)) => Some(s),
        _ => None,
    }
}

/// The text, or `d` when there is none.
pub open spec fn or_text(t: Option<Seq<char>>, d: Seq<char>) -> Seq<char> {
    match t {
        Some(s) => s,
        None => d,
    }
}

/// Sets `key` when a value is given.
pub open spec fn vput_opt(es: Seq<(Seq<char>, JsonV)>, key: Seq<char>, v: Option<JsonV>) -> Seq<(Seq<char>, JsonV)> {
    match v {
        Some(x) => vinsert(es, key, x),
        None => es,
    }
}

// ── Output items ──

/// A content part `{"text": text, "type": kind}`.
pub open spec fn text_part(kind: Seq<char>, text: Seq<char>) -> JsonV {
    JsonV::Object(seq![("text"@, JsonV::Str(text)), ("type"@, JsonV::Str(kind))])
}

/// A message item `{"content": content, "role": role, "type": "message"}`.
pub open spec fn message_item(role: Seq<char>, content: JsonV) -> JsonV {
    JsonV::Object(seq![("content"@, content), ("role"@, JsonV::Str(role)), ("type"@, JsonV::Str("message"@))])
}

/// A function-call item.
pub open spec fn call_item(id: Seq<char>, name: Seq<char>, arguments: Seq<char>) -> JsonV {
    JsonV::Object(seq![
        ("arguments"@, JsonV::Str(arguments)),
        ("call_id"@, JsonV::Str(id)),
        ("id"@, JsonV::Str(id)),
        ("name"@, JsonV::Str(name)),
        ("type"@, JsonV::Str("function_call"@)),
    ])
}

/// A function-call output item.
pub open spec fn output_item(call_id: Seq<char>, output: Seq<char>) -> JsonV {
    JsonV::Object(seq![
        ("call_id"@, JsonV::Str(call_id)),
        ("output"@, JsonV::Str(output)),
        ("type"@, JsonV::Str("function_call_output"@)),
    ])
}

fn str_json(s: &str) -> (r: Json)
    ensures
        jv(r) == JsonV::Str(s@),
{
    Json::Str(owned(s))
}

fn member_pair(key: &str, v: Json) -> (r: (String, Json))
    ensures
        r.0@ == key@,
        r.1 == v,
{
    (owned(key), v)
}

fn text_part_json(kind: &str, text: &str) -> (r: Json)
    ensures
        jv(r) == text_part(kind@, text@),
{
    let mut es: Vec<(String, Json)> = Vec::new();
    es.push(member_pair("text", str_json(text)));
    es.push(member_pair("type", str_json(kind)));
    proof {
        lemma_jv_members(es@);
        assert(jv_members(es@) =~= seq![("text"@, JsonV::Str(text@)), ("type"@, JsonV::Str(kind@))]);
    }
    Json::Object(es)
}

fn message_item_json(role: &str, content: Json) -> (r: Json)
    ensures
        jv(r) == message_item(role@, jv(content)),
{
    let ghost cv = jv(content);
    let mut es: Vec<(String, Json)> = Vec::new();
    es.push(member_pair("content", content));
    es.push(member_pair("role", str_json(role)));
    es.push(member_pair("type", str_json("message")));
    proof {
        lemma_jv_members(es@);
        assert(jv_members(es@) =~= seq![("content"@, cv), ("role"@, JsonV::Str(role@)), ("type"@, JsonV::Str("message"@))]);
    }
    Json::Object(es)
}

fn call_item_json(id: &str, name: &str, arguments: &str) -> (r: Json)
    ensures
        jv(r) == call_item(id@, name@, arguments@),
{
    let mut es: Vec<(String, Json)> = Vec::new();
    es.push(member_pair("arguments", str_json(arguments)));
    es.push(member_pair("call_id", str_json(id)));
    es.push(member_pair("id", str_json(id)));
    es.push(member_pair("name", str_json(name)));
    es.push(member_pair("type", str_json("function_call")));
    proof {
        lemma_jv_members(es@);
        assert(jv_members(es@) =~= seq![
            ("arguments"@, JsonV::Str(arguments@)),
            ("call_id"@, JsonV::Str(id@)),
            ("id"@, JsonV::Str(id@)),
            ("name"@, JsonV::Str(name@)),
            ("type"@, JsonV::Str("function_call"@)),
        ]);
    }
    Json::Object(es)
}

fn output_item_json(call_id: &str, output: &str) -> (r: Json)
    ensures
        jv(r) == output_item(call_id@, output@),
{
    let mut es: Vec<(String, Json)> = Vec::new();
    es.push(member_pair("call_id", str_json(call_id)));
    es.push(member_pair("output", str_json(output)));
    es.push(member_pair("type", str_json("function_call_output")));
    proof {
        lemma_jv_members(es@);
        assert(jv_members(es@) =~= seq![
            ("call_id"@, JsonV::Str(call_id@)),
            ("output"@, JsonV::Str(output@)),
            ("type"@, JsonV::Str("function_call_output"@)),
        ]);
    }
    Json::Object(es)
}

fn single(j: Json) -> (r: Json)
    ensures
        jv(r) == JsonV::Array(seq![jv(j)]),
{
    let mut v: Vec<Json> = Vec::new();
    v.push(j);
    proof {
        lemma_jv_seq(v@);
        assert(jv_seq(v@) =~= seq![jv(v@[0])]);
    }
    Json::Array(v)
}

// ── Content ──

/// The Responses type of a Chat content part of type `t`; `None` keeps the part as it is.
pub open spec fn part_type(t: Seq<char>) -> Option<Seq<char>> {
    if t == "text"@ {
        Some("input_text"@)
    } else if t == "image_url"@ || t == "image"@ {
        Some("input_image"@)
    } else if t == "file"@ {
        Some("input_file"@)
    } else if t == "audio"@ {
        Some("input_audio"@)
    } else if t == "input_text"@ || t == "input_image"@ || t == "input_file"@ || t == "input_audio"@ {
        None
    } else {
        Some("input_text"@)
    }
}

/// A content part converted: an object gets the Responses type (its `type`
/// defaults to "text"); anything else is kept.
pub open spec fn converted_part(p: Json) -> JsonV {
    match p {
        Json::Object(es) => match part_type(or_text(str_of(get(p, "type"@)), "text"@)) {
            Some(t) => JsonV::Object(vinsert(jv_members(es@), "type"@, JsonV::Str(t))),
            None => jv(p),
        },
        _ => jv(p),
    }
}

/// Chat content converted to a Responses content array: a string (or nothing)
/// becomes one `input_text` part, an array has each part converted, any other
/// value becomes one `input_text` part holding its JSON text.
pub open spec fn converted_content(c: Option<Json>) -> JsonV {
    match c {
        None => JsonV::Array(seq![text_part("input_text"@, Seq::empty())]),
        Some(Json::Null) => JsonV::Array(seq![text_part("input_text"@, Seq::empty())]),
        Some(Json::Str(s)) => JsonV::Array(seq![text_part("input_text"@, s@)]),
        Some(Json::Array(ps)) => JsonV::Array(Seq::new(ps@.len(), |i: int| converted_part(ps@[i]))),
        Some(other) => JsonV::Array(seq![text_part("input_text"@, print_text(other))]),
    }
}

fn new_part_type(t: &String) -> (r: Option<&'static str>)
    ensures
        match r {
            Some(s) => part_type(t@) == Some(s@),
            None => part_type(t@) is None,
        },
{
    let text = owned("text");
    if *t == text {
        return Some("input_text");
    }
    if *t == owned("image_url") || *t == owned("image") {
        return Some("input_image");
    }
    if *t == owned("file") {
        return Some("input_file");
    }
    if *t == owned("audio") {
        return Some("input_audio");
    }
    if *t == owned("input_text") || *t == owned("input_image") || *t == owned("input_file") || *t == owned("input_audio") {
        return None;
    }
    Some("input_text")
}

fn convert_part(p: &Json) -> (r: Json)
    ensures
        jv(r) == converted_part(*p),
{
    match p {
        Json::Object(es) => {
            let t = match json::as_str(json::get_member(p, "type")) {
                Some(s) => s.clone(),
                None => owned("text"),
            };
            match new_part_type(&t) {
                Some(nt) => {
                    let copied = json::copy_json(p);
                    match copied {
                        Json::Object(mut ces) => {
                            proof {
                                assert(jv(Json::Object(ces)) == jv(*p));
                            }
                            json::put(&mut ces, "type", str_json(nt));
                            Json::Object(ces)
                        },
                        other => other,
                    }
                },
                None => json::copy_json(p),
            }
        },
        _ => json::copy_json(p),
    }
}

/// Converts Chat content (the `content` of a message, if any) to a Responses content array.
pub fn convert_chat_content_to_responses(content: Option<&Json>) -> (r: Json)
    ensures
        jv(r) == converted_content(json::opt_val(content)),
{
    proof {
        reveal_strlit("");
        assert(""@ =~= Seq::<char>::empty());
    }
    match content {
        None => single(text_part_json("input_text", "")),
        Some(Json::Null) => single(text_part_json("input_text", "")),
        Some(Json::Str(s)) => single(text_part_json("input_text", s.as_str())),
        Some(Json::Array(ps)) => {
            let mut out: Vec<Json> = Vec::new();
            let mut i: usize = 0;
            while i < ps.len()
                invariant
                    i <= ps.len(),
                    out@.len() == i,
                    forall|x: int| 0 <= x < i ==> jv(#[trigger] out@[x]) == converted_part(ps@[x]),
                decreases ps.len() - i,
            {
                out.push(convert_part(&ps[i]));
                i += 1;
            }
            proof {
                json::lemma_jv_seq_ext(out@, Seq::new(ps@.len(), |x: int| converted_part(ps@[x])));
            }
            Json::Array(out)
        },
        Some(other) => {
            let text = json::print(other);
            single(text_part_json("input_text", text.as_str()))
        },
    }
}

// ── Messages ──

/// The role of a message ("user" when it has none).
pub open spec fn role_of(msg: Json) -> Seq<char> {
    or_text(str_of(get(msg, "role"@)), "user"@)
}

/// The tool calls of a message (none unless `tool_calls` is an array).
pub open spec fn tool_calls_of(msg: Json) -> Seq<Json> {
    match get(msg, "tool_calls"@) {
        Some(Json::Array(v)) => v@,
        _ => Seq::empty(),
    }
}

/// The function-call item of one Chat tool call.
pub open spec fn tool_call_item(tc: Json) -> JsonV {
    let f = get(tc, "function"@);
    call_item(
        or_text(str_of(get(tc, "id"@)), Seq::empty()),
        or_text(str_of(get_opt(f, "name"@)), Seq::empty()),
        or_text(str_of(get_opt(f, "arguments"@)), "{}"@),
    )
}

/// The input items of one Chat message: user and system messages keep their
/// role; an assistant message with tool calls gives its non-empty text (if
/// any) and then one function call per tool call; a tool message gives a
/// function-call output; any other role is sent as a user message.
pub open spec fn message_items(msg: Json) -> Seq<JsonV> {
    let role = role_of(msg);
    let content = get(msg, "content"@);
    if role == "user"@ || role == "system"@ {
        seq![message_item(role, converted_content(content))]
    } else if role == "assistant"@ {
        let tcs = tool_calls_of(msg);
        if tcs.len() > 0 {
            let text = match content {
                Some(Json::Str(s)) => if s@.len() > 0 {
                    seq![message_item("assistant"@, JsonV::Array(seq![text_part("output_text"@, s@)]))]
                } else {
                    Seq::empty()
                },
                _ => Seq::empty(),
            };
            text + Seq::new(tcs.len(), |i: int| tool_call_item(tcs[i]))
        } else {
            seq![message_item("assistant"@, converted_content(content))]
        }
    } else if role == "tool"@ {
        seq![output_item(
            or_text(str_of(get(msg, "tool_call_id"@)), Seq::empty()),
            or_text(str_of(content), Seq::empty()),
        )]
    } else {
        seq![message_item("user"@, converted_content(content))]
    }
}

/// The input items of the messages, in order.
pub open spec fn input_items(msgs: Seq<Json>) -> Seq<JsonV>
    decreases msgs.len(),
{
    if msgs.len() == 0 {
        Seq::empty()
    } else {
        input_items(msgs.drop_last()) + message_items(msgs.last())
    }
}

/// The instructions taken from a leading system message with text content (full mode only).
pub open spec fn instructions_of(msgs: Seq<Json>, incremental: bool) -> Option<Seq<char>> {
    if !incremental && msgs.len() > 0 && role_of(msgs[0]) == "system"@ {
        str_of(get(msgs[0], "content"@))
    } else {
        None
    }
}

/// The messages sent as input: from `from` on in incremental mode; all of
/// them, less the leading system message taken as instructions, otherwise.
pub open spec fn sent_messages(msgs: Seq<Json>, from: Option<usize>) -> Seq<Json> {
    match from {
        Some(i) => if i <= msgs.len() { msgs.skip(i as int) } else { Seq::empty() },
        None => if instructions_of(msgs, false) is Some { msgs.skip(1) } else { msgs },
    }
}

fn text_or<'a>(j: Option<&'a Json>, d: &'a str) -> (r: &'a str)
    ensures
        r@ == or_text(str_of(json::opt_val(j)), d@),
{
    match json::as_str(j) {
        Some(s) => s.as_str(),
        None => d,
    }
}

fn role_text(msg: &Json) -> (r: String)
    ensures
        r@ == role_of(*msg),
{
    owned(text_or(json::get_member(msg, "role"), "user"))
}

fn push_item(out: &mut Vec<Json>, item: Json)
    ensures
        jv_seq(final(out)@) == jv_seq(old(out)@).push(jv(item)),
{
    out.push(item);
    proof {
        assert(out@.drop_last() =~= old(out)@);
    }
}

fn convert_message(msg: &Json, out: &mut Vec<Json>)
    ensures
        jv_seq(final(out)@) == jv_seq(old(out)@) + message_items(*msg),
{
    proof {
        reveal_strlit("");
        assert(""@ =~= Seq::<char>::empty());
    }
    let role = role_text(msg);
    let content = json::get_member(msg, "content");
    if role == owned("user") || role == owned("system") {
        let c = convert_chat_content_to_responses(content);
        push_item(out, message_item_json(role.as_str(), c));
        proof {
            assert(seq![message_item(role@, jv(c))] == message_items(*msg));
            assert(jv_seq(out@) =~= jv_seq(old(out)@) + message_items(*msg));
        }
    } else if role == owned("assistant") {
        let tcs: Option<&Vec<Json>> = json::as_array(json::get_member(msg, "tool_calls"));
        let has_calls = match tcs {
            Some(v) => v.len() > 0,
            None => false,
        };
        proof {
            match tcs {
                Some(v) => assert(tool_calls_of(*msg) == v@),
                None => assert(tool_calls_of(*msg) =~= Seq::<Json>::empty()),
            }
        }
        if has_calls {
            let calls = tcs.unwrap();
            let ghost start = jv_seq(out@);
            let ghost text_items: Seq<JsonV> = match json::opt_val(content) {
                Some(Json::Str(s)) => if s@.len() > 0 {
                    seq![message_item("assistant"@, JsonV::Array(seq![text_part("output_text"@, s@)]))]
                } else {
                    Seq::empty()
                },
                _ => Seq::empty(),
            };
            match content {
                Some(Json::Str(s)) => {
                    if str_chars(s.as_str()).len() > 0 {
                        let part = text_part_json("output_text", s.as_str());
                        push_item(out, message_item_json("assistant", single(part)));
                    }
                },
                _ => {},
            }
            proof {
                assert(jv_seq(out@) =~= start + text_items);
            }
            let mut i: usize = 0;
            while i < calls.len()
                invariant
                    i <= calls.len(),
                    ""@ == Seq::<char>::empty(),
                    jv_seq(out@) == start + text_items + Seq::new(i as nat, |x: int| tool_call_item(calls@[x])),
                decreases calls.len() - i,
            {
                let tc = &calls[i];
                let f = json::get_member(tc, "function");
                let id = text_or(json::get_member(tc, "id"), "");
                let name = text_or(json::get_in(f, "name"), "");
                let args = text_or(json::get_in(f, "arguments"), "{}");
                let ghost before = jv_seq(out@);
                let item = call_item_json(id, name, args);
                proof {
                    assert(jv(item) == tool_call_item(calls@[i as int])) by {
                        assert(json::opt_val(f) == get(calls@[i as int], "function"@));
                    }
                }
                push_item(out, item);
                proof {
                    assert(Seq::new((i + 1) as nat, |x: int| tool_call_item(calls@[x]))
                        =~= Seq::new(i as nat, |x: int| tool_call_item(calls@[x])).push(tool_call_item(calls@[i as int])));
                    assert(jv_seq(out@) =~= start + text_items + Seq::new((i + 1) as nat, |x: int| tool_call_item(calls@[x])));
                }
                i += 1;
            }
            proof {
                assert(Seq::new(i as nat, |x: int| tool_call_item(calls@[x])) =~= Seq::new(calls@.len(), |x: int| tool_call_item(calls@[x])));
                assert(jv_seq(out@) =~= jv_seq(old(out)@) + message_items(*msg));
            }
        } else {
            let c = convert_chat_content_to_responses(content);
            push_item(out, message_item_json("assistant", c));
            proof {
                assert(jv_seq(out@) =~= jv_seq(old(out)@) + message_items(*msg));
            }
        }
    } else if role == owned("tool") {
        let call_id = text_or(json::get_member(msg, "tool_call_id"), "");
        let output = text_or(content, "");
        push_item(out, output_item_json(call_id, output));
        proof {
            assert(jv_seq(out@) =~= jv_seq(old(out)@) + message_items(*msg));
        }
    } else {
        let c = convert_chat_content_to_responses(content);
        push_item(out, message_item_json("user", c));
        proof {
            assert(jv_seq(out@) =~= jv_seq(old(out)@) + message_items(*msg));
        }
    }
}

// ── Tools, tool choice, response format ──

/// The function object flattened into a Responses tool: its type, then its
/// name, description, parameters and strict flag where present.
pub open spec fn flat_function(fes: Seq<(Seq<char>, JsonV)>) -> Seq<(Seq<char>, JsonV)> {
    let t = seq![("type"@, JsonV::Str("function"@))];
    vput_opt(vput_opt(vput_opt(vput_opt(t, "name"@, vmember(fes, "name"@)), "description"@, vmember(fes, "description"@)),
        "parameters"@, vmember(fes, "parameters"@)), "strict"@, vmember(fes, "strict"@))
}

/// A tool converted: a `function` tool whose `function` is an object is
/// flattened; any other tool is kept.
pub open spec fn converted_tool(t: JsonV) -> JsonV {
    if or_text(vtext(vget(t, "type"@)), Seq::empty()) == "function"@ {
        match vget(t, "function"@) {
            Some(JsonV::Object(fes)) => JsonV::Object(flat_function(fes)),
            _ => t,
        }
    } else {
        t
    }
}

/// A tool choice naming a function (`{"function": {"name": n}}`) converted to
/// `{"name": n}`; `None` when it names none.
pub open spec fn converted_choice(tc: JsonV) -> Option<JsonV> {
    match tc {
        JsonV::Object(tes) => match vtext(vget_opt(vmember(tes, "function"@), "name"@)) {
            Some(n) => Some(JsonV::Object(vremove(vinsert(tes, "name"@, JsonV::Str(n)), "function"@))),
            None => None,
        },
        _ => None,
    }
}

/// The text format for a response format: a `json_schema` format with an
/// object `json_schema` is flattened; any other value is used as it is.
pub open spec fn format_of(rf: JsonV) -> JsonV {
    match rf {
        JsonV::Object(res) => if or_text(vtext(vmember(res, "type"@)), Seq::empty()) == "json_schema"@ {
            match vmember(res, "json_schema"@) {
                Some(JsonV::Object(js)) => JsonV::Object(vput_opt(vput_opt(vput_opt(
                    seq![("type"@, JsonV::Str("json_schema"@))], "name"@, vmember(js, "name"@)),
                    "schema"@, vmember(js, "schema"@)), "strict"@, vmember(js, "strict"@))),
                _ => rf,
            }
        } else {
            rf
        },
        _ => rf,
    }
}

/// `get` seen on plain values.
pub proof fn lemma_vget(j: Json, key: Seq<char>)
    ensures
        vget(jv(j), key) == match get(j, key) {
            Some(v) => Some(jv(v)),
            None => None,
        },
{
    lemma_get_view(j, key);
}

/// Sets `key` to a copy of the value, when one is given.
pub fn put_copy(es: &mut Vec<(String, Json)>, key: &str, v: Option<&Json>)
    ensures
        jv_members(final(es)@) == vput_opt(jv_members(old(es)@), key@, match json::opt_val(v) {
            Some(x) => Some(jv(x)),
            None => None,
        }),
{
    match v {
        Some(x) => json::put(es, key, json::copy_json(x)),
        None => {},
    }
}

fn flatten_function(f: &Json) -> (r: Vec<(String, Json)>)
    requires
        f is Object,
    ensures
        jv_members(r@) == flat_function(jv_members(f->Object_0@)),
{
    let mut out: Vec<(String, Json)> = Vec::new();
    json::put(&mut out, "type", str_json("function"));
    proof {
        assert(jv_members(Seq::<(String, Json)>::empty()) =~= Seq::<(Seq<char>, JsonV)>::empty());
        assert(jv_members(out@) =~= seq![("type"@, JsonV::Str("function"@))]);
        lemma_vget(*f, "name"@);
        lemma_vget(*f, "description"@);
        lemma_vget(*f, "parameters"@);
        lemma_vget(*f, "strict"@);
    }
    put_copy(&mut out, "name", json::get_member(f, "name"));
    put_copy(&mut out, "description", json::get_member(f, "description"));
    put_copy(&mut out, "parameters", json::get_member(f, "parameters"));
    put_copy(&mut out, "strict", json::get_member(f, "strict"));
    out
}

fn convert_tool(t: &Json) -> (r: Json)
    ensures
        jv(r) == converted_tool(jv(*t)),
{
    proof {
        lemma_vget(*t, "type"@);
        lemma_vget(*t, "function"@);
        reveal_strlit("");
        assert(""@ =~= Seq::<char>::empty());
    }
    let ty = text_or(json::get_member(t, "type"), "");
    if owned(ty) == owned("function") {
        match json::get_member(t, "function") {
            Some(f) => {
                match f {
                    Json::Object(_) => {
                        let flat = flatten_function(f);
                        return Json::Object(flat);
                    },
                    _ => {},
                }
            },
            None => {},
        }
    }
    json::copy_json(t)
}

fn convert_choice(tc: &Json) -> (r: Option<Json>)
    ensures
        match r {
            Some(n) => converted_choice(jv(*tc)) == Some(jv(n)),
            None => converted_choice(jv(*tc)) is None,
        },
{
    match tc {
        Json::Object(tes) => {
            let f = json::get_member(tc, "function");
            proof {
                lemma_vget(*tc, "function"@);
                match json::opt_val(f) {
                    Some(fv) => lemma_vget(fv, "name"@),
                    None => {},
                }
            }
            match json::as_str(json::get_in(f, "name")) {
                Some(n) => {
                    let copied = json::copy_json(tc);
                    match copied {
                        Json::Object(mut ces) => {
                            proof {
                                assert(jv(Json::Object(ces)) == jv(*tc));
                            }
                            json::put(&mut ces, "name", Json::Str(n.clone()));
                            let _ = json::take_member(&mut ces, "function");
                            Some(Json::Object(ces))
                        },
                        _ => None,
                    }
                },
                None => None,
            }
        },
        _ => None,
    }
}

fn format_json(rf: Json) -> (r: Json)
    ensures
        jv(r) == format_of(jv(rf)),
{
    proof {
        reveal_strlit("");
        assert(""@ =~= Seq::<char>::empty());
        lemma_vget(rf, "type"@);
        lemma_vget(rf, "json_schema"@);
    }
    let flat: Option<Vec<(String, Json)>> = match &rf {
        Json::Object(_) => {
            let ty = text_or(json::get_member(&rf, "type"), "");
            if owned(ty) == owned("json_schema") {
                match json::get_member(&rf, "json_schema") {
                    Some(js) => match js {
                        Json::Object(_) => {
                            proof {
                                lemma_vget(*js, "name"@);
                                lemma_vget(*js, "schema"@);
                                lemma_vget(*js, "strict"@);
                            }
                            let mut out: Vec<(String, Json)> = Vec::new();
                            json::put(&mut out, "type", str_json("json_schema"));
                            proof {
                                assert(jv_members(Seq::<(String, Json)>::empty()) =~= Seq::<(Seq<char>, JsonV)>::empty());
                                assert(jv_members(out@) =~= seq![("type"@, JsonV::Str("json_schema"@))]);
                            }
                            put_copy(&mut out, "name", json::get_member(js, "name"));
                            put_copy(&mut out, "schema", json::get_member(js, "schema"));
                            put_copy(&mut out, "strict", json::get_member(js, "strict"));
                            Some(out)
                        },
                        _ => None,
                    },
                    None => None,
                }
            } else {
                None
            }
        },
        _ => None,
    };
    match flat {
        Some(out) => Json::Object(out),
        None => rf,
    }
}

// ── The request ──

/// The members of the Responses request made from the members of a Chat
/// request, given the previous response id and the incremental start.
pub open spec fn request_members(es: Seq<(String, Json)>, prev: Option<Seq<char>>, from: Option<usize>) -> Seq<(Seq<char>, JsonV)> {
    let msgs = match json::first_member(es, "messages"@) {
        Some(Json::Array(v)) => v@,
        _ => Seq::empty(),
    };
    let m1 = vinsert(vremove(jv_members(es), "messages"@), "input"@, JsonV::Array(input_items(sent_messages(msgs, from))));
    let m2 = match instructions_of(msgs, from is Some) {
        Some(t) => vinsert(m1, "instructions"@, JsonV::Str(t)),
        None => m1,
    };
    let m3 = match prev {
        Some(p) => if p.len() > 0 { vinsert(m2, "previous_response_id"@, JsonV::Str(p)) } else { m2 },
        None => m2,
    };
    let m4 = match vmember(m3, "max_tokens"@) {
        Some(mt) => {
            let r = vremove(m3, "max_tokens"@);
            if vhas(r, "max_output_tokens"@) { r } else { vinsert(r, "max_output_tokens"@, mt) }
        },
        None => m3,
    };
    let m5 = match vmember(m4, "tools"@) {
        Some(JsonV::Array(ts)) => vinsert(m4, "tools"@, JsonV::Array(ts.map_values(|t: JsonV| converted_tool(t)))),
        _ => m4,
    };
    let m6 = match vmember(m5, "tool_choice"@) {
        Some(tc) => match converted_choice(tc) {
            Some(n) => vinsert(m5, "tool_choice"@, n),
            None => m5,
        },
        None => m5,
    };
    match vmember(m6, "response_format"@) {
        Some(rf) => vinsert(vremove(m6, "response_format"@), "text"@, JsonV::Object(seq![("format"@, format_of(rf))])),
        None => m6,
    }
}

/// The optional text of an optional string.
pub open spec fn opt_text(s: Option<String>) -> Option<Seq<char>> {
    match s {
        Some(v) => Some(v@),
        None => None,
    }
}

fn convert_messages(msgs: &Vec<Json>, start: usize) -> (r: Vec<Json>)
    ensures
        jv_seq(r@) == input_items(if start <= msgs@.len() { msgs@.skip(start as int) } else { Seq::empty() }),
{
    let mut input: Vec<Json> = Vec::new();
    let mut i: usize = start;
    proof {
        assert(jv_seq(input@) =~= Seq::<JsonV>::empty());
        if start <= msgs@.len() {
            assert(msgs@.subrange(start as int, start as int) =~= Seq::<Json>::empty());
        }
    }
    if start >= msgs.len() {
        proof {
            if start == msgs@.len() {
                assert(msgs@.skip(start as int) =~= Seq::<Json>::empty());
            }
        }
        return input;
    }
    while i < msgs.len()
        invariant
            start <= i <= msgs.len(),
            jv_seq(input@) == input_items(msgs@.subrange(start as int, i as int)),
        decreases msgs.len() - i,
    {
        convert_message(&msgs[i], &mut input);
        proof {
            assert(msgs@.subrange(start as int, i + 1).drop_last() =~= msgs@.subrange(start as int, i as int));
            assert(msgs@.subrange(start as int, i + 1).last() == msgs@[i as int]);
        }
        i += 1;
    }
    proof {
        assert(msgs@.subrange(start as int, i as int) =~= msgs@.skip(start as int));
    }
    input
}

/// Converts a Chat Completions request to a Responses API request, with the
/// conversation context: the previous response id to continue from, and in
/// incremental mode the first message to send. `None` when the body is not a
/// JSON object.
#[verifier::rlimit(40)]
pub fn transform_chat_to_responses_request_ctx(body_bytes: &[u8], ctx: &RequestContext) -> (r: Option<Vec<u8>>)
    ensures
        match json::parse_bytes_text(body_bytes@) {
            Some(Json::Object(es)) => r matches Some(out) && exists|o: Json| #![trigger json::print_bytes(o)]
                jv(o) == JsonV::Object(request_members(es@, opt_text(ctx.previous_response_id), ctx.incremental_from))
                && out@ == json::print_bytes(o),
            _ => r is None,
        },
{
    let parsed = json::parse_slice(body_bytes);
    let mut es: Vec<(String, Json)> = match parsed {
        Some(Json::Object(es)) => es,
        _ => return None,
    };
    let ghost orig = es@;
    let msgs_json = json::take_member(&mut es, "messages");
    let empty: Vec<Json> = Vec::new();
    let msgs: &Vec<Json> = match &msgs_json {
        Some(Json::Array(v)) => v,
        _ => &empty,
    };
    let ghost msgs_v: Seq<Json> = match json::first_member(orig, "messages"@) {
        Some(Json::Array(v)) => v@,
        _ => Seq::empty(),
    };
    proof {
        assert(msgs@ == msgs_v);
    }
    let incremental = ctx.incremental_from.is_some();
    let instructions: Option<String> = if !incremental && msgs.len() > 0 && role_text(&msgs[0]) == owned("system") {
        match json::as_str(json::get_member(&msgs[0], "content")) {
            Some(s) => Some(s.clone()),
            None => None,
        }
    } else {
        None
    };
    proof {
        assert(opt_text(instructions) == instructions_of(msgs_v, incremental));
    }
    let start: usize = match ctx.incremental_from {
        Some(i) => i,
        None => if instructions.is_some() { 1 } else { 0 },
    };
    let input = convert_messages(msgs, start);
    proof {
        let sent = sent_messages(msgs_v, ctx.incremental_from);
        if start <= msgs@.len() {
            assert(msgs@.skip(start as int) == sent);
        } else {
            assert(sent =~= Seq::<Json>::empty());
        }
    }
    json::put(&mut es, "input", Json::Array(input));
    match instructions {
        Some(t) => json::put(&mut es, "instructions", Json::Str(t)),
        None => {},
    }
    match &ctx.previous_response_id {
        Some(p) => {
            if str_chars(p.as_str()).len() > 0 {
                json::put(&mut es, "previous_response_id", Json::Str(p.clone()));
            }
        },
        None => {},
    }
    let ghost m3 = jv_members(es@);
    let ghost before4 = es@;
    let taken = json::take_member(&mut es, "max_tokens");
    proof {
        json::lemma_first_key(before4, "max_tokens"@);
        if vmember(m3, "max_tokens"@) is None {
            json::lemma_vremove_absent(m3, "max_tokens"@);
        }
    }
    match taken {
        Some(mt) => {
            if json::member_index(&es, "max_output_tokens").is_none() {
                json::put(&mut es, "max_output_tokens", mt);
            }
        },
        None => {},
    }
    let ghost m4 = jv_members(es@);
    proof {
        assert(m4 == (match vmember(m3, "max_tokens"@) {
            Some(mt) => {
                let r = vremove(m3, "max_tokens"@);
                if vhas(r, "max_output_tokens"@) { r } else { vinsert(r, "max_output_tokens"@, mt) }
            },
            None => m3,
        }));
    }
    match json::member_index(&es, "tools") {
        Some(ti) => {
            let conv: Option<Json> = match &es[ti].1 {
                Json::Array(ts) => {
                    let mut out: Vec<Json> = Vec::new();
                    let mut k: usize = 0;
                    while k < ts.len()
                        invariant
                            k <= ts.len(),
                            out@.len() == k,
                            forall|x: int| 0 <= x < k ==> jv(#[trigger] out@[x]) == converted_tool(jv(ts@[x])),
                        decreases ts.len() - k,
                    {
                        out.push(convert_tool(&ts[k]));
                        k += 1;
                    }
                    proof {
                        json::lemma_jv_seq(ts@);
                        json::lemma_jv_seq_ext(out@, jv_seq(ts@).map_values(|t: JsonV| converted_tool(t)));
                    }
                    Some(Json::Array(out))
                },
                _ => None,
            };
            match conv {
                Some(c) => json::put(&mut es, "tools", c),
                None => {},
            }
        },
        None => {},
    }
    let ghost m5 = jv_members(es@);
    proof {
        assert(m5 == (match vmember(m4, "tools"@) {
            Some(JsonV::Array(ts)) => vinsert(m4, "tools"@, JsonV::Array(ts.map_values(|t: JsonV| converted_tool(t)))),
            _ => m4,
        }));
    }
    match json::member_index(&es, "tool_choice") {
        Some(ci) => {
            match convert_choice(&es[ci].1) {
                Some(n) => json::put(&mut es, "tool_choice", n),
                None => {},
            }
        },
        None => {},
    }
    let ghost m6 = jv_members(es@);
    proof {
        assert(m6 == (match vmember(m5, "tool_choice"@) {
            Some(tc) => match converted_choice(tc) {
                Some(n) => vinsert(m5, "tool_choice"@, n),
                None => m5,
            },
            None => m5,
        }));
    }
    let ghost before7 = es@;
    let rf_taken = json::take_member(&mut es, "response_format");
    proof {
        json::lemma_first_key(before7, "response_format"@);
        if vmember(m6, "response_format"@) is None {
            json::lemma_vremove_absent(m6, "response_format"@);
        }
    }
    match rf_taken {
        Some(rf) => {
            let fmt = format_json(rf);
            let mut tf: Vec<(String, Json)> = Vec::new();
            json::put(&mut tf, "format", fmt);
            proof {
                assert(jv_members(Seq::<(String, Json)>::empty()) =~= Seq::<(Seq<char>, JsonV)>::empty());
            }
            json::put(&mut es, "text", Json::Object(tf));
        },
        None => {},
    }
    proof {
        assert(jv_members(es@) == (match vmember(m6, "response_format"@) {
            Some(rf) => vinsert(vremove(m6, "response_format"@), "text"@, JsonV::Object(seq![("format"@, format_of(rf))])),
            None => m6,
        }));
    }
    let out = Json::Object(es);
    proof {
        let prev = opt_text(ctx.previous_response_id);
        let from = ctx.incremental_from;
        let m1 = vinsert(vremove(jv_members(orig), "messages"@), "input"@, JsonV::Array(input_items(sent_messages(msgs_v, from))));
        assert(m3 == (match prev {
            Some(p) => if p.len() > 0 { vinsert(match instructions_of(msgs_v, from is Some) {
                Some(t) => vinsert(m1, "instructions"@, JsonV::Str(t)),
                None => m1,
            }, "previous_response_id"@, JsonV::Str(p)) } else { match instructions_of(msgs_v, from is Some) {
                Some(t) => vinsert(m1, "instructions"@, JsonV::Str(t)),
                None => m1,
            } },
            None => match instructions_of(msgs_v, from is Some) {
                Some(t) => vinsert(m1, "instructions"@, JsonV::Str(t)),
                None => m1,
            },
        }));
        assert(jv(out) == JsonV::Object(request_members(orig, prev, from)));
    }
    let bytes = json::to_bytes(&out);
    Some(bytes)
}

/// Converts a Chat Completions request to a Responses API request (full
/// mode, no previous response); `None` when the body is not a JSON object.
pub fn transform_chat_to_responses_request(body_bytes: &[u8]) -> (r: Option<Vec<u8>>)
    ensures
        match json::parse_bytes_text(body_bytes@) {
            Some(Json::Object(es)) => r matches Some(out) && exists|o: Json| #![trigger json::print_bytes(o)]
                jv(o) == JsonV::Object(request_members(es@, None, None))
                && out@ == json::print_bytes(o),
            _ => r is None,
        },
{
    let ctx = RequestContext::new();
    transform_chat_to_responses_request_ctx(body_bytes, &ctx)
}

} // verus!
