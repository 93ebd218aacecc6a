//! Whole-body rewrites on the Codex path: dropping `reasoning_effort` for
//! models that refuse it, and turning a Chat Completions answer into a
//! Responses API answer.

use vstd::prelude::*;
use crate::bridge_request::{
    call_item, message_item, or_text, put_copy, text_part, vput_opt, vtext,
};
use crate::codex_translator::{
    extract_reasoning_content, reasoning_of, sanitize_output_text, sanitize_tool_arguments, sanitized_arguments,
    sanitized_output, split_thinking_content, thinking_split,
};
use crate::json::{
    self, Json, JsonV, first_member, get, get_opt, jv, jv_members, jv_seq, lemma_jv_members, lemma_jv_seq, str_of, vhas,
    vinsert, vmember, vremove,
};
use crate::text::{contains_seq, owned, push_str, str_chars, string_from_chars};

verus! {

// ── reasoning_effort ──

/// Whether the model family refuses the `reasoning_effort` field (Mistral,
/// Codestral, Pixtral, Gemini), by its lower-cased name.
pub open spec fn refuses_reasoning_effort(lower: Seq<char>) -> bool {
    contains_seq(lower, "mistral"@) || contains_seq(lower, "codestral"@) || contains_seq(lower, "pixtral"@)
        || contains_seq(lower, "gemini"@)
}

fn has_part(s: &Vec<char>, p: &str) -> (r: bool)
    ensures
        r == contains_seq(s@, p@),
{
    let pv = str_chars(p);
    match crate::text::find(s, &pv) {
        Some(i) => true,
        None => false,
    }
}

/// Removes `reasoning_effort` from the body for models that refuse it. `None`
/// when the model accepts it, the body is not a JSON object, or the body has
/// no such field.
pub fn sanitize_reasoning_effort_for_model(body_bytes: &[u8], model_name: &str) -> (r: Option<Vec<u8>>)
    ensures
        !refuses_reasoning_effort(crate::i18n::lowercase(model_name@)) ==> r is None,
        refuses_reasoning_effort(crate::i18n::lowercase(model_name@)) ==> match json::parse_bytes_text(body_bytes@) {
            Some(Json::Object(es)) => match first_member(es@, "reasoning_effort"@) {
                Some(_) => r matches Some(out) && exists|o: Json| #![trigger json::print_bytes(o)]
                    jv(o) == JsonV::Object(vremove(jv_members(es@), "reasoning_effort"@)) && out@ == json::print_bytes(o),
                None => r is None,
            },
            _ => r is None,
        },
{
    let lower = str_chars(crate::i18n::to_lower(model_name).as_str());
    if !has_part(&lower, "mistral") && !has_part(&lower, "codestral") && !has_part(&lower, "pixtral")
        && !has_part(&lower, "gemini") {
        return None;
    }
    let mut es: Vec<(String, Json)> = match json::parse_slice(body_bytes) {
        Some(Json::Object(es)) => es,
        _ => return None,
    };
    let removed = json::take_member(&mut es, "reasoning_effort");
    if removed.is_none() {
        return None;
    }
    let out = Json::Object(es);
    Some(json::to_bytes(&out))
}

// ── Chat Completions answer → Responses answer ──

/// A reasoning item `{"reasoning": text, "type": "reasoning"}`.
pub open spec fn reasoning_item(text: Seq<char>) -> JsonV {
    JsonV::Object(seq![("reasoning"@, JsonV::Str(text)), ("type"@, JsonV::Str("reasoning"@))])
}

/// The function-call item of a Chat tool call, with its arguments made valid JSON.
pub open spec fn answered_call(tc: Json) -> JsonV {
    let f = get(tc, "function"@);
    call_item(
        or_text(str_of(get(tc, "id"@)), Seq::empty()),
        or_text(str_of(get_opt(f, "name"@)), Seq::empty()),
        sanitized_arguments(or_text(str_of(get_opt(f, "arguments"@)), "{}"@)),
    )
}

/// The output items of a non-empty text content: the thinking part (when
/// non-empty) as reasoning, then the rest, sanitised, as a message when
/// non-empty.
pub open spec fn text_items(role: Seq<char>, content: Seq<char>) -> Seq<JsonV> {
    let split = thinking_split(content);
    let reasoning = match split.0 {
        Some(x) => if x.len() > 0 { seq![reasoning_item(x)] } else { Seq::empty() },
        None => Seq::empty(),
    };
    let t = sanitized_output(match split.1 {
        Some(a) => a,
        None => content,
    });
    reasoning + if t.len() > 0 {
        seq![message_item(role, JsonV::Array(seq![text_part("output_text"@, t)]))]
    } else {
        Seq::empty()
    }
}

/// The output items of one choice: from its message, the text items, one
/// function call per tool call, then the reasoning field (when non-empty).
pub open spec fn choice_items(choice: Json) -> Seq<JsonV> {
    match get(choice, "message"@) {
        Some(message) => {
            let role = or_text(str_of(get(message, "role"@)), "assistant"@);
            let texts = match str_of(get(message, "content"@)) {
                Some(c) => if c.len() > 0 { text_items(role, c) } else { Seq::empty() },
                None => Seq::empty(),
            };
            let calls = match get(message, "tool_calls"@) {
                Some(Json::Array(v)) => Seq::new(v@.len(), |i: int| answered_call(v@[i])),
                _ => Seq::empty(),
            };
            let reasoning = match reasoning_of(message) {
                Some(x) => if x.len() > 0 { seq![reasoning_item(x)] } else { Seq::empty() },
                None => Seq::empty(),
            };
            texts + calls + reasoning
        },
        None => Seq::empty(),
    }
}

/// The output items of the choices, in order.
pub open spec fn output_items(cs: Seq<Json>) -> Seq<JsonV>
    decreases cs.len(),
{
    if cs.len() == 0 {
        Seq::empty()
    } else {
        output_items(cs.drop_last()) + choice_items(cs.last())
    }
}

/// The usage renamed: prompt → input tokens, completion → output tokens, total kept.
pub open spec fn renamed_usage(ues: Seq<(Seq<char>, JsonV)>) -> Seq<(Seq<char>, JsonV)> {
    vput_opt(vput_opt(vput_opt(Seq::empty(), "input_tokens"@, vmember(ues, "prompt_tokens"@)),
        "output_tokens"@, vmember(ues, "completion_tokens"@)), "total_tokens"@, vmember(ues, "total_tokens"@))
}

/// The members of the Responses answer made from the members of a Chat
/// answer, with `new_id` as the id when the answer has no non-empty one.
pub open spec fn response_members(es: Seq<(String, Json)>, new_id: Seq<char>) -> Seq<(Seq<char>, JsonV)> {
    let m0 = vremove(jv_members(es), "choices"@);
    let m1 = if vmember(m0, "object"@) == Some(JsonV::Str("chat.completion"@)) {
        vinsert(m0, "object"@, JsonV::Str("response"@))
    } else {
        m0
    };
    let m2 = match first_member(es, "choices"@) {
        Some(Json::Array(cs)) => vinsert(m1, "output"@, JsonV::Array(output_items(cs@))),
        _ => m1,
    };
    let m3 = match vmember(m2, "usage"@) {
        Some(JsonV::Object(ues)) => if renamed_usage(ues).len() > 0 {
            vinsert(m2, "usage"@, JsonV::Object(renamed_usage(ues)))
        } else {
            m2
        },
        _ => m2,
    };
    let m4 = if vhas(m3, "error"@) {
        vinsert(m3, "status"@, JsonV::Str("failed"@))
    } else if !vhas(m3, "status"@) {
        vinsert(m3, "status"@, JsonV::Str("completed"@))
    } else {
        m3
    };
    let m5 = match vmember(m4, "created"@) {
        Some(c) => {
            let r = vremove(m4, "created"@);
            if vhas(r, "created_at"@) { r } else { vinsert(r, "created_at"@, c) }
        },
        None => m4,
    };
    if or_text(vtext(vmember(m5, "id"@)), Seq::empty()).len() == 0 {
        vinsert(m5, "id"@, JsonV::Str(new_id))
    } else {
        m5
    }
}

fn str_json(s: &str) -> (r: Json)
    ensures
        jv(r) == JsonV::Str(s@),
{
    Json::Str(owned(s))
}

fn push_item(out: &mut Vec<Json>, item: Json)
    ensures
        jv_seq(final(out)@) == jv_seq(old(out)@).push(jv(item)),
{
    out.push(item);
    proof {
        assert(out@.drop_last() =~= old(out)@);
    }
}

fn reasoning_json(text: &str) -> (r: Json)
    ensures
        jv(r) == reasoning_item(text@),
{
    let mut es: Vec<(String, Json)> = Vec::new();
    es.push((owned("reasoning"), str_json(text)));
    es.push((owned("type"), str_json("reasoning")));
    proof {
        lemma_jv_members(es@);
        assert(jv_members(es@) =~= seq![("reasoning"@, JsonV::Str(text@)), ("type"@, JsonV::Str("reasoning"@))]);
    }
    Json::Object(es)
}

fn output_message_json(role: &str, text: &str) -> (r: Json)
    ensures
        jv(r) == message_item(role@, JsonV::Array(seq![text_part("output_text"@, text@)])),
{
    let mut part: Vec<(String, Json)> = Vec::new();
    part.push((owned("text"), str_json(text)));
    part.push((owned("type"), str_json("output_text")));
    let mut parts: Vec<Json> = Vec::new();
    parts.push(Json::Object(part));
    let mut es: Vec<(String, Json)> = Vec::new();
    let ghost partv = parts@;
    es.push((owned("content"), Json::Array(parts)));
    es.push((owned("role"), str_json(role)));
    es.push((owned("type"), str_json("message")));
    proof {
        lemma_jv_members(es@);
        lemma_jv_seq(partv);
        lemma_jv_members(partv[0]->Object_0@);
        assert(jv_members(partv[0]->Object_0@) =~= seq![("text"@, JsonV::Str(text@)), ("type"@, JsonV::Str("output_text"@))]);
        assert(jv_seq(partv) =~= seq![text_part("output_text"@, text@)]);
        assert(jv_members(es@) =~= seq![
            ("content"@, JsonV::Array(seq![text_part("output_text"@, text@)])),
            ("role"@, JsonV::Str(role@)),
            ("type"@, JsonV::Str("message"@)),
        ]);
    }
    Json::Object(es)
}

fn call_json(id: &str, name: &str, arguments: &str) -> (r: Json)
    ensures
        jv(r) == call_item(id@, name@, arguments@),
{
    let mut es: Vec<(String, Json)> = Vec::new();
    es.push((owned("arguments"), str_json(arguments)));
    es.push((owned("call_id"), str_json(id)));
    es.push((owned("id"), str_json(id)));
    es.push((owned("name"), str_json(name)));
    es.push((owned("type"), str_json("function_call")));
    proof {
        lemma_jv_members(es@);
        assert(jv_members(es@) =~= seq![
            ("arguments"@, JsonV::Str(arguments@)),
            ("call_id"@, JsonV::Str(id@)),
            ("id"@, JsonV::Str(id@)),
            ("name"@, JsonV::Str(name@)),
            ("type"@, JsonV::Str("function_call"@)),
        ]);
    }
    Json::Object(es)
}

fn text_or<'a>(j: Option<&'a Json>, d: &'a str) -> (r: &'a str)
    ensures
        r@ == or_text(str_of(json::opt_val(j)), d@),
{
    match json::as_str(j) {
        Some(s) => s.as_str(),
        None => d,
    }
}

fn push_text_items(out: &mut Vec<Json>, role: &str, content: &str)
    ensures
        jv_seq(final(out)@) == jv_seq(old(out)@) + text_items(role@, content@),
{
    let (reasoning, actual) = split_thinking_content(content);
    let ghost split = thinking_split(content@);
    let ghost start = jv_seq(out@);
    match &reasoning {
        Some(rt) => {
            if str_chars(rt.as_str()).len() > 0 {
                push_item(out, reasoning_json(rt.as_str()));
            }
        },
        None => {},
    }
    let ghost mid = jv_seq(out@);
    proof {
        assert(mid == start + match split.0 {
            Some(x) => if x.len() > 0 { seq![reasoning_item(x)] } else { Seq::<JsonV>::empty() },
            None => Seq::<JsonV>::empty(),
        });
    }
    let source: &str = match &actual {
        Some(a) => a.as_str(),
        None => content,
    };
    let cleaned = sanitize_output_text(source);
    let owned_text: String = match cleaned {
        std::borrow::Cow::Borrowed(b) => owned(b),
        std::borrow::Cow::Owned(o) => o,
    };
    let t: &str = owned_text.as_str();
    if str_chars(t).len() > 0 {
        push_item(out, output_message_json(role, t));
    }
    proof {
        assert(jv_seq(out@) =~= jv_seq(old(out)@) + text_items(role@, content@));
    }
}

fn push_choice_items(out: &mut Vec<Json>, choice: &Json)
    ensures
        jv_seq(final(out)@) == jv_seq(old(out)@) + choice_items(*choice),
{
    proof {
        reveal_strlit("");
        assert(""@ =~= Seq::<char>::empty());
    }
    let message = match json::get_member(choice, "message") {
        Some(m) => m,
        None => {
            proof {
                assert(jv_seq(out@) =~= jv_seq(old(out)@) + choice_items(*choice));
            }
            return;
        },
    };
    let ghost start = jv_seq(out@);
    let role = text_or(json::get_member(message, "role"), "assistant");
    match json::as_str(json::get_member(message, "content")) {
        Some(c) => {
            if str_chars(c.as_str()).len() > 0 {
                push_text_items(out, role, c.as_str());
            }
        },
        None => {},
    }
    let ghost after_text = jv_seq(out@);
    match json::as_array(json::get_member(message, "tool_calls")) {
        Some(calls) => {
            let mut i: usize = 0;
            while i < calls.len()
                invariant
                    i <= calls.len(),
                    ""@ == Seq::<char>::empty(),
                    jv_seq(out@) == after_text + Seq::new(i as nat, |x: int| answered_call(calls@[x])),
                decreases calls.len() - i,
            {
                let tc = &calls[i];
                let f = json::get_member(tc, "function");
                let id = text_or(json::get_member(tc, "id"), "");
                let name = text_or(json::get_in(f, "name"), "");
                let args = sanitize_tool_arguments(text_or(json::get_in(f, "arguments"), "{}"));
                let item = call_json(id, name, args.as_str());
                proof {
                    assert(json::opt_val(f) == get(calls@[i as int], "function"@));
                    assert(jv(item) == answered_call(calls@[i as int]));
                }
                push_item(out, item);
                proof {
                    assert(Seq::new((i + 1) as nat, |x: int| answered_call(calls@[x]))
                        =~= Seq::new(i as nat, |x: int| answered_call(calls@[x])).push(answered_call(calls@[i as int])));
                }
                i += 1;
            }
        },
        None => {},
    }
    let ghost after_calls = jv_seq(out@);
    match extract_reasoning_content(message) {
        Some(rc) => {
            if str_chars(rc.as_str()).len() > 0 {
                push_item(out, reasoning_json(rc.as_str()));
            }
        },
        None => {},
    }
    proof {
        assert(jv_seq(out@) =~= jv_seq(old(out)@) + choice_items(*choice));
    }
}

fn convert_choices(cs: &Vec<Json>) -> (r: Vec<Json>)
    ensures
        jv_seq(r@) == output_items(cs@),
{
    let mut out: Vec<Json> = Vec::new();
    let mut i: usize = 0;
    proof {
        assert(jv_seq(out@) =~= Seq::<JsonV>::empty());
        assert(cs@.take(0) =~= Seq::<Json>::empty());
    }
    while i < cs.len()
        invariant
            i <= cs.len(),
            jv_seq(out@) == output_items(cs@.take(i as int)),
        decreases cs.len() - i,
    {
        push_choice_items(&mut out, &cs[i]);
        proof {
            assert(cs@.take(i + 1).drop_last() =~= cs@.take(i as int));
            assert(cs@.take(i + 1).last() == cs@[i as int]);
        }
        i += 1;
    }
    proof {
        assert(cs@.take(i as int) =~= cs@);
    }
    out
}

/// Converts a Chat Completions answer to a Responses API answer, using
/// `new_id` as the id when the answer has no non-empty one. `None` when the
/// body is not a JSON object.
pub fn transform_chat_completions_to_responses_with_id(body_bytes: &[u8], new_id: &str) -> (r: Option<Vec<u8>>)
    ensures
        match json::parse_bytes_text(body_bytes@) {
            Some(Json::Object(es)) => r matches Some(out) && exists|o: Json| #![trigger json::print_bytes(o)]
                jv(o) == JsonV::Object(response_members(es@, new_id@)) && out@ == json::print_bytes(o),
            _ => r is None,
        },
{
    proof {
        reveal_strlit("");
        assert(""@ =~= Seq::<char>::empty());
    }
    let mut es: Vec<(String, Json)> = match json::parse_slice(body_bytes) {
        Some(Json::Object(es)) => es,
        _ => return None,
    };
    let ghost orig = es@;
    let choices = json::take_member(&mut es, "choices");
    let ghost m0 = jv_members(es@);
    match json::member_index(&es, "object") {
        Some(oi) => {
            let is_cc = match &es[oi].1 {
                Json::Str(s) => *s == owned("chat.completion"),
                _ => false,
            };
            if is_cc {
                json::put(&mut es, "object", str_json("response"));
            }
        },
        None => {},
    }
    let ghost m1 = jv_members(es@);
    proof {
        assert(m1 == (if vmember(m0, "object"@) == Some(JsonV::Str("chat.completion"@)) {
            vinsert(m0, "object"@, JsonV::Str("response"@))
        } else {
            m0
        }));
    }
    match &choices {
        Some(Json::Array(cs)) => {
            let items = convert_choices(cs);
            json::put(&mut es, "output", Json::Array(items));
        },
        _ => {},
    }
    let ghost m2 = jv_members(es@);
    let usage: Option<Vec<(String, Json)>> = match json::member_index(&es, "usage") {
        Some(ui) => {
            let u = &es[ui].1;
            match u {
                Json::Object(ues) => {
                    proof {
                        json::lemma_get_view(*u, "prompt_tokens"@);
                        json::lemma_get_view(*u, "completion_tokens"@);
                        json::lemma_get_view(*u, "total_tokens"@);
                    }
                    let mut nu: Vec<(String, Json)> = Vec::new();
                    proof {
                        assert(jv_members(nu@) =~= Seq::<(Seq<char>, JsonV)>::empty());
                    }
                    put_copy(&mut nu, "input_tokens", json::get_member(u, "prompt_tokens"));
                    put_copy(&mut nu, "output_tokens", json::get_member(u, "completion_tokens"));
                    put_copy(&mut nu, "total_tokens", json::get_member(u, "total_tokens"));
                    proof {
                        lemma_jv_members(nu@);
                        assert(jv_members(nu@) == renamed_usage(jv_members(ues@)));
                    }
                    if nu.len() > 0 { Some(nu) } else { None }
                },
                _ => None,
            }
        },
        None => None,
    };
    match usage {
        Some(nu) => json::put(&mut es, "usage", Json::Object(nu)),
        None => {},
    }
    let ghost m3 = jv_members(es@);
    proof {
        assert(m3 == (match vmember(m2, "usage"@) {
            Some(JsonV::Object(ues)) => if renamed_usage(ues).len() > 0 {
                vinsert(m2, "usage"@, JsonV::Object(renamed_usage(ues)))
            } else {
                m2
            },
            _ => m2,
        }));
    }
    if json::member_index(&es, "error").is_some() {
        json::put(&mut es, "status", str_json("failed"));
    } else if json::member_index(&es, "status").is_none() {
        json::put(&mut es, "status", str_json("completed"));
    }
    let ghost m4 = jv_members(es@);
    let ghost b5 = es@;
    let created = json::take_member(&mut es, "created");
    proof {
        json::lemma_first_key(b5, "created"@);
        if vmember(m4, "created"@) is None {
            json::lemma_vremove_absent(m4, "created"@);
        }
    }
    match created {
        Some(c) => {
            if json::member_index(&es, "created_at").is_none() {
                json::put(&mut es, "created_at", c);
            }
        },
        None => {},
    }
    let ghost m5 = jv_members(es@);
    proof {
        assert(m5 == (match vmember(m4, "created"@) {
            Some(c) => {
                let r = vremove(m4, "created"@);
                if vhas(r, "created_at"@) { r } else { vinsert(r, "created_at"@, c) }
            },
            None => m4,
        }));
    }
    let need_id = match json::member_index(&es, "id") {
        Some(ii) => match &es[ii].1 {
            Json::Str(s) => str_chars(s.as_str()).len() == 0,
            _ => true,
        },
        None => true,
    };
    if need_id {
        json::put(&mut es, "id", str_json(new_id));
    }
    let out = Json::Object(es);
    proof {
        assert(jv(out) == JsonV::Object(response_members(orig, new_id@)));
    }
    Some(json::to_bytes(&out))
}

/// A fresh response id: "resp_" and a random uuid without its hyphens.
fn fresh_response_id() -> (r: String)
    ensures
        crate::text::has_prefix(r@, "resp_"@),
{
    let u = str_chars(crate::clock::new_uuid().as_str());
    let mut v: Vec<char> = Vec::new();
    push_str(&mut v, "resp_");
    proof {
        reveal_strlit("resp_");
        assert(v@ =~= "resp_"@);
        assert(v@.take(5) =~= v@);
    }
    let ghost head = v@;
    let mut i: usize = 0;
    while i < u.len()
        invariant
            i <= u.len(),
            v@.len() >= 5,
            v@.take(5) == head,
            head == "resp_"@,
        decreases u.len() - i,
    {
        if u[i] != '-' {
            let ghost b = v@;
            v.push(u[i]);
            proof {
                assert(v@.take(5) =~= b.take(5));
            }
        }
        i += 1;
    }
    let r = string_from_chars(&v);
    proof {
        reveal_strlit("resp_");
        assert(r@.subrange(0, 5) =~= "resp_"@);
    }
    r
}

/// Converts a Chat Completions answer to a Responses API answer; an answer
/// without a non-empty id gets a fresh "resp_…" id. `None` when the body is
/// not a JSON object.
pub fn transform_chat_completions_to_responses(body_bytes: &[u8]) -> (r: Option<Vec<u8>>)
    ensures
        match json::parse_bytes_text(body_bytes@) {
            Some(Json::Object(es)) => r matches Some(out) && exists|nid: Seq<char>, o: Json|
                #![trigger json::print_bytes(o), response_members(es@, nid)]
                crate::text::has_prefix(nid, "resp_"@)
                && jv(o) == JsonV::Object(response_members(es@, nid)) && out@ == json::print_bytes(o),
            _ => r is None,
        },
{
    let id = fresh_response_id();
    transform_chat_completions_to_responses_with_id(body_bytes, id.as_str())
}

} // verus!
