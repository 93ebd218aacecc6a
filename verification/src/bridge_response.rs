//! Responses API answer (non-streaming) → Chat Completions answer.

use vstd::prelude::*;
use crate::bridge_request::{lemma_vget, or_text, put_copy, vget, vput_opt, vtext};
use crate::json::{
    self, Json, JsonNumber, JsonV, jv, jv_members, jv_seq, lemma_jv_members, lemma_jv_seq, vhas, vinsert, vmember,
    vremove,
};
use crate::text::{has_prefix, owned, push_str, str_chars, string_from_chars};

verus! {

/// `s` with every leading copy of `p` removed (as `trim_start_matches` does).
pub open spec fn strip_prefixes(s: Seq<char>, p: Seq<char>) -> Seq<char>
    decreases s.len(),
{
    if p.len() > 0 && has_prefix(s, p) {
        strip_prefixes(s.skip(p.len() as int), p)
    } else {
        s
    }
}

/// The Chat id for a Responses id: `resp_…` / `resp-…` become `chatcmpl-…`.
pub open spec fn chat_id(id: Seq<char>) -> Option<Seq<char>> {
    if has_prefix(id, "resp_"@) || has_prefix(id, "resp-"@) {
        Some("chatcmpl-"@ + strip_prefixes(strip_prefixes(id, "resp_"@), "resp-"@))
    } else {
        None
    }
}

/// The texts taken from a content value: text parts (output, input or plain)
/// and refusals (as `[refusal: …]`) of an array, or a whole string; empty
/// texts are skipped.
pub open spec fn content_texts(c: JsonV) -> Seq<Seq<char>> {
    match c {
        JsonV::Array(ps) => part_texts(ps),
        JsonV::Str(s) => if s.len() > 0 { seq![s] } else { Seq::empty() },
        _ => Seq::empty(),
    }
}

/// The texts of content parts, in order.
pub open spec fn part_texts(ps: Seq<JsonV>) -> Seq<Seq<char>>
    decreases ps.len(),
{
    if ps.len() == 0 {
        Seq::empty()
    } else {
        let p = ps.last();
        let t = or_text(vtext(vget(p, "type"@)), Seq::empty());
        part_texts(ps.drop_last()) + if t == "output_text"@ || t == "input_text"@ || t == "text"@ {
            match vtext(vget(p, "text"@)) {
                Some(x) => if x.len() > 0 { seq![x] } else { Seq::empty() },
                None => Seq::empty(),
            }
        } else if t == "refusal"@ {
            match vtext(vget(p, "refusal"@)) {
                Some(x) => if x.len() > 0 { seq!["[refusal: "@ + x + "]"@] } else { Seq::empty() },
                None => Seq::empty(),
            }
        } else {
            Seq::empty()
        }
    }
}

/// The id of a function call: its `call_id` member if present (else its
/// `id`), when that is a string.
pub open spec fn answered_id(item: JsonV) -> Seq<char> {
    match vget(item, "call_id"@) {
        Some(c) => or_text(vtext(Some(c)), Seq::empty()),
        None => or_text(vtext(vget(item, "id"@)), Seq::empty()),
    }
}

/// A Chat tool call for a Responses function call item.
pub open spec fn chat_tool_call(item: JsonV) -> JsonV {
    JsonV::Object(seq![
        ("function"@, JsonV::Object(seq![
            ("arguments"@, JsonV::Str(or_text(vtext(vget(item, "arguments"@)), "{}"@))),
            ("name"@, JsonV::Str(or_text(vtext(vget(item, "name"@)), Seq::empty()))),
        ])),
        ("id"@, JsonV::Str(answered_id(item))),
        ("type"@, JsonV::Str("function"@)),
    ])
}

/// The texts an output item contributes.
pub open spec fn item_texts(item: JsonV) -> Seq<Seq<char>> {
    let t = or_text(vtext(vget(item, "type"@)), Seq::empty());
    if t == "message"@ {
        (match vget(item, "content"@) {
            Some(c) => content_texts(c),
            None => Seq::empty(),
        }) + match vtext(vget(item, "content"@)) {
            Some(x) => if x.len() > 0 { seq![x] } else { Seq::empty() },
            None => Seq::empty(),
        }
    } else if t == "function_call"@ || t == "reasoning"@ {
        Seq::empty()
    } else {
        match vtext(vget(item, "text"@)) {
            Some(x) => if x.len() > 0 { seq![x] } else { Seq::empty() },
            None => Seq::empty(),
        }
    }
}

/// The texts of the output items, in order.
pub open spec fn output_texts(items: Seq<JsonV>) -> Seq<Seq<char>>
    decreases items.len(),
{
    if items.len() == 0 {
        Seq::empty()
    } else {
        output_texts(items.drop_last()) + item_texts(items.last())
    }
}

/// The tool calls of the output items, in order.
pub open spec fn output_calls(items: Seq<JsonV>) -> Seq<JsonV>
    decreases items.len(),
{
    if items.len() == 0 {
        Seq::empty()
    } else {
        output_calls(items.drop_last()) + if or_text(vtext(vget(items.last(), "type"@)), Seq::empty()) == "function_call"@ {
            seq![chat_tool_call(items.last())]
        } else {
            Seq::empty()
        }
    }
}

/// The texts joined.
pub open spec fn concat(ts: Seq<Seq<char>>) -> Seq<char>
    decreases ts.len(),
{
    if ts.len() == 0 {
        Seq::empty()
    } else {
        concat(ts.drop_last()) + ts.last()
    }
}

/// The finish reason for a status: failed → error, incomplete → length,
/// otherwise tool_calls when there are calls, else stop.
pub open spec fn finish_for(status: Seq<char>, has_calls: bool) -> Seq<char> {
    if status == "failed"@ {
        "error"@
    } else if status == "incomplete"@ {
        "length"@
    } else if has_calls {
        "tool_calls"@
    } else {
        "stop"@
    }
}

/// The JSON number 0.
pub open spec fn zero_number() -> JsonV {
    JsonV::Number(Some(0u64), Some(0i64), "0"@)
}

/// The single choice built from the output items under the status.
pub open spec fn answer_choice(items: Seq<JsonV>, status: Seq<char>) -> JsonV {
    let texts = output_texts(items);
    let calls = output_calls(items);
    let has_calls = calls.len() > 0;
    let content = if texts.len() == 0 {
        if has_calls { JsonV::Null } else { JsonV::Str(Seq::empty()) }
    } else {
        JsonV::Str(concat(texts))
    };
    let base = seq![("content"@, content), ("role"@, JsonV::Str("assistant"@))];
    let message = if has_calls { vinsert(base, "tool_calls"@, JsonV::Array(calls)) } else { base };
    JsonV::Object(seq![
        ("finish_reason"@, JsonV::Str(finish_for(status, has_calls))),
        ("index"@, zero_number()),
        ("message"@, JsonV::Object(message)),
    ])
}

/// The usage renamed: input → prompt tokens, output → completion tokens, total kept.
pub open spec fn chat_usage(ues: Seq<(Seq<char>, JsonV)>) -> Seq<(Seq<char>, JsonV)> {
    vput_opt(vput_opt(vput_opt(Seq::empty(), "prompt_tokens"@, vmember(ues, "input_tokens"@)),
        "completion_tokens"@, vmember(ues, "output_tokens"@)), "total_tokens"@, vmember(ues, "total_tokens"@))
}

/// The members of the Chat answer made from the members of a Responses answer.
pub open spec fn chat_answer_members(m0: Seq<(Seq<char>, JsonV)>) -> Seq<(Seq<char>, JsonV)> {
    let m1 = match vtext(vmember(m0, "id"@)) {
        Some(id) => match chat_id(id) {
            Some(c) => vinsert(m0, "id"@, JsonV::Str(c)),
            None => m0,
        },
        None => m0,
    };
    let m2 = if vtext(vmember(m1, "object"@)) == Some("response"@) {
        vinsert(m1, "object"@, JsonV::Str("chat.completion"@))
    } else {
        m1
    };
    let m3 = vremove(m2, "output"@);
    let status = or_text(vtext(vmember(m3, "status"@)), "completed"@);
    let m4 = match vmember(m2, "output"@) {
        Some(JsonV::Array(items)) => vinsert(m3, "choices"@, JsonV::Array(seq![answer_choice(items, status)])),
        _ => m3,
    };
    let m5 = match vmember(m4, "usage"@) {
        Some(JsonV::Object(ues)) => if chat_usage(ues).len() > 0 {
            vinsert(m4, "usage"@, JsonV::Object(chat_usage(ues)))
        } else {
            m4
        },
        _ => m4,
    };
    vinsert(vremove(vremove(vremove(m5, "status"@), "output"@), "object"@), "object"@, JsonV::Str("chat.completion"@))
}

pub(crate) fn strip_all(s: &Vec<char>, p: &str) -> (r: Vec<char>)
    ensures
        r@ == strip_prefixes(s@, p@),
{
    let pv = str_chars(p);
    let mut cur: Vec<char> = crate::text::slice_chars(s, 0, s.len());
    proof {
        assert(cur@ =~= s@);
    }
    if pv.len() == 0 {
        return cur;
    }
    while crate::text::starts_with(&cur, &pv)
        invariant
            pv@ == p@,
            pv@.len() > 0,
            strip_prefixes(cur@, p@) == strip_prefixes(s@, p@),
        decreases cur@.len(),
    {
        let next = crate::text::slice_chars(&cur, pv.len(), cur.len());
        proof {
            assert(next@ =~= cur@.skip(pv@.len() as int));
        }
        cur = next;
    }
    cur
}

fn chat_id_of(id: &String) -> (r: Option<String>)
    ensures
        match r {
            Some(c) => chat_id(id@) == Some(c@),
            None => chat_id(id@) is None,
        },
{
    let v = str_chars(id.as_str());
    let a = str_chars("resp_");
    let b = str_chars("resp-");
    if !crate::text::starts_with(&v, &a) && !crate::text::starts_with(&v, &b) {
        return None;
    }
    let s1 = strip_all(&v, "resp_");
    let s2 = strip_all(&s1, "resp-");
    let mut out: Vec<char> = Vec::new();
    push_str(&mut out, "chatcmpl-");
    crate::text::push_all(&mut out, &s2);
    Some(string_from_chars(&out))
}

fn push_text(out: &mut Vec<String>, t: &String)
    ensures
        crate::text::texts(final(out)@) == crate::text::texts(old(out)@) + (if t@.len() > 0 { seq![t@] } else { Seq::<Seq<char>>::empty() }),
{
    let ghost b = crate::text::texts(out@);
    if str_chars(t.as_str()).len() > 0 {
        out.push(t.clone());
        proof {
            assert(crate::text::texts(out@) =~= b + seq![t@]);
        }
    } else {
        proof {
            assert(crate::text::texts(out@) =~= b + Seq::<Seq<char>>::empty());
        }
    }
}

fn vtext_of<'a>(j: &'a Json, key: &str) -> (r: Option<&'a String>)
    ensures
        match r {
            Some(s) => vtext(vget(jv(*j), key@)) == Some(s@),
            None => vtext(vget(jv(*j), key@)) is None,
        },
{
    proof {
        lemma_vget(*j, key@);
    }
    json::as_str(json::get_member(j, key))
}

fn content_texts_into(c: &Json, out: &mut Vec<String>)
    ensures
        crate::text::texts(final(out)@) == crate::text::texts(old(out)@) + content_texts(jv(*c)),
{
    proof {
        reveal_strlit("");
        assert(""@ =~= Seq::<char>::empty());
    }
    match c {
        Json::Array(ps) => {
            let ghost start = crate::text::texts(out@);
            let mut i: usize = 0;
            proof {
                assert(jv_seq(ps@.take(0)) =~= Seq::<JsonV>::empty());
                assert(crate::text::texts(out@) =~= start + part_texts(jv_seq(ps@.take(0))));
            }
            while i < ps.len()
                invariant
                    i <= ps.len(),
                    ""@ == Seq::<char>::empty(),
                    crate::text::texts(out@) == start + part_texts(jv_seq(ps@.take(i as int))),
                decreases ps.len() - i,
            {
                let p = &ps[i];
                proof {
                    assert(ps@.take(i + 1).drop_last() =~= ps@.take(i as int));
                    assert(ps@.take(i + 1).last() == *p);
                    let s = jv_seq(ps@.take(i + 1));
                    assert(s.drop_last() =~= jv_seq(ps@.take(i as int)));
                }
                let ghost b = crate::text::texts(out@);
                let t = owned(match vtext_of(p, "type") {
                    Some(s) => s.as_str(),
                    None => "",
                });
                if t == owned("output_text") || t == owned("input_text") || t == owned("text") {
                    match vtext_of(p, "text") {
                        Some(x) => push_text(out, x),
                        None => {
                            proof {
                                assert(crate::text::texts(out@) =~= b + Seq::<Seq<char>>::empty());
                            }
                        },
                    }
                } else if t == owned("refusal") {
                    match vtext_of(p, "refusal") {
                        Some(x) => {
                            if str_chars(x.as_str()).len() > 0 {
                                let mut v: Vec<char> = Vec::new();
                                push_str(&mut v, "[refusal: ");
                                push_str(&mut v, x.as_str());
                                push_str(&mut v, "]");
                                out.push(string_from_chars(&v));
                                proof {
                                    assert(crate::text::texts(out@) =~= b + seq!["[refusal: "@ + x@ + "]"@]);
                                }
                            } else {
                                proof {
                                    assert(crate::text::texts(out@) =~= b + Seq::<Seq<char>>::empty());
                                }
                            }
                        },
                        None => {
                            proof {
                                assert(crate::text::texts(out@) =~= b + Seq::<Seq<char>>::empty());
                            }
                        },
                    }
                } else {
                    proof {
                        assert(crate::text::texts(out@) =~= b + Seq::<Seq<char>>::empty());
                    }
                }
                i += 1;
            }
            proof {
                assert(ps@.take(i as int) =~= ps@);
            }
        },
        Json::Str(s) => push_text(out, s),
        _ => {
            proof {
                assert(crate::text::texts(out@) =~= crate::text::texts(old(out)@) + Seq::<Seq<char>>::empty());
            }
        },
    }
}

fn chat_tool_call_json(item: &Json) -> (r: Json)
    ensures
        jv(r) == chat_tool_call(jv(*item)),
{
    proof {
        reveal_strlit("");
        assert(""@ =~= Seq::<char>::empty());
        lemma_vget(*item, "call_id"@);
    }
    let id: String = match json::get_member(item, "call_id") {
        Some(c) => match c {
            Json::Str(s) => s.clone(),
            _ => String::new(),
        },
        None => match vtext_of(item, "id") {
            Some(s) => s.clone(),
            None => String::new(),
        },
    };
    let name = match vtext_of(item, "name") {
        Some(s) => s.clone(),
        None => String::new(),
    };
    let args = match vtext_of(item, "arguments") {
        Some(s) => s.clone(),
        None => owned("{}"),
    };
    let ghost idv = id@;
    let ghost nv = name@;
    let ghost av = args@;
    let mut f: Vec<(String, Json)> = Vec::new();
    f.push((owned("arguments"), Json::Str(args)));
    f.push((owned("name"), Json::Str(name)));
    let ghost fv = f@;
    let mut es: Vec<(String, Json)> = Vec::new();
    es.push((owned("function"), Json::Object(f)));
    es.push((owned("id"), Json::Str(id)));
    es.push((owned("type"), Json::Str(owned("function"))));
    proof {
        lemma_jv_members(fv);
        lemma_jv_members(es@);
        assert(jv_members(fv) =~= seq![("arguments"@, JsonV::Str(av)), ("name"@, JsonV::Str(nv))]);
        assert(jv_members(es@) =~= seq![
            ("function"@, JsonV::Object(jv_members(fv))),
            ("id"@, JsonV::Str(idv)),
            ("type"@, JsonV::Str("function"@)),
        ]);
    }
    Json::Object(es)
}

fn scan_output(items: &Vec<Json>) -> (r: (Vec<String>, Vec<Json>))
    ensures
        crate::text::texts(r.0@) == output_texts(jv_seq(items@)),
        jv_seq(r.1@) == output_calls(jv_seq(items@)),
{
    proof {
        reveal_strlit("");
        assert(""@ =~= Seq::<char>::empty());
    }
    let mut texts: Vec<String> = Vec::new();
    let mut calls: Vec<Json> = Vec::new();
    let mut i: usize = 0;
    proof {
        assert(jv_seq(items@.take(0)) =~= Seq::<JsonV>::empty());
        assert(crate::text::texts(texts@) =~= Seq::<Seq<char>>::empty());
        assert(jv_seq(calls@) =~= Seq::<JsonV>::empty());
    }
    while i < items.len()
        invariant
            i <= items.len(),
            ""@ == Seq::<char>::empty(),
            crate::text::texts(texts@) == output_texts(jv_seq(items@.take(i as int))),
            jv_seq(calls@) == output_calls(jv_seq(items@.take(i as int))),
        decreases items.len() - i,
    {
        let item = &items[i];
        proof {
            assert(items@.take(i + 1).drop_last() =~= items@.take(i as int));
            assert(items@.take(i + 1).last() == *item);
            let s = jv_seq(items@.take(i + 1));
            assert(s.drop_last() =~= jv_seq(items@.take(i as int)));
            assert(s.last() == jv(*item));
            lemma_vget(*item, "content"@);
            reveal_strlit("message");
            reveal_strlit("function_call");
            reveal_strlit("reasoning");
        }
        let ghost bt = crate::text::texts(texts@);
        let ghost bc = jv_seq(calls@);
        let t = owned(match vtext_of(item, "type") {
            Some(s) => s.as_str(),
            None => "",
        });
        if t == owned("message") {
            match json::get_member(item, "content") {
                Some(c) => content_texts_into(c, &mut texts),
                None => {},
            }
            let ghost mid = crate::text::texts(texts@);
            match vtext_of(item, "content") {
                Some(x) => push_text(&mut texts, x),
                None => {},
            }
            proof {
                assert(crate::text::texts(texts@) =~= bt + item_texts(jv(*item)));
                assert(jv_seq(calls@) =~= bc + Seq::<JsonV>::empty());
                assert(or_text(vtext(vget(jv(*item), "type"@)), Seq::empty()) == "message"@);
                reveal_strlit("message");
                reveal_strlit("function_call");
                assert("message"@.len() != "function_call"@.len());
                assert("message"@ != "function_call"@);
                let s = jv_seq(items@.take(i + 1));
                assert(output_calls(s) == output_calls(s.drop_last()) + Seq::<JsonV>::empty());
                assert(output_calls(jv_seq(items@.take(i + 1))) == bc + Seq::<JsonV>::empty());
            }
        } else if t == owned("function_call") {
            let c = chat_tool_call_json(item);
            let ghost bcv = calls@;
            let ghost cv = jv(c);
            calls.push(c);
            proof {
                assert(calls@.drop_last() =~= bcv);
                assert(jv_seq(calls@) =~= bc + seq![cv]);
                assert(or_text(vtext(vget(jv(*item), "type"@)), Seq::empty()) == "function_call"@);
                assert(output_calls(jv_seq(items@.take(i + 1))) == bc + seq![chat_tool_call(jv(*item))]);
                assert(crate::text::texts(texts@) =~= bt + Seq::<Seq<char>>::empty());
            }
        } else if t == owned("reasoning") {
            proof {
                assert(crate::text::texts(texts@) =~= bt + Seq::<Seq<char>>::empty());
                assert(jv_seq(calls@) =~= bc + Seq::<JsonV>::empty());
                assert(output_calls(jv_seq(items@.take(i + 1))) == bc + Seq::<JsonV>::empty());
            }
        } else {
            match vtext_of(item, "text") {
                Some(x) => push_text(&mut texts, x),
                None => {
                    proof {
                        assert(crate::text::texts(texts@) =~= bt + Seq::<Seq<char>>::empty());
                    }
                },
            }
            proof {
                assert(jv_seq(calls@) =~= bc + Seq::<JsonV>::empty());
                assert(output_calls(jv_seq(items@.take(i + 1))) == bc + Seq::<JsonV>::empty());
            }
        }
        i += 1;
    }
    proof {
        assert(items@.take(i as int) =~= items@);
    }
    (texts, calls)
}


fn concat_texts(v: &Vec<String>) -> (r: String)
    ensures
        r@ == concat(crate::text::texts(v@)),
{
    let mut out: Vec<char> = Vec::new();
    let mut i: usize = 0;
    proof {
        assert(crate::text::texts(v@).take(0) =~= Seq::<Seq<char>>::empty());
    }
    while i < v.len()
        invariant
            i <= v.len(),
            out@ == concat(crate::text::texts(v@).take(i as int)),
        decreases v.len() - i,
    {
        push_str(&mut out, v[i].as_str());
        proof {
            let ts = crate::text::texts(v@);
            assert(ts.take(i + 1).drop_last() =~= ts.take(i as int));
            assert(ts.take(i + 1).last() == v@[i as int]@);
        }
        i += 1;
    }
    proof {
        assert(crate::text::texts(v@).take(i as int) =~= crate::text::texts(v@));
    }
    string_from_chars(&out)
}

fn choice_json(texts: &Vec<String>, calls: Vec<Json>, status: &String) -> (r: Json)
    ensures
        forall|items: Seq<JsonV>| crate::text::texts(texts@) == output_texts(items) && jv_seq(calls@) == output_calls(items)
            ==> jv(r) == #[trigger] answer_choice(items, status@),
{
    let ghost cv = jv_seq(calls@);
    proof {
        lemma_jv_seq(calls@);
        reveal_strlit("");
        assert(""@ =~= Seq::<char>::empty());
    }
    let has_calls = calls.len() > 0;
    let content: Json = if texts.len() == 0 {
        if has_calls { Json::Null } else { Json::Str(String::new()) }
    } else {
        Json::Str(concat_texts(texts))
    };
    let ghost contv = jv(content);
    let mut msg: Vec<(String, Json)> = Vec::new();
    msg.push((owned("content"), content));
    msg.push((owned("role"), Json::Str(owned("assistant"))));
    proof {
        lemma_jv_members(msg@);
        assert(jv_members(msg@) =~= seq![("content"@, contv), ("role"@, JsonV::Str("assistant"@))]);
    }
    if has_calls {
        json::put(&mut msg, "tool_calls", Json::Array(calls));
    }
    let ghost msgv = jv_members(msg@);
    let fin: &str = if *status == owned("failed") {
        "error"
    } else if *status == owned("incomplete") {
        "length"
    } else if has_calls {
        "tool_calls"
    } else {
        "stop"
    };
    let mut ch: Vec<(String, Json)> = Vec::new();
    ch.push((owned("finish_reason"), Json::Str(owned(fin))));
    ch.push((owned("index"), Json::Number(JsonNumber { as_u64: Some(0), as_i64: Some(0), text: owned("0") })));
    ch.push((owned("message"), Json::Object(msg)));
    proof {
        lemma_jv_members(ch@);
        assert(jv_members(ch@) =~= seq![
            ("finish_reason"@, JsonV::Str(fin@)),
            ("index"@, zero_number()),
            ("message"@, JsonV::Object(msgv)),
        ]);
        reveal_strlit("error");
        reveal_strlit("length");
        reveal_strlit("tool_calls");
        reveal_strlit("stop");
    }
    Json::Object(ch)
}

/// Converts a (non-streaming) Responses API answer to a Chat Completions
/// answer: the id and object are renamed, the output becomes one choice
/// (text joined, function calls as tool calls, finish reason from the status)
/// and the usage is renamed. `None` when the body is not a JSON object.
pub fn transform_responses_to_chat_completions(body_bytes: &[u8]) -> (r: Option<Vec<u8>>)
    ensures
        match json::parse_bytes_text(body_bytes@) {
            Some(Json::Object(es)) => r matches Some(out) && exists|o: Json| #![trigger json::print_bytes(o)]
                jv(o) == JsonV::Object(chat_answer_members(jv_members(es@))) && out@ == json::print_bytes(o),
            _ => r is None,
        },
{
    let mut es: Vec<(String, Json)> = match json::parse_slice(body_bytes) {
        Some(Json::Object(es)) => es,
        _ => return None,
    };
    let cid: Option<String> = match json::member_index(&es, "id") {
        Some(i) => match &es[i].1 {
            Json::Str(s) => chat_id_of(s),
            _ => None,
        },
        None => None,
    };
    match cid {
        Some(c) => json::put(&mut es, "id", Json::Str(c)),
        None => {},
    }
    let is_resp = match json::member_index(&es, "object") {
        Some(i) => match &es[i].1 {
            Json::Str(s) => *s == owned("response"),
            _ => false,
        },
        None => false,
    };
    if is_resp {
        json::put(&mut es, "object", Json::Str(owned("chat.completion")));
    }
    let ghost m2 = jv_members(es@);
    let ghost b2 = es@;
    let output = json::take_member(&mut es, "output");
    proof {
        json::lemma_first_key(b2, "output"@);
    }
    let status = owned(match json::member_index(&es, "status") {
        Some(i) => match &es[i].1 {
            Json::Str(s) => s.as_str(),
            _ => "completed",
        },
        None => "completed",
    });
    match output {
        Some(Json::Array(items)) => {
            let (texts, calls) = scan_output(&items);
            let choice = choice_json(&texts, calls, &status);
            proof {
                assert(jv(choice) == answer_choice(jv_seq(items@), status@));
            }
            let ghost chv = jv(choice);
            let mut cs: Vec<Json> = Vec::new();
            cs.push(choice);
            proof {
                lemma_jv_seq(cs@);
                assert(jv_seq(cs@) =~= seq![chv]);
            }
            json::put(&mut es, "choices", Json::Array(cs));
        },
        _ => {},
    }
    let usage: Option<Vec<(String, Json)>> = match json::member_index(&es, "usage") {
        Some(ui) => {
            let u = &es[ui].1;
            match u {
                Json::Object(ues) => {
                    proof {
                        json::lemma_get_view(*u, "input_tokens"@);
                        json::lemma_get_view(*u, "output_tokens"@);
                        json::lemma_get_view(*u, "total_tokens"@);
                    }
                    let mut nu: Vec<(String, Json)> = Vec::new();
                    proof {
                        assert(jv_members(nu@) =~= Seq::<(Seq<char>, JsonV)>::empty());
                    }
                    put_copy(&mut nu, "prompt_tokens", json::get_member(u, "input_tokens"));
                    put_copy(&mut nu, "completion_tokens", json::get_member(u, "output_tokens"));
                    put_copy(&mut nu, "total_tokens", json::get_member(u, "total_tokens"));
                    proof {
                        lemma_jv_members(nu@);
                        assert(jv_members(nu@) == chat_usage(jv_members(ues@)));
                    }
                    if nu.len() > 0 { Some(nu) } else { None }
                },
                _ => None,
            }
        },
        None => None,
    };
    match usage {
        Some(nu) => json::put(&mut es, "usage", Json::Object(nu)),
        None => {},
    }
    let _ = json::take_member(&mut es, "status");
    let _ = json::take_member(&mut es, "output");
    let _ = json::take_member(&mut es, "object");
    json::put(&mut es, "object", Json::Str(owned("chat.completion")));
    let out = Json::Object(es);
    Some(json::to_bytes(&out))
}

} // verus!
