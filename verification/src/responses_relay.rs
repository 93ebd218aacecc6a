//! Settings and decisions of the standalone Responses API relay.

use vstd::prelude::*;
use crate::i18n::{lowercase, to_lower};
use crate::json::{self, Json, JsonV, get, jv, jv_members, str_of};
use crate::responses_bridge::{BridgeConfig, RequestContext, SessionContext};
use crate::text::{contains_seq, find, owned, push_str, str_chars, string_from_chars};

verus! {

/// Relay settings.
#[derive(Debug, Clone)]
pub struct RelayConfig {
    pub host: String,
    pub port: u16,
    /// Base URL of the upstream Responses API.
    pub upstream_url: String,
    pub api_key: String,
    /// Model used when a request names none.
    pub default_model: String,
    /// `response_id` (chain rounds) or `full` (stateless).
    pub context_mode: String,
    /// Most conversation contexts kept.
    pub max_session_contexts: usize,
    pub connect_timeout_secs: u64,
    pub read_timeout_secs: u64,
    pub session_max_duration_secs: u64,
    pub heartbeat_interval_secs: u64,
    pub first_chunk_timeout_secs: u64,
    pub chunk_idle_timeout_secs: u64,
}

impl RelayConfig {
    /// The defaults of every setting.
    pub fn new() -> (r: Self)
        ensures
            r.host@ == "127.0.0.1"@,
            r.port == 8046,
            r.upstream_url@ == "https://api.openai.com"@,
            r.api_key@ == ""@,
            r.default_model@ == "gpt-4o"@,
            r.context_mode@ == "response_id"@,
            r.max_session_contexts == 1024,
            r.connect_timeout_secs == 30,
            r.read_timeout_secs == 600,
            r.session_max_duration_secs == 600,
            r.heartbeat_interval_secs == 15,
            r.first_chunk_timeout_secs == 120,
            r.chunk_idle_timeout_secs == 300,
    {
        RelayConfig {
            host: owned("127.0.0.1"),
            port: 8046,
            upstream_url: owned("https://api.openai.com"),
            api_key: owned(""),
            default_model: owned("gpt-4o"),
            context_mode: owned("response_id"),
            max_session_contexts: 1024,
            connect_timeout_secs: 30,
            read_timeout_secs: 600,
            session_max_duration_secs: 600,
            heartbeat_interval_secs: 15,
            first_chunk_timeout_secs: 120,
            chunk_idle_timeout_secs: 300,
        }
    }

    /// The bridge timeouts taken from these settings.
    pub fn bridge_config(&self) -> (r: BridgeConfig)
        ensures
            r.upstream_connect_timeout_secs == self.connect_timeout_secs,
            r.upstream_read_timeout_secs == self.read_timeout_secs,
            r.session_max_duration_secs == self.session_max_duration_secs,
            r.heartbeat_interval_secs == self.heartbeat_interval_secs,
            r.first_chunk_timeout_secs == self.first_chunk_timeout_secs,
            r.chunk_idle_timeout_secs == self.chunk_idle_timeout_secs,
    {
        BridgeConfig {
            upstream_connect_timeout_secs: self.connect_timeout_secs,
            upstream_read_timeout_secs: self.read_timeout_secs,
            session_max_duration_secs: self.session_max_duration_secs,
            heartbeat_interval_secs: self.heartbeat_interval_secs,
            first_chunk_timeout_secs: self.first_chunk_timeout_secs,
            chunk_idle_timeout_secs: self.chunk_idle_timeout_secs,
        }
    }

    /// Whether rounds are chained by response id (`context_mode` is
    /// `response_id`, ASCII case ignored).
    pub fn use_response_id_context(&self) -> (r: bool)
        ensures
            r == ascii_eq_ignore_case(self.context_mode@, "response_id"@),
    {
        let a = str_chars(self.context_mode.as_str());
        let b = str_chars("response_id");
        if a.len() != b.len() {
            return false;
        }
        let mut i: usize = 0;
        while i < a.len()
            invariant
                a.len() == b.len(),
                a@ == self.context_mode@,
                b@ == "response_id"@,
                i <= a.len(),
                forall|k: int| 0 <= k < i ==> ascii_lower(a@[k]) == ascii_lower(b@[k]),
            decreases a.len() - i,
        {
            if ascii_lower_exec(a[i]) != ascii_lower_exec(b[i]) {
                return false;
            }
            i += 1;
        }
        true
    }
}

/// `c` with an ASCII capital letter made small.
pub open spec fn ascii_lower(c: char) -> char {
    if 'A' <= c <= 'Z' { ((c as u32) + 32) as char } else { c }
}

fn ascii_lower_exec(c: char) -> (r: char)
    ensures
        r == ascii_lower(c),
{
    if 'A' <= c && c <= 'Z' {
        let b: u8 = c as u8;
        (b + 32) as char
    } else {
        c
    }
}

/// Whether two texts are equal with ASCII letters compared case-insensitively
/// (what `str::eq_ignore_ascii_case` tests).
pub open spec fn ascii_eq_ignore_case(a: Seq<char>, b: Seq<char>) -> bool {
    a.len() == b.len() && forall|k: int| 0 <= k < a.len() ==> ascii_lower(a[k]) == ascii_lower(b[k])
}

/// Whether an upstream error is about `previous_response_id` (then the
/// round is retried without it).
pub open spec fn context_error(body: Seq<char>) -> bool {
    let l = lowercase(body);
    contains_seq(l, "previous_response_id"@) || contains_seq(l, "previous_response"@) || contains_seq(l, "previous response"@)
}

fn contains_text(s: &Vec<char>, p: &str) -> (r: bool)
    ensures
        r == contains_seq(s@, p@),
{
    let pv = str_chars(p);
    match find(s, &pv) {
        Some(i) => {
            proof {
                assert(crate::text::occurs_at(s@, pv@, i as int));
            }
            true
        },
        None => false,
    }
}

/// Whether an upstream error body complains about the previous response id.
pub fn is_context_error(body: &str) -> (r: bool)
    ensures
        r == context_error(body@),
{
    let l = str_chars(to_lower(body).as_str());
    contains_text(&l, "previous_response_id") || contains_text(&l, "previous_response") || contains_text(&l, "previous response")
}

// ── Chat Completions requests ──

/// What the relay reads from a Chat Completions request.
#[derive(Debug)]
pub struct RelayRequest {
    /// `stream`, false when absent.
    pub stream: bool,
    /// `model`, or the relay's default model.
    pub model: String,
    /// A per-request `api_key`, when the body carries one.
    pub api_key: Option<String>,
    /// `messages`, empty when absent.
    pub messages: Vec<Json>,
}

/// The boolean value, if it is one.
pub open spec fn bool_of(j: Option<Json>) -> Option<bool> {
    match j {
        Some(Json::Bool(b)) => Some(b),
        _ => None,
    }
}

/// Reads a request body: `None` when it is not valid JSON; otherwise the
/// stream flag, model (default when absent), API key and messages.
pub fn parse_relay_request(body: &[u8], default_model: &str) -> (r: Option<RelayRequest>)
    ensures
        match json::parse_bytes_text(body@) {
            None => r is None,
            Some(j) => r matches Some(q) && {
                &&& q.stream == (bool_of(get(j, "stream"@)) == Some(true))
                &&& q.model@ == (match str_of(get(j, "model"@)) { Some(m) => m, None => default_model@ })
                &&& crate::diagnostics::chars_of(q.api_key) == str_of(get(j, "api_key"@))
                &&& json::jv_seq(q.messages@) == (match json::array_of(get(j, "messages"@)) {
                    Some(ms) => json::jv_seq(ms),
                    None => Seq::empty(),
                })
            },
        },
{
    let j = match json::parse_slice(body) {
        Some(j) => j,
        None => return None,
    };
    let stream = match json::get_member(&j, "stream") {
        Some(Json::Bool(b)) => *b,
        _ => false,
    };
    let model = match json::as_str(json::get_member(&j, "model")) {
        Some(m) => m.clone(),
        None => owned(default_model),
    };
    let api_key = match json::as_str(json::get_member(&j, "api_key")) {
        Some(k) => Some(k.clone()),
        None => None,
    };
    let messages: Vec<Json> = match json::as_array(json::get_member(&j, "messages")) {
        Some(ms) => copy_all(ms),
        None => {
            let v: Vec<Json> = Vec::new();
            proof { assert(json::jv_seq(v@) =~= Seq::<JsonV>::empty()); }
            v
        },
    };
    Some(RelayRequest { stream, model, api_key, messages })
}

fn copy_all(ms: &Vec<Json>) -> (r: Vec<Json>)
    ensures
        json::jv_seq(r@) == json::jv_seq(ms@),
{
    let mut out: Vec<Json> = Vec::new();
    let mut i: usize = 0;
    while i < ms.len()
        invariant
            i <= ms.len(),
            out@.len() == i,
            forall|k: int| 0 <= k < i ==> jv(#[trigger] out@[k]) == jv(ms@[k]),
        decreases ms.len() - i,
    {
        out.push(json::copy_json(&ms[i]));
        i += 1;
    }
    proof {
        json::lemma_jv_seq(out@);
        json::lemma_jv_seq(ms@);
        assert(json::jv_seq(out@) =~= json::jv_seq(ms@));
    }
    out
}

/// The context of a round: in `response_id` mode, with a remembered
/// response, only the messages after those already processed are sent (none
/// when nothing is new); otherwise the whole conversation.
pub fn relay_context(session: &SessionContext, messages_len: usize, use_response_id: bool) -> (r: RequestContext)
    ensures
        !use_response_id ==> r.previous_response_id is None && r.incremental_from is None,
        use_response_id ==> crate::diagnostics::chars_of(r.previous_response_id) == crate::diagnostics::chars_of(session.previous_response_id),
        use_response_id ==> r.incremental_from == (if session.previous_response_id is Some {
            Some(if messages_len > session.processed_msg_len { session.processed_msg_len } else { messages_len })
        } else {
            None
        }),
{
    if !use_response_id {
        return RequestContext::new();
    }
    let incremental_from = match &session.previous_response_id {
        Some(_) => Some(if messages_len > session.processed_msg_len { session.processed_msg_len } else { messages_len }),
        None => None,
    };
    let previous_response_id = match &session.previous_response_id {
        Some(p) => Some(p.clone()),
        None => None,
    };
    RequestContext { previous_response_id, incremental_from }
}

/// Whether an answer to a round sent with a remembered response may be a
/// refusal of that response (its body is then checked with [`is_context_error`]).
pub fn may_reject_context(used_context: bool, status: u16) -> (r: bool)
    ensures
        r == (used_context && (status == 400 || status == 422 || status == 404)),
{
    used_context && (status == 400 || status == 422 || status == 404)
}

/// What the relay does with the head of an upstream answer.
#[derive(Debug, Clone, Copy, PartialEq, Eq)]
pub enum HeadAction {
    /// Read the refusal's body and decide with [`on_refusal`].
    ReadRefusal,
    /// Translate the event stream as it arrives.
    Stream,
    /// Read the whole answer and translate it.
    Buffer,
}

/// The head action: a status outside 200..=299 is a refusal; a success is
/// streamed when the client asked for a stream and the upstream sends
/// `text/event-stream`, and buffered otherwise.
pub open spec fn head_action(status: u16, client_stream: bool, content_type: Option<Seq<char>>) -> HeadAction {
    if !(200 <= status <= 299) {
        HeadAction::ReadRefusal
    } else if client_stream && (content_type matches Some(ct) && contains_seq(ct, "text/event-stream"@)) {
        HeadAction::Stream
    } else {
        HeadAction::Buffer
    }
}

/// Decides what to do with the head of an upstream answer (see [`head_action`]).
pub fn on_upstream_head(status: u16, client_stream: bool, content_type: Option<&str>) -> (r: HeadAction)
    ensures
        r == head_action(status, client_stream, match content_type { Some(c) => Some(c@), None => None }),
{
    if !(200 <= status && status <= 299) {
        return HeadAction::ReadRefusal;
    }
    let event_stream = match content_type {
        Some(c) => contains_text(&str_chars(c), "text/event-stream"),
        None => false,
    };
    if client_stream && event_stream { HeadAction::Stream } else { HeadAction::Buffer }
}

/// What the relay does with a refused answer.
#[derive(Debug, Clone, Copy, PartialEq, Eq)]
pub enum RefusalAction {
    /// Forget the conversation's context and send the whole conversation once more.
    RetryFull,
    /// Answer the client with the upstream error, reported under this status
    /// (see [`upstream_error_json`]).
    Relay { status: u16 },
}

/// The refusal action: on the first answer to a request sent with a previous
/// response, a refusal that may concern it is retried in full when its body
/// names the previous response, and relayed as 400 otherwise; every other
/// refusal is relayed with its own status.
pub open spec fn refusal_action(used_context: bool, first_answer: bool, status: u16, body: Seq<char>) -> RefusalAction {
    if first_answer && used_context && (status == 400 || status == 422 || status == 404) {
        if context_error(body) { RefusalAction::RetryFull } else { RefusalAction::Relay { status: 400 } }
    } else {
        RefusalAction::Relay { status }
    }
}

/// Decides what to do with a refused answer (see [`refusal_action`]).
pub fn on_refusal(used_context: bool, first_answer: bool, status: u16, body: &str) -> (r: RefusalAction)
    ensures
        r == refusal_action(used_context, first_answer, status, body@),
{
    if first_answer && may_reject_context(used_context, status) {
        if is_context_error(body) { RefusalAction::RetryFull } else { RefusalAction::Relay { status: 400 } }
    } else {
        RefusalAction::Relay { status }
    }
}

/// The error member of an upstream error body, as the relay reports it.
pub open spec fn relayed_error(status_text: Seq<char>, body: Option<Json>) -> JsonV {
    match body {
        Some(j) => {
            let err = match get(j, "error"@) { Some(e) => e, None => j };
            JsonV::Object(seq![("error"@, JsonV::Object(seq![
                ("message"@, JsonV::Str(match str_of(get(err, "message"@)) { Some(m) => m, None => "Upstream error"@ })),
                ("code"@, JsonV::Str(match str_of(get(err, "code"@)) { Some(c) => c, None => "upstream_error"@ })),
                ("type"@, JsonV::Str("upstream_error"@)),
            ]))])
        },
        None => JsonV::Object(seq![("error"@, JsonV::Object(seq![
            ("message"@, JsonV::Str("Upstream error: HTTP "@ + status_text)),
            ("type"@, JsonV::Str("upstream_error"@)),
        ]))]),
    }
}

/// The body of the 502 answer for an upstream error: the upstream's own
/// message and code when its body is JSON, else the HTTP status.
pub fn upstream_error_json(status: u16, body: &str) -> (r: Json)
    requires
        100 <= status <= 999,
    ensures
        jv(r) == relayed_error(crate::proxy::status_text(status), json::parse_text(body@)),
{
    match json::parse(body) {
        Some(j) => {
            let err: &Json = match json::get_member(&j, "error") {
                Some(e) => e,
                None => &j,
            };
            let msg = match json::as_str(json::get_member(err, "message")) {
                Some(m) => m.clone(),
                None => owned("Upstream error"),
            };
            let code = match json::as_str(json::get_member(err, "code")) {
                Some(c) => c.clone(),
                None => owned("upstream_error"),
            };
            let mut inner: Vec<(String, Json)> = Vec::new();
            inner.push((owned("message"), Json::Str(msg)));
            inner.push((owned("code"), Json::Str(code)));
            inner.push((owned("type"), Json::Str(owned("upstream_error"))));
            let ghost iv = inner@;
            let mut outer: Vec<(String, Json)> = Vec::new();
            outer.push((owned("error"), Json::Object(inner)));
            proof {
                json::lemma_jv_members(iv);
                json::lemma_jv_members(outer@);
                let err = match get(j, "error"@) { Some(e) => e, None => j };
                assert(jv_members(iv) =~= seq![
                    ("message"@, JsonV::Str(match str_of(get(err, "message"@)) { Some(m) => m, None => "Upstream error"@ })),
                    ("code"@, JsonV::Str(match str_of(get(err, "code"@)) { Some(c) => c, None => "upstream_error"@ })),
                    ("type"@, JsonV::Str("upstream_error"@)),
                ]);
                assert(jv_members(outer@) =~= relayed_error(crate::proxy::status_text(status), json::parse_text(body@))->Object_0);
            }
            Json::Object(outer)
        },
        None => {
            let mut m: Vec<char> = Vec::new();
            push_str(&mut m, "Upstream error: HTTP ");
            push_str(&mut m, crate::proxy::status_display(status).as_str());
            let mut inner: Vec<(String, Json)> = Vec::new();
            inner.push((owned("message"), Json::Str(string_from_chars(&m))));
            inner.push((owned("type"), Json::Str(owned("upstream_error"))));
            let ghost iv = inner@;
            let mut outer: Vec<(String, Json)> = Vec::new();
            outer.push((owned("error"), Json::Object(inner)));
            proof {
                json::lemma_jv_members(iv);
                json::lemma_jv_members(outer@);
                assert(jv_members(iv) =~= seq![
                    ("message"@, JsonV::Str("Upstream error: HTTP "@ + crate::proxy::status_text(status))),
                    ("type"@, JsonV::Str("upstream_error"@)),
                ]);
                assert(jv_members(outer@) =~= relayed_error(crate::proxy::status_text(status), None)->Object_0);
            }
            Json::Object(outer)
        },
    }
}

/// The id of a Responses answer, to remember for the next round: `None` when
/// the body is not JSON or the id is missing or empty.
pub fn answered_response_id(body: &[u8]) -> (r: Option<String>)
    ensures
        crate::diagnostics::chars_of(r) == (match json::parse_bytes_text(body@) {
            Some(j) => match str_of(get(j, "id"@)) {
                Some(id) => if id.len() > 0 { Some(id) } else { None },
                None => None,
            },
            None => None,
        }),
{
    match json::parse_slice(body) {
        Some(j) => match json::as_str(json::get_member(&j, "id")) {
            Some(id) => if str_chars(id.as_str()).len() > 0 { Some(id.clone()) } else { None },
            None => None,
        },
        None => None,
    }
}

/// The relay's model list: its default model only.
pub fn relay_models(default_model: &str) -> (r: Json)
    ensures
        jv(r) == JsonV::Object(seq![
            ("object"@, JsonV::Str("list"@)),
            ("data"@, JsonV::Array(seq![JsonV::Object(seq![
                ("id"@, JsonV::Str(default_model@)),
                ("object"@, JsonV::Str("model"@)),
                ("created"@, json::i64_number(1677610602)),
                ("owned_by"@, JsonV::Str("responses-relay"@)),
            ])])),
        ]),
{
    let mut m: Vec<(String, Json)> = Vec::new();
    m.push((owned("id"), Json::Str(owned(default_model))));
    m.push((owned("object"), Json::Str(owned("model"))));
    m.push((owned("created"), json::i64_json(1677610602)));
    m.push((owned("owned_by"), Json::Str(owned("responses-relay"))));
    let ghost mv = m@;
    let mut data: Vec<Json> = Vec::new();
    data.push(Json::Object(m));
    let ghost dv = data@;
    let mut es: Vec<(String, Json)> = Vec::new();
    es.push((owned("object"), Json::Str(owned("list"))));
    es.push((owned("data"), Json::Array(data)));
    proof {
        json::lemma_jv_members(mv);
        json::lemma_jv_seq(dv);
        json::lemma_jv_members(es@);
        assert(jv_members(mv) =~= seq![
            ("id"@, JsonV::Str(default_model@)),
            ("object"@, JsonV::Str("model"@)),
            ("created"@, json::i64_number(1677610602)),
            ("owned_by"@, JsonV::Str("responses-relay"@)),
        ]);
        assert(json::jv_seq(dv) =~= seq![jv(dv[0])]);
        assert(jv_members(es@) =~= seq![
            ("object"@, JsonV::Str("list"@)),
            ("data"@, JsonV::Array(seq![JsonV::Object(seq![
                ("id"@, JsonV::Str(default_model@)),
                ("object"@, JsonV::Str("model"@)),
                ("created"@, json::i64_number(1677610602)),
                ("owned_by"@, JsonV::Str("responses-relay"@)),
            ])])),
        ]);
    }
    Json::Object(es)
}

} // verus!
