//! Chat Completions ↔ Responses API bridge: configuration, per-conversation
//! context for `previous_response_id` chaining, and the session key.

use vstd::prelude::*;
use vstd::utf8::encode_utf8;
use std::hash::Hasher;
use crate::json::{self, Json};
use crate::text::{owned, push_str, slice_chars, str_chars, string_from_chars};

verus! {

/// Timeouts and intervals of the bridge (seconds).
#[derive(Debug, Clone, Copy, PartialEq, Eq, Structural)]
pub struct BridgeConfig {
    pub upstream_connect_timeout_secs: u64,
    pub upstream_read_timeout_secs: u64,
    pub session_max_duration_secs: u64,
    /// Interval of SSE comment heartbeats while no data flows.
    pub heartbeat_interval_secs: u64,
    pub first_chunk_timeout_secs: u64,
    pub chunk_idle_timeout_secs: u64,
}

/// The default bridge configuration.
pub open spec fn default_bridge_config() -> BridgeConfig {
    BridgeConfig {
        upstream_connect_timeout_secs: 30,
        upstream_read_timeout_secs: 600,
        session_max_duration_secs: 600,
        heartbeat_interval_secs: 15,
        first_chunk_timeout_secs: 120,
        chunk_idle_timeout_secs: 300,
    }
}

impl Default for BridgeConfig {
    fn default() -> (r: Self)
        ensures
            r == default_bridge_config(),
    {
        BridgeConfig {
            upstream_connect_timeout_secs: 30,
            upstream_read_timeout_secs: 600,
            session_max_duration_secs: 600,
            heartbeat_interval_secs: 15,
            first_chunk_timeout_secs: 120,
            chunk_idle_timeout_secs: 300,
        }
    }
}

/// What is remembered of a conversation between requests.
#[derive(Debug, Clone)]
pub struct SessionContext {
    /// The id of the last response; sent as `previous_response_id` next time.
    pub previous_response_id: Option<String>,
    /// How many messages the last request held.
    pub processed_msg_len: usize,
}

/// A context as plain values.
pub open spec fn ctx_view(c: SessionContext) -> (Option<Seq<char>>, usize) {
    (match c.previous_response_id { Some(s) => Some(s@), None => None }, c.processed_msg_len)
}

/// The empty context.
pub open spec fn empty_ctx() -> (Option<Seq<char>>, usize) {
    (None, 0)
}

impl SessionContext {
    /// No previous response, nothing processed.
    pub fn new() -> (r: Self)
        ensures
            ctx_view(r) == empty_ctx(),
    {
        SessionContext { previous_response_id: None, processed_msg_len: 0 }
    }
}

/// Per-conversation contexts, oldest first; the oldest are evicted beyond the capacity.
#[derive(Debug, Clone)]
pub struct SessionStore {
    entries: Vec<(String, SessionContext)>,
    max_entries: usize,
}

impl SessionStore {
    /// The entries as (key, context) values, oldest first.
    pub closed spec fn entries(&self) -> Seq<(Seq<char>, (Option<Seq<char>>, usize))> {
        self.entries@.map_values(|e: (String, SessionContext)| (e.0@, ctx_view(e.1)))
    }

    /// The most entries kept.
    pub closed spec fn capacity(&self) -> nat {
        self.max_entries as nat
    }

    /// Each key occurs once and the capacity is respected.
    pub closed spec fn wf(&self) -> bool {
        &&& self.max_entries >= 1
        &&& self.entries@.len() <= self.max_entries
        &&& forall|i: int, j: int| 0 <= i < j < self.entries@.len() ==> (#[trigger] self.entries@[i]).0@ != (#[trigger] self.entries@[j]).0@
    }

    /// What well-formedness gives a caller: a capacity of at least one, no
    /// more entries than it, and each key once.
    pub proof fn lemma_wf(&self)
        requires
            self.wf(),
        ensures
            self.capacity() >= 1,
            self.entries().len() <= self.capacity(),
            unique_keys(self.entries()),
    {
        assert forall|i: int, j: int| 0 <= i < j < self.entries().len() implies (#[trigger] self.entries()[i]).0 != (#[trigger] self.entries()[j]).0 by {
            assert(self.entries@[i].0@ != self.entries@[j].0@);
        }
    }

    /// An empty store for 1024 conversations.
    pub fn new() -> (r: Self)
        ensures
            r.wf(),
            r.entries().len() == 0,
            r.capacity() == 1024,
    {
        Self::with_capacity(1024)
    }

    /// An empty store for `max_entries` conversations (at least one).
    pub fn with_capacity(max_entries: usize) -> (r: Self)
        ensures
            r.wf(),
            r.entries().len() == 0,
            r.capacity() == if max_entries >= 1 { max_entries as nat } else { 1nat },
    {
        let cap = if max_entries >= 1 { max_entries } else { 1 };
        let r = SessionStore { entries: Vec::new(), max_entries: cap };
        assert(r.entries() =~= Seq::<(Seq<char>, (Option<Seq<char>>, usize))>::empty());
        r
    }

    fn find(&self, key: &str) -> (r: Option<usize>)
        ensures
            match r {
                Some(i) => i < self.entries@.len() && self.entries@[i as int].0@ == key@,
                None => forall|i: int| 0 <= i < self.entries@.len() ==> (#[trigger] self.entries@[i]).0@ != key@,
            },
    {
        let k = owned(key);
        let mut i: usize = 0;
        while i < self.entries.len()
            invariant
                i <= self.entries.len(),
                k@ == key@,
                forall|j: int| 0 <= j < i ==> (#[trigger] self.entries@[j]).0@ != key@,
            decreases self.entries.len() - i,
        {
            if self.entries[i].0 == k {
                return Some(i);
            }
            i += 1;
        }
        None
    }

    /// The context of a conversation, or the empty context.
    pub fn get(&self, key: &str) -> (r: SessionContext)
        requires
            self.wf(),
        ensures
            ctx_view(r) == lookup(self.entries(), key@),
    {
        match self.find(key) {
            Some(i) => {
                proof {
                    self.lemma_lookup_at(i as int);
                }
                SessionContext {
                    previous_response_id: crate::text::copy_opt_string(&self.entries[i].1.previous_response_id),
                    processed_msg_len: self.entries[i].1.processed_msg_len,
                }
            },
            None => {
                proof {
                    assert forall|j: int| 0 <= j < self.entries().len() implies (#[trigger] self.entries()[j]).0 != key@ by {
                        assert(self.entries()[j].0 == self.entries@[j].0@);
                    }
                }
                SessionContext::new()
            },
        }
    }

    proof fn lemma_lookup_at(&self, i: int)
        requires
            self.wf(),
            0 <= i < self.entries@.len(),
        ensures
            lookup(self.entries(), self.entries@[i].0@) == ctx_view(self.entries@[i].1),
    {
        let es = self.entries();
        let key = self.entries@[i].0@;
        assert(es[i].0 == key);
        let c = choose|c: int| 0 <= c < es.len() && (#[trigger] es[c]).0 == key;
        if c != i {
            assert(es[c].0 == self.entries@[c].0@);
            if c < i {
                assert(self.entries@[c].0@ != self.entries@[i].0@);
            } else {
                assert(self.entries@[i].0@ != self.entries@[c].0@);
            }
        }
    }

    /// Stores a conversation's context: an existing conversation keeps its
    /// place; a new one is added last and the oldest are evicted beyond the capacity.
    pub fn update(&mut self, key: &str, ctx: SessionContext)
        requires
            old(self).wf(),
        ensures
            final(self).wf(),
            final(self).capacity() == old(self).capacity(),
            final(self).entries() == updated(old(self).entries(), key@, ctx_view(ctx), old(self).capacity()),
            lookup(final(self).entries(), key@) == ctx_view(ctx),
    {
        proof {
            old(self).lemma_wf();
            crate::laws::law_session_read_after_write(old(self).entries(), key@, ctx_view(ctx), old(self).capacity());
        }
        let ghost before = self.entries();
        match self.find(key) {
            Some(i) => {
                let name = self.entries[i].0.clone();
                self.entries.set(i, (name, ctx));
                proof {
                    assert(self.entries() =~= before.update(i as int, (key@, ctx_view(ctx))));
                    assert(lookup_index(before, key@) == Some(i as int)) by {
                        assert(before[i as int].0 == key@);
                        assert forall|j: int| 0 <= j < before.len() && j != i implies before[j].0 != key@ by {
                            assert(before[j].0 == old(self).entries@[j].0@);
                            if j < i {
                                assert(old(self).entries@[j].0@ != old(self).entries@[i as int].0@);
                            } else {
                                assert(old(self).entries@[i as int].0@ != old(self).entries@[j].0@);
                            }
                        }
                    }
                }
            },
            None => {
                proof {
                    assert forall|j: int| 0 <= j < before.len() implies (#[trigger] before[j]).0 != key@ by {
                        assert(before[j].0 == old(self).entries@[j].0@);
                    }
                    assert(lookup_index(before, key@) is None);
                }
                self.entries.push((owned(key), ctx));
                proof {
                    assert(self.entries() =~= before.push((key@, ctx_view(ctx))));
                }
                let ghost pushed = self.entries();
                if self.entries.len() > self.max_entries {
                    self.entries.remove(0);
                    proof {
                        assert(self.entries() =~= pushed.skip(1));
                    }
                }
            },
        }
    }

    /// Forgets a conversation.
    pub fn clear(&mut self, key: &str)
        requires
            old(self).wf(),
        ensures
            final(self).wf(),
            final(self).capacity() == old(self).capacity(),
            final(self).entries() == crate::sorting::keep(old(self).entries(), key_not(key@)),
            lookup(final(self).entries(), key@) == empty_ctx(),
    {
        proof {
            crate::laws::law_session_clear_forgets(old(self).entries(), key@);
        }
        let ghost before = self.entries();
        let ghost f = key_not(key@);
        match self.find(key) {
            Some(i) => {
                self.entries.remove(i);
                proof {
                    lemma_keep_unique(before, key@, i as int, old(self).entries@);
                }
            },
            None => {
                proof {
                    assert forall|j: int| 0 <= j < before.len() implies #[trigger] f(before[j]) by {
                        assert(before[j].0 == old(self).entries@[j].0@);
                    }
                    crate::sorting::lemma_keep_all(before, f);
                }
            },
        }
    }

    /// How many conversations are stored.
    pub fn len(&self) -> (r: usize)
        ensures
            r == self.entries().len(),
    {
        self.entries.len()
    }

    /// Whether no conversation is stored.
    pub fn is_empty(&self) -> (r: bool)
        ensures
            r == (self.entries().len() == 0),
    {
        self.entries.len() == 0
    }
}

proof fn lemma_keep_unique(
    es: Seq<(Seq<char>, (Option<Seq<char>>, usize))>,
    key: Seq<char>,
    i: int,
    raw: Seq<(String, SessionContext)>,
)
    requires
        es == raw.map_values(|e: (String, SessionContext)| (e.0@, ctx_view(e.1))),
        0 <= i < raw.len(),
        raw[i].0@ == key,
        forall|a: int, b: int| 0 <= a < b < raw.len() ==> (#[trigger] raw[a]).0@ != (#[trigger] raw[b]).0@,
    ensures
        raw.remove(i).map_values(|e: (String, SessionContext)| (e.0@, ctx_view(e.1)))
            == crate::sorting::keep(es, key_not(key)),
    decreases raw.len(),
{
    let f = key_not(key);
    let last = raw.len() - 1;
    if i == last {
        assert forall|j: int| 0 <= j < es.len() - 1 implies #[trigger] f(es.drop_last()[j]) by {
            assert(raw[j].0@ != raw[last].0@);
        }
        crate::sorting::lemma_keep_all(es.drop_last(), f);
        assert(es.drop_last() =~= raw.remove(i).map_values(|e: (String, SessionContext)| (e.0@, ctx_view(e.1))));
    } else {
        let r2 = raw.drop_last();
        assert(es.drop_last() =~= r2.map_values(|e: (String, SessionContext)| (e.0@, ctx_view(e.1))));
        lemma_keep_unique(es.drop_last(), key, i, r2);
        assert(raw[last].0@ != raw[i].0@);
        assert(raw.remove(i) =~= r2.remove(i).push(raw[last]));
        assert(raw.remove(i).map_values(|e: (String, SessionContext)| (e.0@, ctx_view(e.1)))
            =~= r2.remove(i).map_values(|e: (String, SessionContext)| (e.0@, ctx_view(e.1))).push(es.last()));
    }
}

/// Whether each key occurs at most once.
pub open spec fn unique_keys(es: Seq<(Seq<char>, (Option<Seq<char>>, usize))>) -> bool {
    forall|i: int, j: int| 0 <= i < j < es.len() ==> (#[trigger] es[i]).0 != (#[trigger] es[j]).0
}

/// Whether an entry is not for `key`.
pub open spec fn key_not(key: Seq<char>) -> spec_fn((Seq<char>, (Option<Seq<char>>, usize))) -> bool {
    |e: (Seq<char>, (Option<Seq<char>>, usize))| e.0 != key
}

/// The index of the entry for `key`.
pub open spec fn lookup_index(es: Seq<(Seq<char>, (Option<Seq<char>>, usize))>, key: Seq<char>) -> Option<int> {
    if exists|i: int| 0 <= i < es.len() && (#[trigger] es[i]).0 == key {
        Some(choose|i: int| 0 <= i < es.len() && (#[trigger] es[i]).0 == key)
    } else {
        None
    }
}

/// The context stored for `key`, or the empty context.
pub open spec fn lookup(es: Seq<(Seq<char>, (Option<Seq<char>>, usize))>, key: Seq<char>) -> (Option<Seq<char>>, usize) {
    match lookup_index(es, key) {
        Some(i) => es[i].1,
        None => empty_ctx(),
    }
}

/// The entries after storing `ctx` for `key` with the given capacity.
pub open spec fn updated(es: Seq<(Seq<char>, (Option<Seq<char>>, usize))>, key: Seq<char>,
    ctx: (Option<Seq<char>>, usize), cap: nat) -> Seq<(Seq<char>, (Option<Seq<char>>, usize))> {
    match lookup_index(es, key) {
        Some(i) => es.update(i, (key, ctx)),
        None => if es.len() + 1 > cap { es.push((key, ctx)).skip(1) } else { es.push((key, ctx)) },
    }
}

/// How to reach the upstream for one request: the previous response to chain
/// from, and the first message that is new.
#[derive(Debug, Clone)]
pub struct RequestContext {
    pub previous_response_id: Option<String>,
    /// `Some(i)`: only `messages[i..]` are sent.
    pub incremental_from: Option<usize>,
}

impl RequestContext {
    /// Full mode without a previous response.
    pub fn new() -> (r: Self)
        ensures
            r.previous_response_id is None,
            r.incremental_from is None,
    {
        RequestContext { previous_response_id: None, incremental_from: None }
    }
}

/// The hash of a byte string: `DefaultHasher::new()`, one `write` of the
/// bytes, `finish()`.
pub uninterp spec fn hash_of_bytes(bytes: Seq<u8>) -> u64;

/// Hashes the bytes with `std::collections::hash_map::DefaultHasher::new()`
/// (fixed keys, so the same bytes give the same hash in every process), one
/// `write` of them, and returns `finish()`.
#[verifier::external_body]
fn hash_bytes(bytes: &[u8]) -> (r: u64)
    ensures
        r == hash_of_bytes(bytes@),
{
    let mut h = std::collections::hash_map::DefaultHasher::new();
    h.write(bytes);
    h.finish()
}

/// The bytes hashed for a conversation: the model's UTF-8 bytes, a `|` and the
/// root message's UTF-8 bytes.
pub open spec fn session_bytes(model: Seq<char>, root: Seq<char>) -> Seq<u8> {
    encode_utf8(model) + seq![124u8] + encode_utf8(root)
}

/// The hash that names a conversation, from its model and root message.
pub open spec fn session_digest(model: Seq<char>, root: Seq<char>) -> u64 {
    hash_of_bytes(session_bytes(model, root))
}

fn push_bytes(out: &mut Vec<u8>, b: &[u8])
    ensures
        final(out)@ == old(out)@ + b@,
{
    let mut i: usize = 0;
    while i < b.len()
        invariant
            i <= b.len(),
            out@ == old(out)@ + b@.take(i as int),
        decreases b.len() - i,
    {
        out.push(b[i]);
        proof {
            assert(b@.take(i + 1) =~= b@.take(i as int).push(b@[i as int]));
        }
        i += 1;
    }
    proof {
        assert(b@.take(i as int) =~= b@);
    }
}

/// The hash of a conversation (see [`session_digest`]).
fn digest(model: &str, root: &str) -> (r: u64)
    ensures
        r == session_digest(model@, root@),
{
    let mut bytes: Vec<u8> = Vec::new();
    push_bytes(&mut bytes, model.as_bytes());
    bytes.push(124u8);
    push_bytes(&mut bytes, root.as_bytes());
    proof {
        assert(bytes@ =~= session_bytes(model@, root@));
    }
    hash_bytes(bytes.as_slice())
}

/// Whether a message is from the user.
pub open spec fn is_user(m: Json) -> bool {
    json::str_of(json::get(m, "role"@)) == Some("user"@)
}

/// The first 128 characters of the first user message's text content (empty
/// when there is none or its content is not text).
pub open spec fn root_text(messages: Seq<Json>) -> Seq<char> {
    let t = match crate::sorting::first_where(messages, user_message()) {
        Some(i) => match json::str_of(json::get(messages[i], "content"@)) { Some(c) => c, None => Seq::empty() },
        None => Seq::empty(),
    };
    if t.len() <= 128 { t } else { t.take(128) }
}

/// The model name with `/`, `:` and spaces replaced by `_`.
pub open spec fn safe_model(model: Seq<char>) -> Seq<char> {
    model.map_values(|c: char| if c == '/' || c == ':' || c == ' ' { '_' } else { c })
}

/// The lower-case hexadecimal digit for `d` (0..=15).
pub open spec fn hex_digit(d: nat) -> char {
    if d < 10 { ((d + 48) as u8) as char } else { ((d + 87) as u8) as char }
}

/// The last `n` hexadecimal digits of `v`, zero-padded.
pub open spec fn hex_n(v: nat, n: nat) -> Seq<char>
    decreases n,
{
    if n == 0 { Seq::empty() } else { hex_n(v / 16, (n - 1) as nat).push(hex_digit(v % 16)) }
}

fn hex_digit_exec(d: u64) -> (c: char)
    requires
        d < 16,
    ensures
        c == hex_digit(d as nat),
{
    if d < 10 { ((d + 48) as u8) as char } else { ((d + 87) as u8) as char }
}

fn push_hex(out: &mut Vec<char>, v: u64, n: u64)
    ensures
        final(out)@ == old(out)@ + hex_n(v as nat, n as nat),
    decreases n,
{
    if n > 0 {
        push_hex(out, v / 16, n - 1);
        out.push(hex_digit_exec(v % 16));
        assert(old(out)@ + hex_n(v as nat, n as nat) =~= old(out)@ + hex_n((v / 16) as nat, (n - 1) as nat) + seq![hex_digit((v % 16) as nat)]);
    } else {
        assert(old(out)@ + hex_n(v as nat, n as nat) =~= old(out)@);
    }
}

/// The key of a conversation: the model (made safe), a dash and the 16-digit
/// hash of the model and the root user message.
pub open spec fn session_key(model: Seq<char>, messages: Seq<Json>) -> Seq<char> {
    safe_model(model) + seq!['-'] + hex_n(session_digest(model, root_text(messages)) as nat, 16)
}

/// Whether a message is from the user.
pub open spec fn user_message() -> spec_fn(Json) -> bool {
    |m: Json| is_user(m)
}

fn first_user(messages: &Vec<Json>) -> (r: Option<usize>)
    ensures
        match r {
            Some(k) => crate::sorting::first_where(messages@, user_message()) == Some(k as int) && k < messages@.len(),
            None => crate::sorting::first_where(messages@, user_message()) is None,
        },
{
    let ghost f = user_message();
    let user = owned("user");
    let mut i: usize = 0;
    while i < messages.len()
        invariant
            i <= messages.len(),
            f == user_message(),
            user@ == "user"@,
            crate::sorting::first_where(messages@.take(i as int), f) is None,
        decreases messages.len() - i,
    {
        proof {
            crate::sorting::lemma_first_where(messages@, f, i as int);
        }
        let is_u = match json::as_str(json::get_member(&messages[i], "role")) {
            Some(r) => *r == user,
            None => false,
        };
        if is_u {
            proof {
                crate::sorting::lemma_first_where(messages@, f, i + 1);
            }
            return Some(i);
        }
        i += 1;
    }
    proof {
        crate::sorting::lemma_first_where(messages@, f, i as int);
    }
    None
}

impl SessionStore {
    /// The key of a conversation (see [`session_key`]): the same for every
    /// request of a multi-round tool-call exchange, which share the root message.
    pub fn key_for_request(model: &str, messages: &Vec<Json>) -> (r: String)
        ensures
            r@ == session_key(model@, messages@),
    {
        let found = first_user(messages);
        let text: Vec<char> = match found {
            Some(k) => match json::as_str(json::get_member(&messages[k], "content")) {
                Some(c) => str_chars(c.as_str()),
                None => Vec::new(),
            },
            None => Vec::new(),
        };
        let n: usize = if text.len() <= 128 { text.len() } else { 128 };
        let root = slice_chars(&text, 0, n);
        proof {
            if text@.len() <= 128 {
                assert(root@ =~= text@);
            } else {
                assert(root@ =~= text@.take(128));
            }
        }
        let root_s = string_from_chars(&root);
        let d = digest(model, root_s.as_str());
        let mc = str_chars(model);
        let mut out: Vec<char> = Vec::new();
        let mut j: usize = 0;
        while j < mc.len()
            invariant
                j <= mc.len(),
                out@ == safe_model(mc@).take(j as int),
            decreases mc.len() - j,
        {
            let c = mc[j];
            out.push(if c == '/' || c == ':' || c == ' ' { '_' } else { c });
            j += 1;
            assert(out@ =~= safe_model(mc@).take(j as int));
        }
        proof {
            assert(safe_model(mc@).take(j as int) =~= safe_model(mc@));
        }
        out.push('-');
        push_hex(&mut out, d, 16);
        proof {
            assert(out@ =~= session_key(model@, messages@));
        }
        string_from_chars(&out)
    }
}

} // verus!
