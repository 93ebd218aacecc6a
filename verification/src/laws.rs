//! Properties of the library that hold across its operations.

use vstd::prelude::*;
use crate::codex_translator::{closes_at, first_object, object_len, repaired, sanitized_arguments};
use crate::diagnostics::{classify, AccView, Category};
use crate::json::parse_text;
use crate::key_model_map::{has_pair, not_of_key, not_of_model, not_pair, KeyModelEntry};
use crate::proxy::{joined_url, ProxyRuntime};
use crate::responses_bridge::{empty_ctx, key_not, lookup, lookup_index, unique_keys, updated, SessionStore};
use crate::sorting::{keep, lemma_keep_props};
use crate::text::{has_prefix, strip_trailing};
use crate::token_stats::{with_streaming, with_usage, TokenStats};

verus! {

/// Sanitised tool-call arguments are always valid JSON, or the empty object `{}`.
pub proof fn law_sanitized_arguments_parse(raw: Seq<char>)
    ensures
        sanitized_arguments(raw) == "{}"@ || parse_text(sanitized_arguments(raw)) is Some,
{
}

/// An extracted object starts with `{` and ends with `}`.
pub proof fn law_first_object_is_braced(text: Seq<char>)
    ensures
        first_object(text) matches Some(o) ==> o.len() >= 1 && o[0] == '{' && o[o.len() - 1] == '}',
{
    match crate::text::first_occurrence(text, seq!['{']) {
        None => {},
        Some(start) => {
            let idx = Seq::new((text.len() + 1) as nat, |i: int| i);
            crate::sorting::lemma_first_where_props(idx, crate::text::occurs_in(text, seq!['{']));
            let rest = text.skip(start);
            let ridx = Seq::new((rest.len() + 1) as nat, |i: int| i);
            crate::sorting::lemma_first_where_props(ridx, |n: int| closes_at(rest, n));
            match object_len(rest) {
                Some(n) => {
                    assert(idx[start] == start);
                    assert(ridx[n] == n);
                    assert(crate::text::occurs_at(text, seq!['{'], start));
                    assert(text.subrange(start, start + 1)[0] == text[start]);
                    assert(text[start] == '{');
                },
                None => {},
            }
        },
    }
}

/// A repair only appends closing braces to the text.
pub proof fn law_repair_extends(text: Seq<char>)
    ensures
        repaired(text) matches Some(r) ==> r.len() > text.len() && r.take(text.len() as int) == text
            && forall|i: int| text.len() <= i < r.len() ==> r[i] == '}',
{
    match repaired(text) {
        Some(r) => {
            assert(r.take(text.len() as int) =~= text);
        },
        None => {},
    }
}

/// After removing a key-model pair, the pair is gone; other pairs stay.
pub proof fn law_disassociate_removes(m: Seq<KeyModelEntry>, key_id: Seq<char>, model_id: Seq<char>)
    ensures
        !has_pair(keep(m, not_pair(key_id, model_id)), key_id, model_id),
        forall|k: Seq<char>, md: Seq<char>| !(k == key_id && md == model_id) && has_pair(m, k, md)
            ==> #[trigger] has_pair(keep(m, not_pair(key_id, model_id)), k, md),
{
    let f = not_pair(key_id, model_id);
    let r = keep(m, f);
    lemma_keep_props(m, f);
    if has_pair(r, key_id, model_id) {
        let i = choose|i: int| 0 <= i < r.len() && (#[trigger] r[i]).key_id@ == key_id && r[i].model_id@ == model_id;
        assert(r.contains(r[i]));
        assert(f(r[i]));
    }
    assert forall|k: Seq<char>, md: Seq<char>| !(k == key_id && md == model_id) && has_pair(m, k, md)
        implies #[trigger] has_pair(r, k, md) by {
        let i = choose|i: int| 0 <= i < m.len() && (#[trigger] m[i]).key_id@ == k && m[i].model_id@ == md;
        assert(m.contains(m[i]));
        assert(f(m[i]));
        assert(r.contains(m[i]));
        let j = choose|j: int| 0 <= j < r.len() && r[j] == m[i];
        assert(r[j].key_id@ == k);
    }
}

/// After removing a key's associations, no association of the key is left.
pub proof fn law_remove_key_associations(m: Seq<KeyModelEntry>, key_id: Seq<char>)
    ensures
        forall|i: int| 0 <= i < keep(m, not_of_key(key_id)).len() ==> (#[trigger] keep(m, not_of_key(key_id))[i]).key_id@ != key_id,
{
    let r = keep(m, not_of_key(key_id));
    lemma_keep_props(m, not_of_key(key_id));
    assert forall|i: int| 0 <= i < r.len() implies (#[trigger] r[i]).key_id@ != key_id by {
        assert(r.contains(r[i]));
        assert(not_of_key(key_id)(r[i]));
    }
}

/// After removing a model's associations, no association of the model is left.
pub proof fn law_remove_model_associations(m: Seq<KeyModelEntry>, model_id: Seq<char>)
    ensures
        forall|i: int| 0 <= i < keep(m, not_of_model(model_id)).len() ==> (#[trigger] keep(m, not_of_model(model_id))[i]).model_id@ != model_id,
{
    let r = keep(m, not_of_model(model_id));
    lemma_keep_props(m, not_of_model(model_id));
    assert forall|i: int| 0 <= i < r.len() implies (#[trigger] r[i]).model_id@ != model_id by {
        assert(r.contains(r[i]));
        assert(not_of_model(model_id)(r[i]));
    }
}

/// A conversation's context reads back as it was stored (the capacity is at
/// least one and the store holds each key once).
pub proof fn law_session_read_after_write(
    es: Seq<(Seq<char>, (Option<Seq<char>>, usize))>,
    key: Seq<char>,
    ctx: (Option<Seq<char>>, usize),
    cap: nat,
)
    requires
        cap >= 1,
        es.len() <= cap,
        forall|i: int, j: int| 0 <= i < j < es.len() ==> (#[trigger] es[i]).0 != (#[trigger] es[j]).0,
    ensures
        lookup(updated(es, key, ctx, cap), key) == ctx,
{
    let u = updated(es, key, ctx, cap);
    match lookup_index(es, key) {
        Some(i) => {
            assert(u[i].0 == key);
            let c = choose|c: int| 0 <= c < u.len() && (#[trigger] u[c]).0 == key;
            if c != i {
                assert(u[c] == es[c]);
                if c < i {
                    assert(es[c].0 != es[i].0);
                } else {
                    assert(es[i].0 != es[c].0);
                }
            }
        },
        None => {
            assert(forall|i: int| 0 <= i < es.len() ==> (#[trigger] es[i]).0 != key);
            let last = u.len() - 1;
            assert(u[last] == (key, ctx));
            let c = choose|c: int| 0 <= c < u.len() && (#[trigger] u[c]).0 == key;
            if c != last {
                if es.len() + 1 > cap {
                    assert(u[c] == es.push((key, ctx))[c + 1]);
                } else {
                    assert(u[c] == es[c]);
                }
            }
        },
    }
}

/// A stored conversation reads back as stored: after `update(key, ctx)` on a
/// well-formed store, `get(key)` gives `ctx`.
pub proof fn law_session_store_read_after_write(s: SessionStore, key: Seq<char>, ctx: (Option<Seq<char>>, usize))
    requires
        s.wf(),
    ensures
        lookup(updated(s.entries(), key, ctx, s.capacity()), key) == ctx,
{
    s.lemma_wf();
    law_session_read_after_write(s.entries(), key, ctx, s.capacity());
}

/// In a store that holds each key once, the context of a key is the one of
/// its entry, and the empty context when it has none.
proof fn lemma_lookup_unique(es: Seq<(Seq<char>, (Option<Seq<char>>, usize))>, k: Seq<char>, i: int)
    requires
        unique_keys(es),
        0 <= i < es.len(),
        es[i].0 == k,
    ensures
        lookup(es, k) == es[i].1,
{
    let c = choose|c: int| 0 <= c < es.len() && (#[trigger] es[c]).0 == k;
    if c != i {
        if c < i {
            assert(es[c].0 != es[i].0);
        } else {
            assert(es[i].0 != es[c].0);
        }
    }
}

/// A store never holds more conversations than its capacity, holds each key
/// once, and when a new conversation arrives at a full store the oldest
/// entry is the one evicted; an existing conversation keeps its place.
pub proof fn law_session_capacity(
    es: Seq<(Seq<char>, (Option<Seq<char>>, usize))>,
    key: Seq<char>,
    ctx: (Option<Seq<char>>, usize),
    cap: nat,
)
    requires
        cap >= 1,
        es.len() <= cap,
        unique_keys(es),
    ensures
        updated(es, key, ctx, cap).len() <= cap,
        unique_keys(updated(es, key, ctx, cap)),
        lookup_index(es, key) is None && es.len() == cap ==> updated(es, key, ctx, cap) == es.skip(1).push((key, ctx)),
        lookup_index(es, key) is None && es.len() < cap ==> updated(es, key, ctx, cap) == es.push((key, ctx)),
        lookup_index(es, key) matches Some(i) ==> updated(es, key, ctx, cap) == es.update(i, (key, ctx)),
{
    let u = updated(es, key, ctx, cap);
    match lookup_index(es, key) {
        Some(i) => {
            assert forall|a: int, b: int| 0 <= a < b < u.len() implies (#[trigger] u[a]).0 != (#[trigger] u[b]).0 by {
                if a == i {
                    assert(es[i].0 != es[b].0);
                } else if b == i {
                    assert(es[a].0 != es[i].0);
                }
            }
        },
        None => {
            assert(forall|j: int| 0 <= j < es.len() ==> (#[trigger] es[j]).0 != key);
            let p = es.push((key, ctx));
            assert forall|a: int, b: int| 0 <= a < b < p.len() implies (#[trigger] p[a]).0 != (#[trigger] p[b]).0 by {
                if b < es.len() {
                    assert(es[a].0 != es[b].0);
                }
            }
            if es.len() + 1 > cap {
                assert(p.skip(1) =~= es.skip(1).push((key, ctx)));
                assert forall|a: int, b: int| 0 <= a < b < u.len() implies (#[trigger] u[a]).0 != (#[trigger] u[b]).0 by {
                    assert(u[a] == p[a + 1] && u[b] == p[b + 1]);
                }
            }
        },
    }
}

/// Storing one conversation leaves every other conversation's context as it
/// was, except the oldest entry when a new conversation evicts it.
pub proof fn law_session_others_unchanged(
    es: Seq<(Seq<char>, (Option<Seq<char>>, usize))>,
    key: Seq<char>,
    ctx: (Option<Seq<char>>, usize),
    cap: nat,
    other: Seq<char>,
)
    requires
        cap >= 1,
        es.len() <= cap,
        unique_keys(es),
        other != key,
        !(lookup_index(es, key) is None && es.len() == cap && es[0].0 == other),
    ensures
        lookup(updated(es, key, ctx, cap), other) == lookup(es, other),
{
    law_session_capacity(es, key, ctx, cap);
    let u = updated(es, key, ctx, cap);
    match lookup_index(es, other) {
        Some(j) => {
            lemma_lookup_unique(es, other, j);
            match lookup_index(es, key) {
                Some(i) => {
                    assert(u[j] == es[j]);
                    lemma_lookup_unique(u, other, j);
                },
                None => {
                    if es.len() + 1 > cap {
                        assert(j != 0);
                        assert(u[j - 1] == es[j]);
                        lemma_lookup_unique(u, other, j - 1);
                    } else {
                        assert(u[j] == es[j]);
                        lemma_lookup_unique(u, other, j);
                    }
                },
            }
        },
        None => {
            assert(forall|j: int| 0 <= j < es.len() ==> (#[trigger] es[j]).0 != other);
            assert forall|c: int| 0 <= c < u.len() implies (#[trigger] u[c]).0 != other by {
                match lookup_index(es, key) {
                    Some(i) => {
                        if c != i {
                            assert(u[c] == es[c]);
                        }
                    },
                    None => {
                        if es.len() + 1 > cap {
                            if c + 1 < es.len() {
                                assert(u[c] == es[c + 1]);
                            }
                        } else if c < es.len() {
                            assert(u[c] == es[c]);
                        }
                    },
                }
            }
        },
    }
}

/// An operation on the session store, as plain values.
pub enum SessionOp {
    Update(Seq<char>, (Option<Seq<char>>, usize)),
    Clear(Seq<char>),
}

/// The entries after one operation (see `SessionStore::update` and `SessionStore::clear`).
pub open spec fn apply_op(es: Seq<(Seq<char>, (Option<Seq<char>>, usize))>, op: SessionOp, cap: nat)
    -> Seq<(Seq<char>, (Option<Seq<char>>, usize))> {
    match op {
        SessionOp::Update(k, c) => updated(es, k, c, cap),
        SessionOp::Clear(k) => keep(es, key_not(k)),
    }
}

/// The entries after operations in order.
pub open spec fn replay(es: Seq<(Seq<char>, (Option<Seq<char>>, usize))>, ops: Seq<SessionOp>, cap: nat)
    -> Seq<(Seq<char>, (Option<Seq<char>>, usize))>
    decreases ops.len(),
{
    if ops.len() == 0 {
        es
    } else {
        apply_op(replay(es, ops.drop_last(), cap), ops.last(), cap)
    }
}

/// Whether an operation is on the key.
pub open spec fn touches(op: SessionOp, k: Seq<char>) -> bool {
    match op {
        SessionOp::Update(o, _) => o == k,
        SessionOp::Clear(o) => o == k,
    }
}

/// Whether an operation stores a context for the key.
pub open spec fn stores(op: SessionOp, k: Seq<char>) -> bool {
    match op {
        SessionOp::Update(o, _) => o == k,
        SessionOp::Clear(_) => false,
    }
}

proof fn lemma_keep_unique(es: Seq<(Seq<char>, (Option<Seq<char>>, usize))>, f: spec_fn((Seq<char>, (Option<Seq<char>>, usize))) -> bool)
    requires
        unique_keys(es),
    ensures
        unique_keys(keep(es, f)),
    decreases es.len(),
{
    if es.len() > 0 {
        let d = es.drop_last();
        assert(unique_keys(d)) by {
            assert forall|i: int, j: int| 0 <= i < j < d.len() implies (#[trigger] d[i]).0 != (#[trigger] d[j]).0 by {
                assert(d[i] == es[i] && d[j] == es[j]);
            }
        }
        lemma_keep_unique(d, f);
        lemma_keep_props(d, f);
        if f(es.last()) {
            let kd = keep(d, f);
            let r = kd.push(es.last());
            assert forall|i: int, j: int| 0 <= i < j < r.len() implies (#[trigger] r[i]).0 != (#[trigger] r[j]).0 by {
                if j == r.len() - 1 {
                    assert(kd.contains(kd[i]));
                    assert(d.contains(kd[i]));
                    let m = choose|m: int| 0 <= m < d.len() && d[m] == kd[i];
                    assert(es[m] == d[m]);
                    assert(es[m].0 != es[es.len() - 1].0);
                }
            }
        }
    }
}

/// One operation keeps the store within its capacity with each key once, and
/// an operation on another key neither brings a key back nor changes its context.
proof fn lemma_step(es: Seq<(Seq<char>, (Option<Seq<char>>, usize))>, op: SessionOp, cap: nat, k: Seq<char>)
    requires
        cap >= 1,
        es.len() <= cap,
        unique_keys(es),
    ensures
        apply_op(es, op, cap).len() <= cap,
        unique_keys(apply_op(es, op, cap)),
        !touches(op, k) && lookup_index(apply_op(es, op, cap), k) is Some ==>
            lookup_index(es, k) is Some && lookup(apply_op(es, op, cap), k) == lookup(es, k),
        (op matches SessionOp::Clear(o) && o == k) ==> lookup_index(apply_op(es, op, cap), k) is None,
{
    let r = apply_op(es, op, cap);
    match op {
        SessionOp::Update(o, c) => {
            law_session_capacity(es, o, c, cap);
            if o != k && lookup_index(r, k) is Some {
                let j = choose|j: int| 0 <= j < r.len() && (#[trigger] r[j]).0 == k;
                match lookup_index(es, o) {
                    Some(i) => {
                        assert(j != i);
                        assert(r[j] == es[j]);
                    },
                    None => {
                        if es.len() + 1 > cap {
                            assert(r[j] == es.push((o, c))[j + 1]);
                            assert(j + 1 < es.len() + 1);
                            if j + 1 == es.len() {
                                assert(false);
                            }
                            assert(es[j + 1].0 == k);
                            if es.len() == cap && es[0].0 == k {
                                assert(es[0].0 != es[j + 1].0);
                            }
                        } else {
                            assert(j < es.len());
                            assert(r[j] == es[j]);
                        }
                    },
                }
                assert(lookup_index(es, k) is Some);
                law_session_others_unchanged(es, o, c, cap, k);
            }
        },
        SessionOp::Clear(o) => {
            lemma_keep_props(es, key_not(o));
            lemma_keep_unique(es, key_not(o));
            if lookup_index(r, k) is Some {
                let j = choose|j: int| 0 <= j < r.len() && (#[trigger] r[j]).0 == k;
                assert(r.contains(r[j]));
                assert(key_not(o)(r[j]));
                if o != k {
                    assert(es.contains(r[j]));
                    let m = choose|m: int| 0 <= m < es.len() && es[m] == r[j];
                    assert(lookup_index(es, k) is Some);
                    lemma_lookup_unique(es, k, m);
                    lemma_lookup_unique(r, k, j);
                }
            }
        },
    }
}

/// Over any run of updates and clears, a store stays within its capacity and
/// holds each key once.
pub proof fn law_session_replay_bounded(es: Seq<(Seq<char>, (Option<Seq<char>>, usize))>, ops: Seq<SessionOp>, cap: nat)
    requires
        cap >= 1,
        es.len() <= cap,
        unique_keys(es),
    ensures
        replay(es, ops, cap).len() <= cap,
        unique_keys(replay(es, ops, cap)),
    decreases ops.len(),
{
    if ops.len() > 0 {
        law_session_replay_bounded(es, ops.drop_last(), cap);
        lemma_step(replay(es, ops.drop_last(), cap), ops.last(), cap, Seq::empty());
    }
}

/// Over any run of updates and clears, a conversation still held reads back
/// the context of its last update, provided nothing since touched it.
pub proof fn law_session_replay_read(
    es: Seq<(Seq<char>, (Option<Seq<char>>, usize))>,
    ops: Seq<SessionOp>,
    cap: nat,
    i: int,
    k: Seq<char>,
    c: (Option<Seq<char>>, usize),
)
    requires
        cap >= 1,
        es.len() <= cap,
        unique_keys(es),
        0 <= i < ops.len(),
        ops[i] == SessionOp::Update(k, c),
        forall|j: int| i < j < ops.len() ==> !touches(#[trigger] ops[j], k),
        lookup_index(replay(es, ops, cap), k) is Some,
    ensures
        lookup(replay(es, ops, cap), k) == c,
    decreases ops.len(),
{
    let d = ops.drop_last();
    law_session_replay_bounded(es, d, cap);
    let prev = replay(es, d, cap);
    if i == ops.len() - 1 {
        law_session_read_after_write(prev, k, c, cap);
    } else {
        lemma_step(prev, ops.last(), cap, k);
        assert(!touches(ops[ops.len() - 1], k));
        assert forall|j: int| i < j < d.len() implies !touches(#[trigger] d[j], k) by {
            assert(d[j] == ops[j]);
        }
        assert(d[i] == ops[i]);
        law_session_replay_read(es, d, cap, i, k, c);
    }
}

/// Over any run of updates and clears that never stores a context for a key
/// the store does not hold, the key reads as the empty context.
pub proof fn law_session_replay_unset(
    es: Seq<(Seq<char>, (Option<Seq<char>>, usize))>,
    ops: Seq<SessionOp>,
    cap: nat,
    k: Seq<char>,
)
    requires
        cap >= 1,
        es.len() <= cap,
        unique_keys(es),
        lookup_index(es, k) is None,
        forall|j: int| 0 <= j < ops.len() ==> !stores(#[trigger] ops[j], k),
    ensures
        lookup_index(replay(es, ops, cap), k) is None,
        lookup(replay(es, ops, cap), k) == empty_ctx(),
    decreases ops.len(),
{
    if ops.len() > 0 {
        let d = ops.drop_last();
        assert forall|j: int| 0 <= j < d.len() implies !stores(#[trigger] d[j], k) by {
            assert(d[j] == ops[j]);
        }
        law_session_replay_unset(es, d, cap, k);
        law_session_replay_bounded(es, d, cap);
        assert(!stores(ops[ops.len() - 1], k));
        lemma_step(replay(es, d, cap), ops.last(), cap, k);
    }
}

/// A change of the proxy's run-time state.
pub enum RuntimeOp {
    /// `init_proxy_port`, `set_proxy_port_static` or `config::set_proxy_port`.
    SetPort(u16),
    /// `init_proxy_host`, `set_proxy_host_static` or `config::set_proxy_host`.
    SetHost(String),
    /// A start (`begin_start`) whose server then runs (`set_running(true)`).
    Start,
    /// The server stopped on its own (`set_running(false)`).
    Exit,
    /// `stop_proxy`, with whether the shutdown signal was delivered.
    Stop(bool),
}

/// The run-time state after one change, as the functions above leave it.
pub open spec fn runtime_step(rt: ProxyRuntime, op: RuntimeOp) -> ProxyRuntime {
    match op {
        RuntimeOp::SetPort(p) => ProxyRuntime { port: p, ..rt },
        RuntimeOp::SetHost(h) => ProxyRuntime { host: h, ..rt },
        RuntimeOp::Start => if rt.running { rt } else { ProxyRuntime { shutdown_armed: true, running: true, ..rt } },
        RuntimeOp::Exit => ProxyRuntime { running: false, ..rt },
        RuntimeOp::Stop(delivered) => if !rt.shutdown_armed {
            rt
        } else if delivered {
            ProxyRuntime { shutdown_armed: false, running: false, ..rt }
        } else {
            ProxyRuntime { shutdown_armed: false, ..rt }
        },
    }
}

/// The run-time state after changes in order.
pub open spec fn runtime_after(rt: ProxyRuntime, ops: Seq<RuntimeOp>) -> ProxyRuntime
    decreases ops.len(),
{
    if ops.len() == 0 {
        rt
    } else {
        runtime_step(runtime_after(rt, ops.drop_last()), ops.last())
    }
}

/// The port of the last port change, or `port` when there is none.
pub open spec fn last_port(ops: Seq<RuntimeOp>, port: u16) -> u16
    decreases ops.len(),
{
    if ops.len() == 0 {
        port
    } else {
        match ops.last() {
            RuntimeOp::SetPort(p) => p,
            _ => last_port(ops.drop_last(), port),
        }
    }
}

/// The address of the last address change, or `host` when there is none.
pub open spec fn last_host(ops: Seq<RuntimeOp>, host: String) -> String
    decreases ops.len(),
{
    if ops.len() == 0 {
        host
    } else {
        match ops.last() {
            RuntimeOp::SetHost(h) => h,
            _ => last_host(ops.drop_last(), host),
        }
    }
}

/// Whatever happens in between, the status reports the port and address last
/// set (the initial ones when none was set).
pub proof fn law_status_reports_last_settings(rt: ProxyRuntime, ops: Seq<RuntimeOp>)
    ensures
        runtime_after(rt, ops).port == last_port(ops, rt.port),
        runtime_after(rt, ops).host == last_host(ops, rt.host),
    decreases ops.len(),
{
    if ops.len() > 0 {
        law_status_reports_last_settings(rt, ops.drop_last());
    }
}

/// After a start, the proxy reports running until it is stopped or its
/// server exits.
pub proof fn law_status_running_after_start(rt: ProxyRuntime, ops: Seq<RuntimeOp>, i: int)
    requires
        0 <= i < ops.len(),
        ops[i] is Start,
        forall|j: int| i < j < ops.len() ==> !(#[trigger] ops[j] is Exit) && !(ops[j] is Stop),
    ensures
        runtime_after(rt, ops).running,
    decreases ops.len(),
{
    if i < ops.len() - 1 {
        let d = ops.drop_last();
        assert forall|j: int| i < j < d.len() implies !(#[trigger] d[j] is Exit) && !(d[j] is Stop) by {
            assert(d[j] == ops[j]);
        }
        assert(d[i] == ops[i]);
        law_status_running_after_start(rt, d, i);
        assert(!(ops[ops.len() - 1] is Exit) && !(ops[ops.len() - 1] is Stop));
    }
}

/// After the server exits, the proxy reports stopped until it is started again.
pub proof fn law_status_stopped_after_exit(rt: ProxyRuntime, ops: Seq<RuntimeOp>, i: int)
    requires
        0 <= i < ops.len(),
        ops[i] is Exit,
        forall|j: int| i < j < ops.len() ==> !(#[trigger] ops[j] is Start),
    ensures
        !runtime_after(rt, ops).running,
    decreases ops.len(),
{
    if i < ops.len() - 1 {
        let d = ops.drop_last();
        assert forall|j: int| i < j < d.len() implies !(#[trigger] d[j] is Start) by {
            assert(d[j] == ops[j]);
        }
        assert(d[i] == ops[i]);
        law_status_stopped_after_exit(rt, d, i);
        assert(!(ops[ops.len() - 1] is Start));
    }
}

/// A cleared conversation reads as the empty context.
pub proof fn law_session_clear_forgets(es: Seq<(Seq<char>, (Option<Seq<char>>, usize))>, key: Seq<char>)
    ensures
        lookup(keep(es, key_not(key)), key) == empty_ctx(),
{
    let k = keep(es, key_not(key));
    lemma_keep_props(es, key_not(key));
    assert forall|c: int| 0 <= c < k.len() implies (#[trigger] k[c]).0 != key by {
        assert(k.contains(k[c]));
        assert(key_not(key)(k[c]));
    }
}

/// Counting a request never lowers a counter, and always raises the request
/// count unless it is saturated.
pub proof fn law_usage_counters_grow(s: TokenStats, prompt: u64, completion: u64, now: i64)
    ensures
        with_usage(s, prompt, completion, now).prompt_tokens >= s.prompt_tokens,
        with_usage(s, prompt, completion, now).completion_tokens >= s.completion_tokens,
        with_usage(s, prompt, completion, now).total_tokens >= s.total_tokens,
        with_usage(s, prompt, completion, now).request_count >= s.request_count,
        s.request_count < u64::MAX ==> with_usage(s, prompt, completion, now).request_count == s.request_count + 1,
        with_streaming(s, now).request_count >= s.request_count,
        with_streaming(s, now).streaming_request_count >= s.streaming_request_count,
        with_streaming(s, now).prompt_tokens == s.prompt_tokens,
{
}

/// A joined upstream URL starts with the base URL (trailing slashes dropped).
pub proof fn law_joined_url_keeps_base(base_url: Seq<char>, target_path: Seq<char>)
    ensures
        has_prefix(joined_url(base_url, target_path), strip_trailing(base_url, '/')),
{
    let b = strip_trailing(base_url, '/');
    let u = joined_url(base_url, target_path);
    assert(u.subrange(0, b.len() as int) =~= b);
}

/// A stream that ended without a termination signal is always judged a
/// suspected truncation, and a deliberate end (B) needs a clean ending.
pub proof fn law_unclean_stream_is_truncation(acc: AccView, done: bool)
    ensures
        !(done || acc.finish_reason is Some || acc.responses_completed) ==> classify(acc, done).0 == Category::A,
        classify(acc, done).0 == Category::B ==> (done || acc.finish_reason is Some || acc.responses_completed),
{
}

} // verus!
