//! The proxy's decisions: runtime settings, request-body sniffing, upstream
//! URL building, platform lookup and the keys to try for a request.

use vstd::prelude::*;
use rand::seq::SliceRandom;
use crate::clock::{self, clock_range};
use crate::key_model_map::{self, KeyModelMap, keys_of, string_views};
use crate::keystore::{self, KeyStore, of_platform};
use crate::model_manager::{self, ModelStore, model_of_platform};
use crate::models::{ApiKey, AppConfig, Model, PathOverride, Platform};
use crate::quota_window::{self, QuotaStore, QuotaView, cleaned_where, key_views, passing};
use crate::sorting::{first_where, keep, lemma_first_where, lemma_first_where_props, sort_by_order};
use crate::json::{self, Json};
use crate::text::{
    push_decimal, contains_seq, first_occurrence, lines, push_str, split_lines, trim_ws,
    ends_with, has_prefix, has_suffix, index_of_char, owned, push_all, slice_chars, starts_with, str_chars,
    string_from_chars, strip_leading, strip_trailing, trim_end_char, trim_start_char,
};

verus! {

/// Seconds of upstream silence after which a keepalive comment is sent.
pub const SSE_KEEPALIVE_INTERVAL_SECS: u64 = 25;

/// The keepalive frame: an SSE comment line.
pub const SSE_KEEPALIVE_BYTES: [u8; 8] = [58, 32, 112, 105, 110, 103, 10, 10];

/// Proxy server settings and run state.
#[derive(Debug, Clone)]
pub struct ProxyRuntime {
    /// The server is serving.
    pub running: bool,
    /// Port the next start binds.
    pub port: u16,
    /// Address the next start binds.
    pub host: String,
    /// A shutdown signal can be sent (set when a start begins).
    pub shutdown_armed: bool,
    /// Upstream HTTP proxy URL used for outgoing requests (`None`: direct).
    pub upstream_proxy: Option<String>,
}

impl ProxyRuntime {
    /// Not running, port 8045 on 127.0.0.1, direct connection.
    pub fn new() -> (r: Self)
        ensures
            !r.running,
            r.port == 8045,
            r.host@ == "127.0.0.1"@,
            !r.shutdown_armed,
            r.upstream_proxy is None,
    {
        ProxyRuntime { running: false, port: 8045, host: owned("127.0.0.1"), shutdown_armed: false, upstream_proxy: None }
    }
}

/// Proxy server status.
#[derive(Debug, Clone)]
pub struct ProxyStatus {
    pub running: bool,
    pub port: u16,
    pub host: String,
}

/// Whether `reqwest` accepts `url` as a proxy URL.
pub uninterp spec fn proxy_url_accepted(url: Seq<char>) -> bool;

/// Calls `reqwest::Proxy::all(url)`; true when it returns `Ok`. Whether a URL is
/// accepted depends on the URL alone (it is parsed, nothing is contacted).
#[verifier::external_body]
fn accepts_proxy_url(url: &str) -> (r: bool)
    ensures
        r == proxy_url_accepted(url@),
{
    reqwest::Proxy::all(url).is_ok()
}

/// The upstream proxy that a client built from `proxy_url` uses: a non-empty URL
/// that reqwest accepts; anything else means a direct connection.
pub open spec fn effective_proxy(proxy_url: Option<String>) -> Option<Seq<char>> {
    match proxy_url {
        Some(u) => if u@.len() > 0 && proxy_url_accepted(u@) { Some(u@) } else { None },
        None => None,
    }
}

/// The upstream proxy setting, as character views.
pub open spec fn proxy_view(p: Option<String>) -> Option<Seq<char>> {
    match p {
        Some(u) => Some(u@),
        None => None,
    }
}

/// Settings other than the upstream proxy are unchanged.
pub open spec fn same_but_client(a: ProxyRuntime, b: ProxyRuntime) -> bool {
    a.running == b.running && a.port == b.port && a.host == b.host && a.shutdown_armed == b.shutdown_armed
}

fn set_client(rt: &mut ProxyRuntime, proxy_url: Option<String>)
    ensures
        proxy_view(final(rt).upstream_proxy) == effective_proxy(proxy_url),
        same_but_client(*final(rt), *old(rt)),
{
    let chosen = match proxy_url {
        Some(u) => if !u.as_str().is_empty() && accepts_proxy_url(u.as_str()) { Some(u) } else { None },
        None => None,
    };
    rt.upstream_proxy = chosen;
}

/// Sets the outgoing client's upstream proxy from the configuration at start-up.
pub fn init_proxy_client(rt: &mut ProxyRuntime, proxy_url: Option<String>)
    ensures
        proxy_view(final(rt).upstream_proxy) == effective_proxy(proxy_url),
        same_but_client(*final(rt), *old(rt)),
{
    set_client(rt, proxy_url);
}

/// Changes the outgoing client's upstream proxy at run time; `None` or an empty
/// URL reverts to a direct connection.
pub fn update_proxy_client(rt: &mut ProxyRuntime, proxy_url: Option<String>)
    ensures
        proxy_view(final(rt).upstream_proxy) == effective_proxy(proxy_url),
        same_but_client(*final(rt), *old(rt)),
{
    set_client(rt, proxy_url);
}

/// Sets the port from the configuration at start-up.
pub fn init_proxy_port(rt: &mut ProxyRuntime, port: u16)
    ensures
        *final(rt) == (ProxyRuntime { port, ..*old(rt) }),
{
    rt.port = port;
}

/// Sets the bind address from the configuration at start-up.
pub fn init_proxy_host(rt: &mut ProxyRuntime, host: String)
    ensures
        *final(rt) == (ProxyRuntime { host, ..*old(rt) }),
{
    rt.host = host;
}

/// Sets the port the next start binds.
pub fn set_proxy_port_static(rt: &mut ProxyRuntime, port: u16)
    ensures
        *final(rt) == (ProxyRuntime { port, ..*old(rt) }),
{
    rt.port = port;
}

/// Sets the address the next start binds.
pub fn set_proxy_host_static(rt: &mut ProxyRuntime, host: String)
    ensures
        *final(rt) == (ProxyRuntime { host, ..*old(rt) }),
{
    rt.host = host;
}

/// Begins a start: refused while the server runs; otherwise arms the shutdown
/// signal and gives the address to bind.
pub fn begin_start(rt: &mut ProxyRuntime) -> (r: Result<(String, u16), String>)
    ensures
        old(rt).running ==> (r matches Err(e) && e@ == "Proxy is already running"@ && *final(rt) == *old(rt)),
        !old(rt).running ==> (r matches Ok((h, p)) && h == old(rt).host && p == old(rt).port
            && *final(rt) == (ProxyRuntime { shutdown_armed: true, ..*old(rt) })),
{
    if rt.running {
        return Err(owned("Proxy is already running"));
    }
    rt.shutdown_armed = true;
    Ok((rt.host.clone(), rt.port))
}

/// Records whether the server is serving (after it bound, or once it stopped).
pub fn set_running(rt: &mut ProxyRuntime, running: bool)
    ensures
        *final(rt) == (ProxyRuntime { running, ..*old(rt) }),
{
    rt.running = running;
}

/// Stops the server: without an armed shutdown signal the proxy was not
/// running; otherwise the signal is used up, and when it was delivered
/// (`delivered`) the server counts as stopped.
pub fn stop_proxy(rt: &mut ProxyRuntime, delivered: bool) -> (r: Result<(), String>)
    ensures
        !old(rt).shutdown_armed ==> (r matches Err(e) && e@ == "Proxy was not running"@ && *final(rt) == *old(rt)),
        old(rt).shutdown_armed && !delivered ==> (r matches Err(e) && e@ == "Failed to send shutdown signal"@
            && *final(rt) == (ProxyRuntime { shutdown_armed: false, ..*old(rt) })),
        old(rt).shutdown_armed && delivered ==> (r is Ok
            && *final(rt) == (ProxyRuntime { shutdown_armed: false, running: false, ..*old(rt) })),
{
    if !rt.shutdown_armed {
        return Err(owned("Proxy was not running"));
    }
    rt.shutdown_armed = false;
    if !delivered {
        return Err(owned("Failed to send shutdown signal"));
    }
    rt.running = false;
    Ok(())
}

/// The server's state.
pub fn get_proxy_status(rt: &ProxyRuntime) -> (r: ProxyStatus)
    ensures
        r.running == rt.running,
        r.port == rt.port,
        r.host == rt.host,
{
    ProxyStatus { running: rt.running, port: rt.port, host: rt.host.clone() }
}

/// The text that `bytes` decode to as UTF-8, if they are valid UTF-8.
pub uninterp spec fn utf8_text(bytes: Seq<u8>) -> Option<Seq<char>>;

/// Calls `std::str::from_utf8`; `None` when the bytes are not valid UTF-8.
#[verifier::external_body]
pub fn decode_utf8(bytes: &[u8]) -> (r: Option<String>)
    ensures
        match r {
            Some(s) => utf8_text(bytes@) == Some(s@),
            None => utf8_text(bytes@) is None,
        },
{
    std::str::from_utf8(bytes).ok().map(|s| s.to_string())
}

/// Whether the text begins with an HTTP request method and a space.
pub open spec fn starts_with_method(t: Seq<char>) -> bool {
    ||| has_prefix(t, "POST "@)
    ||| has_prefix(t, "GET "@)
    ||| has_prefix(t, "PUT "@)
    ||| has_prefix(t, "PATCH "@)
    ||| has_prefix(t, "DELETE "@)
    ||| has_prefix(t, "OPTIONS "@)
    ||| has_prefix(t, "HEAD "@)
}

fn prefix_is(t: &Vec<char>, p: &str) -> (r: bool)
    ensures
        r == has_prefix(t@, p@),
{
    let pv = str_chars(p);
    starts_with(t, &pv)
}

/// Whether a request body is the text of a whole HTTP request (request line and
/// headers, with or without a payload): valid UTF-8 whose first line starts
/// with a method name and a space.
pub fn looks_like_http_request_text(body: &[u8]) -> (r: bool)
    ensures
        r == match utf8_text(body@) {
            Some(t) => starts_with_method(t),
            None => false,
        },
{
    let text = match decode_utf8(body) {
        Some(t) => t,
        None => return false,
    };
    let t = str_chars(text.as_str());
    prefix_is(&t, "POST ") || prefix_is(&t, "GET ") || prefix_is(&t, "PUT ") || prefix_is(&t, "PATCH ")
        || prefix_is(&t, "DELETE ") || prefix_is(&t, "OPTIONS ") || prefix_is(&t, "HEAD ")
}

/// Whether a path segment is a version: `v` followed by one or more ASCII digits.
pub open spec fn is_version_segment(seg: Seq<char>) -> bool {
    seg.len() >= 2 && seg[0] == 'v' && forall|i: int| 1 <= i < seg.len() ==> '0' <= #[trigger] seg[i] <= '9'
}

/// The upstream URL for `target_path` under `base_url`: trailing slashes of the
/// base and leading slashes of the path are dropped, and a leading version
/// segment of the path is dropped when the base already ends with it, or when
/// the base ends with `/openai`.
pub open spec fn joined_url(base_url: Seq<char>, target_path: Seq<char>) -> Seq<char> {
    let base = strip_trailing(base_url, '/');
    let path = strip_leading(target_path, '/');
    if path.len() == 0 {
        base
    } else {
        match first_where(path, |c: char| c == '/') {
            Some(k) => {
                let first = path.subrange(0, k);
                let rest = path.subrange(k + 1, path.len() as int);
                if is_version_segment(first) && (has_suffix(base, seq!['/'] + first) || has_suffix(base, "/openai"@)) {
                    base + seq!['/'] + rest
                } else {
                    base + seq!['/'] + path
                }
            },
            None => base + seq!['/'] + path,
        }
    }
}

fn version_segment(seg: &Vec<char>) -> (r: bool)
    ensures
        r == is_version_segment(seg@),
{
    if seg.len() < 2 || seg[0] != 'v' {
        return false;
    }
    let mut i: usize = 1;
    while i < seg.len()
        invariant
            1 <= i <= seg.len(),
            forall|j: int| 1 <= j < i ==> '0' <= #[trigger] seg@[j] <= '9',
        decreases seg.len() - i,
    {
        if !('0' <= seg[i] && seg[i] <= '9') {
            return false;
        }
        i += 1;
    }
    true
}

/// Joins a platform base URL and a request path without doubling a version segment.
pub fn deduplicate_url_path(base_url: &str, target_path: &str) -> (r: String)
    ensures
        r@ == joined_url(base_url@, target_path@),
{
    let base = trim_end_char(&str_chars(base_url), '/');
    let path = trim_start_char(&str_chars(target_path), '/');
    if path.len() == 0 {
        return string_from_chars(&base);
    }
    let ghost f = |c: char| c == '/';
    let slash = index_of_char(&path, '/');
    proof {
        lemma_first_char(path@, '/');
    }
    let mut out = base.clone();
    out.push('/');
    match slash {
        Some(k) => {
            let first = slice_chars(&path, 0, k);
            let rest = slice_chars(&path, k + 1, path.len());
            let mut slash_first: Vec<char> = Vec::new();
            slash_first.push('/');
            push_all(&mut slash_first, &first);
            proof {
                assert(slash_first@ =~= seq!['/'] + first@);
            }
            if version_segment(&first) && (ends_with(&base, &slash_first) || ends_with(&base, &str_chars("/openai"))) {
                push_all(&mut out, &rest);
            } else {
                push_all(&mut out, &path);
            }
        },
        None => {
            push_all(&mut out, &path);
        },
    }
    proof {
        assert(base@.push('/') =~= base@ + seq!['/']);
    }
    string_from_chars(&out)
}

proof fn lemma_first_char(s: Seq<char>, c: char)
    ensures
        match first_where(s, |x: char| x == c) {
            Some(k) => 0 <= k < s.len() && s[k] == c && forall|j: int| 0 <= j < k ==> s[j] != c,
            None => forall|j: int| 0 <= j < s.len() ==> s[j] != c,
        },
{
    lemma_first_where_props(s, |x: char| x == c);
}

/// Whether an override applies to a path: the path is its prefix, or lies under it.
pub open spec fn override_applies(target_path: Seq<char>, prefix: Seq<char>) -> bool {
    target_path == prefix || has_prefix(target_path, prefix + seq!['/'])
}

/// Whether a platform has the given id.
pub open spec fn platform_id_is(platform_id: Seq<char>) -> spec_fn(Platform) -> bool {
    |p: Platform| p.id@ == platform_id
}

/// Whether an override applies to the path.
pub open spec fn override_for(target_path: Seq<char>) -> spec_fn(PathOverride) -> bool {
    |o: PathOverride| override_applies(target_path, o.path_prefix@)
}

/// Whether a platform has the given path prefix.
pub open spec fn prefix_is_spec(prefix: Seq<char>) -> spec_fn(Platform) -> bool {
    |p: Platform| p.path_prefix@ == prefix
}

/// The base URL a request path of a platform goes to: the first override of
/// the first platform with that id whose prefix applies, otherwise the default.
pub open spec fn resolved_base_url(ps: Seq<Platform>, platform_id: Seq<char>, target_path: Seq<char>, default_base_url: Seq<char>) -> Seq<char> {
    match first_where(ps, platform_id_is(platform_id)) {
        None => default_base_url,
        Some(i) => match first_where(ps[i].base_url_overrides@, override_for(target_path)) {
            Some(j) => ps[i].base_url_overrides@[j].base_url@,
            None => default_base_url,
        },
    }
}

/// The base URL for a request path, honouring the platform's path overrides.
pub fn resolve_base_url(config: &AppConfig, platform_id: &str, target_path: &str, default_base_url: &str) -> (r: String)
    ensures
        r@ == resolved_base_url(config.platforms@, platform_id@, target_path@, default_base_url@),
{
    let ghost fp = platform_id_is(platform_id@);
    let pid = owned(platform_id);
    let target = str_chars(target_path);
    let mut i: usize = 0;
    while i < config.platforms.len()
        invariant
            i <= config.platforms.len(),
            pid@ == platform_id@,
            target@ == target_path@,
            fp == platform_id_is(platform_id@),
            first_where(config.platforms@.take(i as int), fp) is None,
        decreases config.platforms.len() - i,
    {
        proof {
            lemma_first_where(config.platforms@, fp, i as int);
        }
        if config.platforms[i].id == pid {
            proof {
                lemma_first_where(config.platforms@, fp, i + 1);
            }
            let overrides = &config.platforms[i].base_url_overrides;
            let ghost fo = override_for(target_path@);
            let mut j: usize = 0;
            while j < overrides.len()
                invariant
                    j <= overrides.len(),
                    target@ == target_path@,
                    i < config.platforms@.len(),
                    fp == platform_id_is(platform_id@),
                    first_where(config.platforms@, fp) == Some(i as int),
                    overrides@ == config.platforms@[i as int].base_url_overrides@,
                    fo == override_for(target_path@),
                    first_where(overrides@.take(j as int), fo) is None,
                decreases overrides.len() - j,
            {
                proof {
                    lemma_first_where(overrides@, fo, j as int);
                }
                let prefix = str_chars(overrides[j].path_prefix.as_str());
                let mut with_slash = prefix.clone();
                with_slash.push('/');
                proof {
                    assert(with_slash@ =~= prefix@ + seq!['/']);
                }
                let applies = (target.len() == prefix.len() && starts_with(&target, &prefix)) || starts_with(&target, &with_slash);
                proof {
                    if target@.len() == prefix@.len() && has_prefix(target@, prefix@) {
                        assert(target@ =~= prefix@);
                    }
                    if target@ == prefix@ {
                        assert(target@.subrange(0, prefix@.len() as int) =~= prefix@);
                    }
                    assert(applies == override_applies(target_path@, overrides@[j as int].path_prefix@));
                }
                if applies {
                    proof {
                        lemma_first_where(overrides@, fo, j + 1);
                    }
                    return overrides[j].base_url.clone();
                }
                j += 1;
            }
            proof {
                lemma_first_where(overrides@, fo, j as int);
            }
            return owned(default_base_url);
        }
        i += 1;
    }
    proof {
        lemma_first_where(config.platforms@, fp, i as int);
    }
    owned(default_base_url)
}

/// `(base_url, platform_id, auto_switch)` of the first platform with the given path prefix.
pub fn get_platform_info(config: &AppConfig, prefix: &str) -> (r: Option<(String, String, bool)>)
    ensures
        match first_where(config.platforms@, prefix_is_spec(prefix@)) {
            None => r is None,
            Some(i) => r matches Some((b, id, a)) && b == config.platforms@[i].base_url
                && id == config.platforms@[i].id && a == config.auto_switch,
        },
{
    let ghost fp = prefix_is_spec(prefix@);
    let px = owned(prefix);
    let mut i: usize = 0;
    while i < config.platforms.len()
        invariant
            i <= config.platforms.len(),
            px@ == prefix@,
            fp == prefix_is_spec(prefix@),
            first_where(config.platforms@.take(i as int), fp) is None,
        decreases config.platforms.len() - i,
    {
        proof {
            lemma_first_where(config.platforms@, fp, i as int);
        }
        if config.platforms[i].path_prefix == px {
            proof {
                lemma_first_where(config.platforms@, fp, i + 1);
            }
            return Some((config.platforms[i].base_url.clone(), config.platforms[i].id.clone(), config.auto_switch));
        }
        i += 1;
    }
    proof {
        lemma_first_where(config.platforms@, fp, i as int);
    }
    None
}

/// `(base_url, platform_id, auto_switch)` of the first platform, if any.
pub fn get_first_platform(config: &AppConfig) -> (r: Option<(String, String, bool)>)
    ensures
        config.platforms@.len() == 0 ==> r is None,
        config.platforms@.len() > 0 ==> (r matches Some((b, id, a)) && b == config.platforms@[0].base_url
            && id == config.platforms@[0].id && a == config.auto_switch),
{
    if config.platforms.len() == 0 {
        return None;
    }
    Some((config.platforms[0].base_url.clone(), config.platforms[0].id.clone(), config.auto_switch))
}

/// Whether a key is active at `now`.
pub open spec fn active_at_time(now: int) -> spec_fn(ApiKey) -> bool {
    |k: ApiKey| k.active_at(now)
}

/// The ids of keys, in order.
pub open spec fn key_ids(ks: Seq<ApiKey>) -> Seq<Seq<char>> {
    ks.map_values(|k: ApiKey| k.id@)
}

/// The ids of a platform's keys that are active at `now`, by sort order.
pub open spec fn active_key_ids(keys: Seq<ApiKey>, platform_id: Seq<char>, now: int) -> Seq<Seq<char>> {
    key_ids(keep(sort_by_order(keep(keys, of_platform(platform_id))), active_at_time(now)))
}

/// The ids of a platform's keys that are active at `now`, by sort order.
pub fn list_active_key_ids_at(store: &KeyStore, platform_id: &str, now: i64) -> (r: Vec<String>)
    ensures
        string_views(r@) == active_key_ids(store.keys@, platform_id@, now as int),
{
    let keys = match keystore::list_keys(store, platform_id) {
        Ok(v) => v,
        Err(_) => Vec::new(),
    };
    let ghost ks = keys@;
    let mut out: Vec<String> = Vec::new();
    let mut i: usize = 0;
    while i < keys.len()
        invariant
            i <= keys.len(),
            ks == keys@,
            ks == sort_by_order(keep(store.keys@, of_platform(platform_id@))),
            string_views(out@) == key_ids(keep(ks.take(i as int), active_at_time(now as int))),
        decreases keys.len() - i,
    {
        proof {
            assert(ks.take(i + 1).drop_last() =~= ks.take(i as int));
            assert(ks.take(i + 1).last() == ks[i as int]);
        }
        if keys[i].is_active_at(now) {
            let ghost before = out@;
            out.push(keys[i].id.clone());
            proof {
                let kept = keep(ks.take(i as int), active_at_time(now as int));
                assert(keep(ks.take(i + 1), active_at_time(now as int)) == kept.push(ks[i as int]));
                assert(key_ids(kept.push(ks[i as int])) =~= key_ids(kept).push(ks[i as int].id@));
                assert(string_views(out@) =~= string_views(before).push(ks[i as int].id@));
            }
        }
        i += 1;
    }
    proof {
        assert(ks.take(i as int) =~= ks);
    }
    out
}

/// The ids of a platform's keys that are active now, by sort order.
pub fn list_active_key_ids(store: &KeyStore, platform_id: &str) -> (r: Vec<String>)
    ensures
        exists|now: int| clock_range(now) && string_views(r@) == active_key_ids(store.keys@, platform_id@, now),
{
    let now = clock::now_unix_seconds();
    list_active_key_ids_at(store, platform_id, now)
}

/// Whether a model has the given model name.
pub open spec fn model_name_is(name: Seq<char>) -> spec_fn(Model) -> bool {
    |m: Model| m.model_name@ == name
}

/// The id of the first model of the platform (by sort order) with the given name.
pub open spec fn model_id_for(models: Seq<Model>, platform_id: Seq<char>, name: Seq<char>) -> Option<Seq<char>> {
    let listed = sort_by_order(keep(models, model_of_platform(platform_id)));
    match first_where(listed, model_name_is(name)) {
        Some(i) => Some(listed[i].id@),
        None => None,
    }
}

/// Whether the id is one of the given ids.
pub open spec fn among(ids: Seq<Seq<char>>) -> spec_fn(Seq<char>) -> bool {
    |k: Seq<char>| ids.contains(k)
}

/// The keys considered for a request: the active keys mapped to the model when
/// the model has mapped keys, otherwise every active key of the platform.
pub open spec fn candidate_keys(keys: Seq<ApiKey>, mappings: Seq<key_model_map::KeyModelEntry>, platform_id: Seq<char>,
    model_id: Option<Seq<char>>, now: int) -> Seq<Seq<char>> {
    let active = active_key_ids(keys, platform_id, now);
    match model_id {
        Some(m) => if keys_of(mappings, m).len() > 0 { keep(keys_of(mappings, m), among(active)) } else { active },
        None => active,
    }
}

/// The model id a request's model name resolves to.
pub open spec fn requested_model_id(models: Seq<Model>, platform_id: Seq<char>, model_name: Option<String>) -> Option<Seq<char>> {
    match model_name {
        Some(n) => model_id_for(models, platform_id, n@),
        None => None,
    }
}

/// The keys to try for a request at `now`, before load balancing: the candidate
/// keys, less those over quota or backing off for the model (when it resolved).
pub open spec fn keys_to_try(keys: Seq<ApiKey>, models: Seq<Model>, mappings: Seq<key_model_map::KeyModelEntry>,
    trackers: Seq<quota_window::TrackerView>, platform_id: Seq<char>, model_name: Option<String>, now: int) -> Seq<Seq<char>> {
    let mid = requested_model_id(models, platform_id, model_name);
    let cands = candidate_keys(keys, mappings, platform_id, mid, now);
    match mid {
        Some(m) => passing(cands, trackers, m, now, models),
        None => cands,
    }
}

fn find_model_id(store: &ModelStore, platform_id: &str, name: &String) -> (r: Option<String>)
    ensures
        match r {
            Some(s) => model_id_for(store.models@, platform_id@, name@) == Some(s@),
            None => model_id_for(store.models@, platform_id@, name@) is None,
        },
{
    let listed = match model_manager::list_models(store, platform_id) {
        Ok(v) => v,
        Err(_) => Vec::new(),
    };
    let ghost f = model_name_is(name@);
    let mut i: usize = 0;
    while i < listed.len()
        invariant
            i <= listed.len(),
            listed@ == sort_by_order(keep(store.models@, model_of_platform(platform_id@))),
            f == model_name_is(name@),
            first_where(listed@.take(i as int), f) is None,
        decreases listed.len() - i,
    {
        proof {
            lemma_first_where(listed@, f, i as int);
        }
        if listed[i].model_name == *name {
            proof {
                lemma_first_where(listed@, f, i + 1);
            }
            return Some(listed[i].id.clone());
        }
        i += 1;
    }
    proof {
        lemma_first_where(listed@, f, i as int);
    }
    None
}

fn contains_string(v: &Vec<String>, s: &String) -> (r: bool)
    ensures
        r == string_views(v@).contains(s@),
{
    let mut i: usize = 0;
    while i < v.len()
        invariant
            i <= v.len(),
            forall|j: int| 0 <= j < i ==> (#[trigger] v@[j])@ != s@,
        decreases v.len() - i,
    {
        if v[i] == *s {
            proof {
                assert(string_views(v@)[i as int] == s@);
            }
            return true;
        }
        i += 1;
    }
    proof {
        if string_views(v@).contains(s@) {
            let j = choose|j: int| 0 <= j < string_views(v@).len() && string_views(v@)[j] == s@;
            assert(v@[j]@ == s@);
        }
    }
    false
}

/// The keys to try for a request at `now`, in preference order before load
/// balancing. Consulting the quota trackers leaves them cleaned.
pub fn keys_to_try_at(
    keys: &KeyStore,
    models: &ModelStore,
    map: &KeyModelMap,
    quota: &mut QuotaStore,
    platform_id: &str,
    model_name: Option<String>,
    now: i64,
) -> (r: Vec<String>)
    requires
        clock_range(now as int),
    ensures
        string_views(r@) == keys_to_try(keys.keys@, models.models@, map.mappings@, old(quota).state@.trackers,
            platform_id@, model_name, now as int),
        match requested_model_id(models.models@, platform_id@, model_name) {
            Some(m) => final(quota).state@ == (QuotaView {
                    trackers: cleaned_where(old(quota).state@.trackers,
                        candidate_keys(keys.keys@, map.mappings@, platform_id@, Some(m), now as int), m, now as int),
                    auto_switch_enabled: old(quota).state@.auto_switch_enabled,
                }) && final(quota).dirty,
            None => *final(quota) == *old(quota),
        },
{
    let model_id: Option<String> = match model_name {
        Some(ref n) => find_model_id(models, platform_id, n),
        None => None,
    };
    let active = list_active_key_ids_at(keys, platform_id, now);
    let candidates: Vec<String> = match model_id {
        Some(ref mid) => {
            let mapped = match key_model_map::get_keys_for_model(map, mid.as_str()) {
                Ok(v) => v,
                Err(_) => Vec::new(),
            };
            if mapped.len() > 0 {
                let ghost ids = string_views(mapped@);
                let ghost act = string_views(active@);
                let mut kept: Vec<String> = Vec::new();
                let mut i: usize = 0;
                while i < mapped.len()
                    invariant
                        i <= mapped.len(),
                        ids == string_views(mapped@),
                        act == string_views(active@),
                        string_views(kept@) == keep(ids.take(i as int), among(act)),
                    decreases mapped.len() - i,
                {
                    proof {
                        assert(ids.take(i + 1).drop_last() =~= ids.take(i as int));
                        assert(ids.take(i + 1).last() == ids[i as int]);
                    }
                    if contains_string(&active, &mapped[i]) {
                        let ghost before = kept@;
                        kept.push(mapped[i].clone());
                        proof {
                            assert(string_views(kept@) =~= string_views(before).push(mapped@[i as int]@));
                        }
                    }
                    i += 1;
                }
                proof {
                    assert(ids.take(i as int) =~= ids);
                }
                kept
            } else {
                active
            }
        },
        None => active,
    };
    match model_id {
        Some(ref mid) => quota_window::filter_available_keys_at(quota, &candidates, mid.as_str(), now, &models.models),
        None => candidates,
    }
}

/// Shuffles the key ids in place.
///
/// Calls `rand::seq::SliceRandom::shuffle` with the thread-local generator;
/// the only claim is that the result is a permutation of the input.
#[verifier::external_body]
fn shuffle_keys(v: &mut Vec<String>)
    ensures
        final(v)@.to_multiset() == old(v)@.to_multiset(),
{
    v.shuffle(&mut rand::thread_rng());
}

/// The keys to try for a request now, in a random order that spreads load:
/// a permutation of the keys that `keys_to_try` gives at some time `now`.
pub fn get_keys_to_try(
    keys: &KeyStore,
    models: &ModelStore,
    map: &KeyModelMap,
    quota: &mut QuotaStore,
    platform_id: &str,
    model_name: Option<String>,
) -> (r: Vec<String>)
    ensures
        exists|now: int, c: Seq<String>| clock_range(now) && #[trigger] string_views(c) == #[trigger] keys_to_try(keys.keys@, models.models@,
            map.mappings@, old(quota).state@.trackers, platform_id@, model_name, now)
            && r@.to_multiset() == c.to_multiset(),
{
    let now = clock::now_unix_seconds();
    let mut available = keys_to_try_at(keys, models, map, quota, platform_id, model_name, now);
    let ghost c = available@;
    shuffle_keys(&mut available);
    assert(string_views(c) == keys_to_try(keys.keys@, models.models@, map.mappings@, old(quota).state@.trackers,
        platform_id@, model_name, now as int));
    available
}

/// The first line of a text, as `str::lines` gives it.
pub open spec fn first_line(t: Seq<char>) -> Option<Seq<char>> {
    if lines(t).len() > 0 { Some(lines(t)[0]) } else { None }
}

/// Whether a line is an HTTP request line of a method that carries a body.
pub open spec fn request_line(l: Seq<char>) -> bool {
    ||| has_prefix(l, "POST "@)
    ||| has_prefix(l, "GET "@)
    ||| has_prefix(l, "PUT "@)
    ||| has_prefix(l, "PATCH "@)
    ||| has_prefix(l, "DELETE "@)
    ||| has_prefix(l, "OPTIONS "@)
}

/// Where the payload of an HTTP request text starts: after the blank line
/// (`\r\n\r\n` or `\n\n`), else at the first `{`.
pub open spec fn payload_start(t: Seq<char>) -> Option<int> {
    match first_occurrence(t, "\r\n\r\n"@) {
        Some(p) => Some(p + 4),
        None => match first_occurrence(t, "\n\n"@) {
            Some(p) => Some(p + 2),
            None => first_occurrence(t, "{"@),
        },
    }
}

/// The JSON payload embedded in a body that holds a whole HTTP request text:
/// the trimmed text after the headers, when it is valid JSON.
pub open spec fn embedded_json(body: Seq<u8>) -> Option<Seq<char>> {
    match utf8_text(body) {
        None => None,
        Some(t) => match first_line(t) {
            None => None,
            Some(l) => if !request_line(l) {
                None
            } else {
                match payload_start(t) {
                    None => None,
                    Some(st) => {
                        let inner = trim_ws(t.skip(st));
                        if inner.len() > 0 && json::parse_text(inner) is Some { Some(inner) } else { None }
                    },
                }
            },
        },
    }
}

fn position_of(t: &Vec<char>, p: &str) -> (r: Option<usize>)
    ensures
        match r {
            Some(i) => first_occurrence(t@, p@) == Some(i as int) && i + p@.len() <= t@.len(),
            None => first_occurrence(t@, p@) is None,
        },
{
    crate::text::index_of(t, &str_chars(p))
}

/// The JSON payload of a body that is a whole HTTP request text (see [`embedded_json`]).
pub fn extract_json_from_http_text(body: &[u8]) -> (r: Option<String>)
    ensures
        crate::diagnostics::chars_of(r) == embedded_json(body@),
{
    let text = match decode_utf8(body) {
        Some(t) => t,
        None => return None,
    };
    let t = str_chars(text.as_str());
    let ls = split_lines(&t);
    if ls.len() == 0 {
        return None;
    }
    let first = &ls[0];
    proof {
        assert(ls@.map_values(|l: Vec<char>| l@)[0] == first@);
    }
    let is_request = prefix_is(first, "POST ") || prefix_is(first, "GET ") || prefix_is(first, "PUT ")
        || prefix_is(first, "PATCH ") || prefix_is(first, "DELETE ") || prefix_is(first, "OPTIONS ");
    if !is_request {
        return None;
    }
    proof {
        reveal_strlit("\r\n\r\n");
        reveal_strlit("\n\n");
        reveal_strlit("{");
        assert("\r\n\r\n"@.len() == 4);
        assert("\n\n"@.len() == 2);
    }
    let tl = t.len();
    let start: usize = match position_of(&t, "\r\n\r\n") {
        Some(p) => p + 4,
        None => match position_of(&t, "\n\n") {
            Some(p) => p + 2,
            None => match position_of(&t, "{") {
                Some(p) => p,
                None => return None,
            },
        },
    };
    let inner = crate::text::trim(&slice_chars(&t, start, t.len()));
    proof {
        assert(t@.subrange(start as int, t@.len() as int) =~= t@.skip(start as int));
    }
    if inner.len() == 0 {
        return None;
    }
    let s = string_from_chars(&inner);
    if json::parse(s.as_str()).is_some() {
        Some(s)
    } else {
        None
    }
}

/// The model named by a request body.
pub open spec fn model_of(j: Json) -> Option<Seq<char>> {
    json::str_of(json::get(j, "model"@))
}

/// Whether a request body needs a default `max_tokens`: it is missing, null,
/// not an unsigned integer, zero, or above 65536.
pub open spec fn needs_max_tokens_fix(j: Json) -> bool {
    match json::get(j, "max_tokens"@) {
        None => true,
        Some(Json::Null) => true,
        Some(v) => match json::u64_of(Some(v)) {
            None => true,
            Some(n) => n == 0 || n > 65536,
        },
    }
}

/// Whether a value is the number 4096.
pub open spec fn is_4096(v: Json) -> bool {
    v matches Json::Number(n) && n.as_u64 == Some(4096u64) && n.as_i64 == Some(4096i64) && n.text@ == "4096"@
}

/// Whether `out` is the body with `max_tokens` set to 4096 (objects) or the
/// body re-written as it is (other values).
pub open spec fn with_default_max_tokens(j: Json, out: Seq<u8>) -> bool {
    match j {
        Json::Object(es) => exists|j2: Json, k: String, v: Json| k@ == "max_tokens"@ && is_4096(v)
            && (j2 matches Json::Object(m) && m@ == #[trigger] json::set_in(es@, k@, k, v)) && out == #[trigger] json::print_bytes(j2),
        _ => out == json::print_bytes(j),
    }
}

/// Whether the upstream path is a completion endpoint.
pub open spec fn completion_path(p: Seq<char>) -> bool {
    contains_seq(p, "/chat/completions"@) || contains_seq(p, "/v1/messages"@) || contains_seq(p, "/completions"@)
}

fn has_text(s: &Vec<char>, p: &str) -> (r: bool)
    ensures
        r == contains_seq(s@, p@),
{
    let pv = str_chars(p);
    match crate::text::find(s, &pv) {
        Some(i) => {
            proof {
                assert(crate::text::occurs_at(s@, pv@, i as int));
            }
            true
        },
        None => false,
    }
}

fn body_model(j: &Json) -> (r: Option<String>)
    ensures
        crate::diagnostics::chars_of(r) == model_of(*j),
{
    match json::as_str(json::get_member(j, "model")) {
        Some(m) => Some(m.clone()),
        None => None,
    }
}

fn copy_bytes(b: &[u8]) -> (r: Vec<u8>)
    ensures
        r@ == b@,
{
    let mut out: Vec<u8> = Vec::new();
    let mut i: usize = 0;
    while i < b.len()
        invariant
            i <= b.len(),
            out@ == b@.take(i as int),
        decreases b.len() - i,
    {
        out.push(b[i]);
        i += 1;
        assert(out@ =~= b@.take(i as int));
    }
    assert(b@.take(i as int) =~= b@);
    out
}

/// Reads the model of a request body and, for completion endpoints, gives
/// the body a default `max_tokens` of 4096 when it has no usable one.
pub fn parse_and_prepare_body(body_bytes: &[u8], target_path: &str) -> (r: (Option<String>, Vec<u8>))
    ensures
        !completion_path(target_path@) ==> crate::diagnostics::chars_of(r.0) == (match json::parse_bytes_text(body_bytes@) {
                Some(j) => model_of(j), None => None }) && r.1@ == body_bytes@,
        completion_path(target_path@) ==> match json::parse_bytes_text(body_bytes@) {
            None => r.0 is None && r.1@ == body_bytes@,
            Some(j) => crate::diagnostics::chars_of(r.0) == model_of(j) && if needs_max_tokens_fix(j) {
                with_default_max_tokens(j, r.1@)
            } else {
                r.1@ == body_bytes@
            },
        },
{
    let tp = str_chars(target_path);
    let needs = has_text(&tp, "/chat/completions") || has_text(&tp, "/v1/messages") || has_text(&tp, "/completions");
    if !needs {
        let model = match json::parse_slice(body_bytes) {
            Some(j) => body_model(&j),
            None => None,
        };
        return (model, copy_bytes(body_bytes));
    }
    match json::parse_slice(body_bytes) {
        Some(j) => {
            let model = body_model(&j);
            let fix = match json::get_member(&j, "max_tokens") {
                None => true,
                Some(Json::Null) => true,
                Some(v) => match json::as_u64(Some(v)) {
                    None => true,
                    Some(n) => n == 0 || n > 65536,
                },
            };
            if fix {
                let mut j2 = j;
                let ghost before = j2;
                let key = owned("max_tokens");
                let ghost k = key;
                let num = Json::Number(json::JsonNumber { as_u64: Some(4096), as_i64: Some(4096), text: owned("4096") });
                let ghost v = num;
                json::set_member(&mut j2, key, num);
                let out = json::to_bytes(&j2);
                proof {
                    match before {
                        Json::Object(es) => {
                            assert(is_4096(v));
                            assert(with_default_max_tokens(before, out@));
                        },
                        _ => {},
                    }
                }
                (model, out)
            } else {
                (model, copy_bytes(body_bytes))
            }
        },
        None => (None, copy_bytes(body_bytes)),
    }
}

// ---------------------------------------------------------------------------
// Routing a request
// ---------------------------------------------------------------------------

/// Where a request goes.
#[derive(Debug, Clone)]
pub enum Route {
    /// No platform is configured: 404 with this message.
    UnknownPlatform(String),
    /// `/v1/models`: answered with the configured models.
    Models,
    /// The target URL does not parse: 500 with this message.
    InvalidUrl(String),
    /// Forward upstream.
    Forward {
        base_url: String,
        platform_id: String,
        platform_prefix: String,
        auto_switch: bool,
        target_path: String,
        target_url: String,
        is_responses_api: bool,
    },
}

/// Why `url::Url::parse` refuses a text, if it does.
pub uninterp spec fn url_error(s: Seq<char>) -> Option<Seq<char>>;

/// Calls `url::Url::parse`; the error's text when it fails.
#[verifier::external_body]
fn url_parse_error(s: &str) -> (r: Option<String>)
    ensures
        crate::diagnostics::chars_of(r) == url_error(s@),
{
    url::Url::parse(s).err().map(|e| e.to_string())
}

/// The platform prefix and the rest of a request path (leading slashes dropped).
pub open spec fn split_route(path: Seq<char>) -> (Seq<char>, Seq<char>) {
    let p = strip_leading(path, '/');
    match first_where(p, |c: char| c == '/') {
        Some(k) => (p.take(k), p.skip(k)),
        None => (p, Seq::empty()),
    }
}

/// Whether a path is a Responses API call.
pub open spec fn responses_path(t: Seq<char>) -> bool {
    t == "/v1/responses"@ || has_prefix(t, "/v1/responses/"@)
}

/// The Chat Completions path of a Responses API path.
pub open spec fn mapped_path(t: Seq<char>) -> Seq<char> {
    if responses_path(t) { "/v1/chat/completions"@ + t.skip(13) } else { t }
}

/// The route of a request (see [`Route`]): the first path segment selects a
/// platform by prefix (else the first platform, with the whole path); a
/// Responses API path is mapped to Chat Completions; `/v1/models` is answered
/// locally; the upstream URL honours overrides and keeps the query.
pub open spec fn route_of(config: AppConfig, path: Seq<char>, query: Option<Seq<char>>) -> Option<(Seq<char>, Seq<char>, Seq<char>, bool, Seq<char>, bool)> {
    let (prefix, rest) = split_route(path);
    match first_where(config.platforms@, prefix_is_spec(prefix)) {
        Some(i) => Some((config.platforms@[i].base_url@, config.platforms@[i].id@, prefix, config.auto_switch,
            mapped_path(rest), responses_path(rest))),
        None => if config.platforms@.len() > 0 {
            let full = seq!['/'] + strip_leading(path, '/');
            Some((config.platforms@[0].base_url@, config.platforms@[0].id@, prefix, config.auto_switch,
                mapped_path(full), responses_path(full)))
        } else {
            None
        },
    }
}

/// The upstream URL of a routed request.
pub open spec fn target_url_of(config: AppConfig, platform_id: Seq<char>, base_url: Seq<char>, target: Seq<char>, query: Option<Seq<char>>) -> Seq<char> {
    let u = joined_url(resolved_base_url(config.platforms@, platform_id, target, base_url), target);
    match query {
        Some(q) => if q.len() > 0 { u + seq!['?'] + q } else { u },
        None => u,
    }
}

fn map_responses_path(t: &Vec<char>) -> (r: (Vec<char>, bool))
    ensures
        r.0@ == mapped_path(t@),
        r.1 == responses_path(t@),
{
    let base = str_chars("/v1/responses");
    let with_slash = str_chars("/v1/responses/");
    proof {
        reveal_strlit("/v1/responses");
        reveal_strlit("/v1/responses/");
    }
    let exact = t.len() == base.len() && starts_with(t, &base);
    proof {
        if exact {
            assert(t@ =~= base@);
        }
        if t@ == base@ {
            assert(t@.subrange(0, base@.len() as int) =~= base@);
        }
    }
    let is_resp = exact || starts_with(t, &with_slash);
    if is_resp {
        let mut out = str_chars("/v1/chat/completions");
        let rest = slice_chars(t, 13, t.len());
        push_all(&mut out, &rest);
        proof {
            assert(rest@ =~= t@.skip(13));
        }
        (out, true)
    } else {
        (t.clone(), false)
    }
}

/// Routes a request path (see [`route_of`], [`target_url_of`]).
pub fn route_request(config: &AppConfig, path: &str, query: Option<&str>) -> (r: Route)
    ensures
        match route_of(*config, path@, match query { Some(q) => Some(q@), None => None }) {
            None => r matches Route::UnknownPlatform(m) && m@ == "Unknown platform: "@ + split_route(path@).0 + ". Check your proxy path prefix."@,
            Some((base, pid, prefix, auto, target, is_resp)) =>
                if target == "/v1/models"@ || target == "/v1/models/"@ {
                    r is Models
                } else {
                    let url = target_url_of(*config, pid, base, target, match query { Some(q) => Some(q@), None => None });
                    match url_error(url) {
                        Some(e) => r matches Route::InvalidUrl(m) && m@ == "Invalid target URL: "@ + e,
                        None => r matches Route::Forward { base_url, platform_id, platform_prefix, auto_switch, target_path, target_url, is_responses_api }
                            && base_url@ == base && platform_id@ == pid && platform_prefix@ == prefix && auto_switch == auto
                            && target_path@ == target && target_url@ == url && is_responses_api == is_resp,
                    }
                },
        },
{
    let p = trim_start_char(&str_chars(path), '/');
    proof {
        lemma_first_char(p@, '/');
    }
    let (prefix, rest) = match crate::text::index_of_char(&p, '/') {
        Some(k) => (slice_chars(&p, 0, k), slice_chars(&p, k, p.len())),
        None => (p.clone(), Vec::new()),
    };
    proof {
        assert(prefix@ =~= split_route(path@).0);
        assert(rest@ =~= split_route(path@).1);
    }
    let prefix_s = string_from_chars(&prefix);
    let (base_url, platform_id, auto_switch, raw_target) = match get_platform_info(config, prefix_s.as_str()) {
        Some((b, id, a)) => (b, id, a, rest),
        None => match get_first_platform(config) {
            Some((b, id, a)) => {
                let mut full: Vec<char> = Vec::new();
                full.push('/');
                push_all(&mut full, &p);
                proof {
                    assert(full@ =~= seq!['/'] + strip_leading(path@, '/'));
                }
                (b, id, a, full)
            },
            None => {
                let mut m: Vec<char> = Vec::new();
                push_str(&mut m, "Unknown platform: ");
                push_all(&mut m, &prefix);
                push_str(&mut m, ". Check your proxy path prefix.");
                return Route::UnknownPlatform(string_from_chars(&m));
            },
        },
    };
    let (target, is_responses_api) = map_responses_path(&raw_target);
    if chars_is(&target, "/v1/models") || chars_is(&target, "/v1/models/") {
        return Route::Models;
    }
    let target_s = string_from_chars(&target);
    let effective = resolve_base_url(config, platform_id.as_str(), target_s.as_str(), base_url.as_str());
    let joined = deduplicate_url_path(effective.as_str(), target_s.as_str());
    let mut url = str_chars(joined.as_str());
    match query {
        Some(q) => {
            if !q.is_empty() {
                let ghost before = url@;
                url.push('?');
                push_str(&mut url, q);
                proof {
                    assert(url@ =~= before + seq!['?'] + q@);
                }
            }
        },
        None => {},
    }
    proof {
        assert(url@ == target_url_of(*config, platform_id@, base_url@, target@, match query { Some(q) => Some(q@), None => None }));
    }
    let url_s = string_from_chars(&url);
    match url_parse_error(url_s.as_str()) {
        Some(e) => {
            let mut m: Vec<char> = Vec::new();
            push_str(&mut m, "Invalid target URL: ");
            push_str(&mut m, e.as_str());
            Route::InvalidUrl(string_from_chars(&m))
        },
        None => Route::Forward {
            base_url,
            platform_id,
            platform_prefix: prefix_s,
            auto_switch,
            target_path: target_s,
            target_url: url_s,
            is_responses_api,
        },
    }
}

fn chars_is(t: &Vec<char>, lit: &str) -> (r: bool)
    ensures
        r == (t@ == lit@),
{
    let l = str_chars(lit);
    if t.len() != l.len() {
        return false;
    }
    let r = starts_with(t, &l);
    proof {
        if r {
            assert(t@ =~= t@.subrange(0, l@.len() as int));
        } else if t@ == l@ {
            assert(t@.subrange(0, l@.len() as int) =~= l@);
        }
    }
    r
}

/// What to do with a request body before forwarding it.
#[derive(Debug, Clone)]
pub enum BodyAction {
    /// Forward as it is (empty or valid JSON).
    Keep,
    /// Forward this JSON instead (recovered from an HTTP request text).
    Replace(String),
    /// A header-only HTTP text probe: answer 200 with an empty body.
    Probe,
    /// Refuse with 400 and this message.
    Reject(String),
}

/// The text that `String::from_utf8_lossy` makes of bytes.
pub uninterp spec fn lossy_text(bytes: Seq<u8>) -> Seq<char>;

/// Calls `String::from_utf8_lossy` (invalid sequences become U+FFFD).
#[verifier::external_body]
pub(crate) fn lossy(bytes: &[u8]) -> (r: String)
    ensures
        r@ == lossy_text(bytes@),
{
    String::from_utf8_lossy(bytes).into_owned()
}

/// The action for a request body (see [`BodyAction`]).
pub open spec fn body_action(body: Seq<u8>) -> (u8, Seq<char>) {
    if body.len() == 0 || json::parse_bytes_text(body) is Some {
        (0u8, Seq::empty())
    } else if embedded_json(body) is Some {
        (1u8, embedded_json(body).unwrap())
    } else if match utf8_text(body) { Some(t) => starts_with_method(t), None => false } {
        (2u8, Seq::empty())
    } else {
        let l = lossy_text(body);
        (3u8, "Request body must be valid JSON. Received unparseable payload (first 200 chars): "@ + if l.len() <= 200 { l } else { l.take(200) })
    }
}

/// Decides what to do with a request body (see [`body_action`]).
pub fn classify_body(body: &[u8]) -> (r: BodyAction)
    ensures
        match body_action(body@) {
            (0u8, _) => r is Keep,
            (1u8, j) => r matches BodyAction::Replace(s) && s@ == j,
            (2u8, _) => r is Probe,
            (_, m) => r matches BodyAction::Reject(s) && s@ == m,
        },
{
    if body.len() == 0 || json::parse_slice(body).is_some() {
        return BodyAction::Keep;
    }
    match extract_json_from_http_text(body) {
        Some(inner) => return BodyAction::Replace(inner),
        None => {},
    }
    if looks_like_http_request_text(body) {
        return BodyAction::Probe;
    }
    let l = str_chars(lossy(body).as_str());
    let n: usize = if l.len() <= 200 { l.len() } else { 200 };
    let pv = slice_chars(&l, 0, n);
    proof {
        if l@.len() <= 200 { assert(pv@ =~= l@); } else { assert(pv@ =~= l@.take(200)); }
    }
    let mut m: Vec<char> = Vec::new();
    push_str(&mut m, "Request body must be valid JSON. Received unparseable payload (first 200 chars): ");
    push_all(&mut m, &pv);
    BodyAction::Reject(string_from_chars(&m))
}

/// The default model of the first platform with the given id.
pub open spec fn default_model_of(ps: Seq<Platform>, platform_id: Seq<char>) -> Option<Seq<char>> {
    match first_where(ps, platform_id_is(platform_id)) {
        Some(i) => crate::diagnostics::chars_of(ps[i].default_model),
        None => None,
    }
}

/// Whether the platform lists a model with the given name.
pub open spec fn model_configured(models: Seq<Model>, platform_id: Seq<char>, name: Seq<char>) -> bool {
    let listed = sort_by_order(keep(models, model_of_platform(platform_id)));
    exists|i: int| 0 <= i < listed.len() && (#[trigger] listed[i]).model_name@ == name
}

/// Whether `out` is the body with `model` set to `model` (objects) or the
/// body re-written as it is (other values).
pub open spec fn with_model(j: Json, model: Seq<char>, out: Seq<u8>) -> bool {
    match j {
        Json::Object(es) => exists|j2: Json, k: String, v: Json| k@ == "model"@ && (v matches Json::Str(t) && t@ == model)
            && (j2 matches Json::Object(m) && m@ == #[trigger] json::set_in(es@, k@, k, v)) && out == #[trigger] json::print_bytes(j2),
        _ => out == json::print_bytes(j),
    }
}

/// Rewrites the model of a Responses API request to the platform's default
/// model when the platform does not list the requested model.
pub fn apply_default_model_override(
    body_bytes: &[u8],
    config: &AppConfig,
    models: &ModelStore,
    platform_id: &str,
    model_name: Option<&str>,
    is_responses_api: bool,
) -> (r: (Option<String>, Vec<u8>))
    ensures
        match model_name {
            None => r.0 is None && r.1@ == body_bytes@,
            Some(req) => {
                let d = default_model_of(config.platforms@, platform_id@);
                if !is_responses_api || d is None || model_configured(models.models@, platform_id@, req@) || d == Some(req@) {
                    crate::diagnostics::chars_of(r.0) == Some(req@) && r.1@ == body_bytes@
                } else {
                    match json::parse_bytes_text(body_bytes@) {
                        Some(j) => crate::diagnostics::chars_of(r.0) == d && with_model(j, d.unwrap(), r.1@),
                        None => crate::diagnostics::chars_of(r.0) == Some(req@) && r.1@ == body_bytes@,
                    }
                }
            },
        },
{
    let requested = match model_name {
        Some(m) => m,
        None => return (None, copy_bytes(body_bytes)),
    };
    if !is_responses_api {
        return (Some(owned(requested)), copy_bytes(body_bytes));
    }
    let pid = owned(platform_id);
    let default_model: Option<String> = match crate::codex_integration::find_platform_index(&config.platforms, &pid) {
        Some(i) => crate::text::copy_opt_string(&config.platforms[i].default_model),
        None => None,
    };
    let d = match default_model {
        Some(d) => d,
        None => return (Some(owned(requested)), copy_bytes(body_bytes)),
    };
    let listed = match model_manager::list_models(models, platform_id) {
        Ok(v) => v,
        Err(_) => Vec::new(),
    };
    let req = owned(requested);
    let mut configured = false;
    let mut i: usize = 0;
    while i < listed.len()
        invariant
            i <= listed.len(),
            listed@ == sort_by_order(keep(models.models@, model_of_platform(platform_id@))),
            req@ == requested@,
            configured == exists|k: int| 0 <= k < i && (#[trigger] listed@[k]).model_name@ == requested@,
        decreases listed.len() - i,
    {
        if listed[i].model_name == req {
            configured = true;
        }
        i += 1;
    }
    if configured || req == d {
        return (Some(req), copy_bytes(body_bytes));
    }
    match json::parse_slice(body_bytes) {
        Some(j) => {
            let mut j2 = j;
            let ghost before = j2;
            let key = owned("model");
            let ghost k = key;
            let v = Json::Str(d.clone());
            let ghost vv = v;
            json::set_member(&mut j2, key, v);
            let out = json::to_bytes(&j2);
            proof {
                match before {
                    Json::Object(es) => {
                        assert(with_model(before, d@, out@));
                    },
                    _ => {},
                }
            }
            (Some(d), out)
        },
        None => (Some(req), copy_bytes(body_bytes)),
    }
}

// ---------------------------------------------------------------------------
// Forwarding with key rotation
// ---------------------------------------------------------------------------

/// Attempts per request: 5 when keys rotate automatically, else 1.
pub fn max_retries(auto_switch: bool) -> (r: u32)
    ensures
        r == if auto_switch { 5u32 } else { 1u32 },
{
    if auto_switch { 5 } else { 1 }
}

/// Seconds to wait before retrying after attempt `attempt`: 2^(attempt+1), at most 32.
pub open spec fn backoff_of(attempt: nat) -> u64 {
    if attempt >= 4 { 32 } else { vstd::arithmetic::power2::pow2(attempt + 1) as u64 }
}

/// Seconds to wait before retrying (see [`backoff_of`]).
pub fn retry_backoff_secs(attempt: u32) -> (r: u64)
    ensures
        r == backoff_of(attempt as nat),
{
    proof {
        vstd::arithmetic::power2::lemma2_to64();
    }
    if attempt >= 4 {
        32
    } else if attempt == 0 {
        2
    } else if attempt == 1 {
        4
    } else if attempt == 2 {
        8
    } else {
        16
    }
}

/// The key an attempt uses.
#[derive(Debug, Clone)]
pub enum KeyChoice {
    /// No key is left: the request fails.
    NoKeys,
    /// The chosen key disappeared; the attempt is skipped.
    Missing(String),
    /// Use this key.
    Use { index: usize, key_id: String, api_key: String },
}

/// The secret of a key id: the last entry with that id.
pub open spec fn secret_of(kv: Seq<(String, String)>, id: Seq<char>) -> Option<Seq<char>>
    decreases kv.len(),
{
    if kv.len() == 0 {
        None
    } else if kv.last().0@ == id {
        Some(kv.last().1@)
    } else {
        secret_of(kv.drop_last(), id)
    }
}

/// Chooses the key for attempt `attempt`: the keys to try are cycled through.
pub fn choose_key(attempt: u32, keys_to_try: &Vec<String>, key_values: &Vec<(String, String)>) -> (r: KeyChoice)
    ensures
        keys_to_try@.len() == 0 ==> r is NoKeys,
        keys_to_try@.len() > 0 ==> {
            let idx = (attempt as int) % (keys_to_try@.len() as int);
            let id = keys_to_try@[idx]@;
            match secret_of(key_values@, id) {
                None => r matches KeyChoice::Missing(k) && k@ == id,
                Some(v) => r matches KeyChoice::Use { index, key_id, api_key } && index == idx && key_id@ == id && api_key@ == v,
            }
        },
{
    if keys_to_try.len() == 0 {
        return KeyChoice::NoKeys;
    }
    let idx = (attempt as usize) % keys_to_try.len();
    let key_id = keys_to_try[idx].clone();
    let mut i: usize = key_values.len();
    assert(key_values@.take(i as int) =~= key_values@);
    while i > 0
        invariant
            i <= key_values.len(),
            keys_to_try@.len() > 0,
            idx as int == (attempt as int) % (keys_to_try@.len() as int),
            key_id@ == keys_to_try@[idx as int]@,
            secret_of(key_values@, key_id@) == secret_of(key_values@.take(i as int), key_id@),
        decreases i,
    {
        assert(key_values@.take(i as int).drop_last() =~= key_values@.take(i - 1));
        assert(key_values@.take(i as int).last() == key_values@[i - 1]);
        if key_values[i - 1].0 == key_id {
            return KeyChoice::Use { index: idx, key_id, api_key: key_values[i - 1].1.clone() };
        }
        i -= 1;
    }
    KeyChoice::Missing(key_id)
}

/// What an attempt came to.
#[derive(Debug, Clone)]
pub enum Outcome {
    /// The request could not be sent (the error's text).
    SendFailed(String),
    /// The upstream answered with this status.
    Status(u16),
}

/// What to do after an attempt.
#[derive(Debug, Clone, Copy, PartialEq, Eq, Structural)]
pub enum NextStep {
    /// Go on with the next attempt.
    Next,
    /// Wait this many seconds, then go on with the next attempt.
    Wait(u64),
    /// Stop: every attempt failed.
    GiveUp,
    /// Pass the upstream response on.
    Respond,
}

/// The decision after an attempt.
#[derive(Debug, Clone)]
pub struct AttemptDecision {
    pub step: NextStep,
    /// The error to report if no later attempt succeeds.
    pub last_error: Option<String>,
    /// Count a 429 against the key.
    pub record_429: bool,
    /// Count the call in the key's quota windows.
    pub record_call: bool,
    /// Tell the dashboard that the proxy moves on to another key.
    pub switched: Option<crate::log_bridge::KeySwitchedPayload>,
}

/// The text of an HTTP status, as `reqwest::StatusCode` displays it.
pub uninterp spec fn status_text(code: u16) -> Seq<char>;

/// Formats `reqwest::StatusCode::from_u16(code)` with `to_string` (the code
/// and its reason phrase).
#[verifier::external_body]
pub(crate) fn status_display(code: u16) -> (r: String)
    requires
        100 <= code <= 999,
    ensures
        r@ == status_text(code),
{
    match reqwest::StatusCode::from_u16(code) {
        Ok(s) => s.to_string(),
        Err(_) => code.to_string(),
    }
}

/// The body answered (with status 502) when an upstream Chat Completions
/// answer cannot be translated for a Responses API client.
pub open spec fn translation_failed(response_id: Seq<char>, created_at: i64, model: Seq<char>) -> json::JsonV {
    json::JsonV::Object(seq![
        ("id"@, json::JsonV::Str(response_id)),
        ("object"@, json::JsonV::Str("response"@)),
        ("created_at"@, json::i64_number(created_at)),
        ("model"@, json::JsonV::Str(model)),
        ("status"@, json::JsonV::Str("failed"@)),
        ("error"@, json::JsonV::Object(seq![
            ("code"@, json::JsonV::Str("response_translation_failed"@)),
            ("message"@, json::JsonV::Str("Upstream returned an unparseable response. The provider may use an incompatible format."@)),
        ])),
        ("output"@, json::JsonV::Array(Seq::empty())),
    ])
}

fn member(k: &str, v: Json) -> (r: (String, Json))
    ensures
        r.0@ == k@,
        r.1 == v,
{
    (owned(k), v)
}

/// The failed-translation body for the given id, time and model (see [`translation_failed`]).
pub fn translation_failed_json(response_id: &str, created_at: i64, model: &str) -> (r: Json)
    ensures
        json::jv(r) == translation_failed(response_id@, created_at, model@),
{
    let mut err: Vec<(String, Json)> = Vec::new();
    err.push(member("code", Json::Str(owned("response_translation_failed"))));
    err.push(member("message", Json::Str(owned("Upstream returned an unparseable response. The provider may use an incompatible format."))));
    let mut es: Vec<(String, Json)> = Vec::new();
    es.push(member("id", Json::Str(owned(response_id))));
    es.push(member("object", Json::Str(owned("response"))));
    es.push(member("created_at", json::i64_json(created_at)));
    es.push(member("model", Json::Str(owned(model))));
    es.push(member("status", Json::Str(owned("failed"))));
    es.push(member("error", Json::Object(err)));
    let out: Vec<Json> = Vec::new();
    es.push(member("output", Json::Array(out)));
    proof {
        json::lemma_jv_members(err@);
        json::lemma_jv_members(es@);
        assert(json::jv_seq(Seq::<Json>::empty()) =~= Seq::<json::JsonV>::empty());
        assert(json::jv_members(err@) =~= seq![
            ("code"@, json::JsonV::Str("response_translation_failed"@)),
            ("message"@, json::JsonV::Str("Upstream returned an unparseable response. The provider may use an incompatible format."@)),
        ]);
        let target = translation_failed(response_id@, created_at, model@);
        assert(json::jv_members(es@) =~= target->Object_0);
    }
    Json::Object(es)
}

/// The failed-translation body for `model`, with a fresh `resp_…` id and the
/// current time.
pub fn translation_failed_body(model: &str) -> (r: Json)
    ensures
        exists|id: Seq<char>, t: i64| has_prefix(id, "resp_"@) && clock_range(t as int)
            && json::jv(r) == translation_failed(id, t, model@),
{
    let id = crate::codex_stream::fresh_id("resp_");
    let now = clock::now_unix_seconds();
    let r = translation_failed_json(id.as_str(), now, model);
    assert(has_prefix(id@, "resp_"@) && clock_range(now as int) && json::jv(r) == translation_failed(id@, now, model@));
    r
}

/// Decides what follows an attempt with key `index` of `keys_to_try`.
pub fn after_attempt(
    attempt: u32,
    max_retries: u32,
    keys_to_try: &Vec<String>,
    index: usize,
    outcome: Outcome,
    platform_id: &str,
    platform_name: &str,
    model_identifier: &str,
) -> (r: AttemptDecision)
    requires
        attempt < max_retries <= 5,
        index < keys_to_try@.len(),
        outcome matches Outcome::Status(c) ==> 100 <= c <= 999,
    ensures
        match outcome {
            Outcome::SendFailed(e) => {
                &&& crate::diagnostics::chars_of(r.last_error) == Some("Request failed: "@ + e@)
                &&& r.step == if attempt + 1 < max_retries { NextStep::Next } else { NextStep::GiveUp }
                &&& !r.record_429 && !r.record_call && r.switched is None
            },
            Outcome::Status(c) => if c == 429 {
                &&& crate::diagnostics::chars_of(r.last_error) == Some("Rate limited (429)"@)
                &&& r.step == NextStep::Wait(backoff_of(attempt as nat))
                &&& r.record_429 && !r.record_call && r.switched is None
            } else if 500 <= c <= 599 {
                let more = attempt + 1 < max_retries;
                let multiple = keys_to_try@.len() > 1;
                &&& crate::diagnostics::chars_of(r.last_error) == Some("HTTP "@ + status_text(c) + " from upstream"@)
                &&& r.step == if more && multiple { NextStep::Next } else if more { NextStep::Wait(backoff_of(attempt as nat)) } else { NextStep::GiveUp }
                &&& !r.record_429 && !r.record_call
                &&& if more && multiple {
                        r.switched matches Some(p) && p.platform_id@ == platform_id@ && p.platform_name@ == platform_name@
                            && p.model_name@ == model_identifier@ && p.disabled_key_id == keys_to_try@[index as int]
                            && p.next_key_id == keys_to_try@[((index + 1) as int) % (keys_to_try@.len() as int)]
                            && p.reason@ == "Server error "@ + crate::text::decimal(c as nat) + " - switching key"@
                            && p.disabled_until == 0
                    } else {
                        r.switched is None
                    }
            } else {
                &&& r.step == NextStep::Respond
                &&& r.last_error is None
                &&& !r.record_429 && r.switched is None
                &&& r.record_call == (200 <= c <= 299)
            },
        },
{
    match outcome {
        Outcome::SendFailed(e) => {
            let mut m: Vec<char> = Vec::new();
            push_str(&mut m, "Request failed: ");
            push_str(&mut m, e.as_str());
            AttemptDecision {
                step: if attempt + 1 < max_retries { NextStep::Next } else { NextStep::GiveUp },
                last_error: Some(string_from_chars(&m)),
                record_429: false,
                record_call: false,
                switched: None,
            }
        },
        Outcome::Status(c) => {
            if c == 429 {
                AttemptDecision {
                    step: NextStep::Wait(retry_backoff_secs(attempt)),
                    last_error: Some(owned("Rate limited (429)")),
                    record_429: true,
                    record_call: false,
                    switched: None,
                }
            } else if 500 <= c && c <= 599 {
                let more = attempt + 1 < max_retries;
                let multiple = keys_to_try.len() > 1;
                let mut m: Vec<char> = Vec::new();
                push_str(&mut m, "HTTP ");
                let st = status_display(c);
                push_str(&mut m, st.as_str());
                push_str(&mut m, " from upstream");
                let switched = if more && multiple {
                    let next = keys_to_try[(index + 1) % keys_to_try.len()].clone();
                    let mut reason: Vec<char> = Vec::new();
                    push_str(&mut reason, "Server error ");
                    push_decimal(&mut reason, c as u64);
                    push_str(&mut reason, " - switching key");
                    Some(crate::log_bridge::KeySwitchedPayload {
                        platform_id: owned(platform_id),
                        platform_name: owned(platform_name),
                        model_name: owned(model_identifier),
                        disabled_key_id: keys_to_try[index].clone(),
                        next_key_id: next,
                        reason: string_from_chars(&reason),
                        disabled_until: 0,
                    })
                } else {
                    None
                };
                let step = if more && multiple {
                    NextStep::Next
                } else if more {
                    NextStep::Wait(retry_backoff_secs(attempt))
                } else {
                    NextStep::GiveUp
                };
                AttemptDecision { step, last_error: Some(string_from_chars(&m)), record_429: false, record_call: false, switched }
            } else {
                AttemptDecision {
                    step: NextStep::Respond,
                    last_error: None,
                    record_429: false,
                    record_call: 200 <= c && c <= 299,
                    switched: None,
                }
            }
        },
    }
}

/// The error when every attempt failed.
pub fn exhausted_error(platform_prefix: &str, last_error: &str) -> (r: String)
    ensures
        r@ == "All keys exhausted for platform '"@ + platform_prefix@ + "': "@ + last_error@,
{
    let mut m: Vec<char> = Vec::new();
    push_str(&mut m, "All keys exhausted for platform '");
    push_str(&mut m, platform_prefix);
    push_str(&mut m, "': ");
    push_str(&mut m, last_error);
    string_from_chars(&m)
}

/// The error when no key is available.
pub fn no_keys_error() -> (r: String)
    ensures
        r@ == "No active API keys available for this platform"@,
{
    owned("No active API keys available for this platform")
}

/// The error when a chosen key vanished.
pub fn missing_key_error(key_id: &str) -> (r: String)
    ensures
        r@ == "Key not found: "@ + key_id@,
{
    let mut m: Vec<char> = Vec::new();
    push_str(&mut m, "Key not found: ");
    push_str(&mut m, key_id);
    string_from_chars(&m)
}

/// The `Authorization` header value for a key.
pub fn bearer(api_key: &str) -> (r: String)
    ensures
        r@ == "Bearer "@ + api_key@,
{
    let mut m: Vec<char> = Vec::new();
    push_str(&mut m, "Bearer ");
    push_str(&mut m, api_key);
    string_from_chars(&m)
}

/// Whether a header is forwarded upstream (the proxy sets host, credentials,
/// length and content type itself).
pub open spec fn forwarded_header(name: Seq<char>) -> bool {
    let n = crate::i18n::lowercase(name);
    n != "host"@ && n != "authorization"@ && n != "content-length"@ && n != "content-type"@
}

/// Whether an upstream response header is passed on (length and transfer
/// encoding change when the body is translated).
pub open spec fn kept_response_header(name: Seq<char>) -> bool {
    let n = crate::i18n::lowercase(name);
    n != "transfer-encoding"@ && n != "content-length"@
}

fn lower_is(name: &String, lit: &str) -> (r: bool)
    ensures
        r == (crate::i18n::lowercase(name@) == lit@),
{
    crate::i18n::to_lower(name.as_str()) == owned(lit)
}

/// The request headers forwarded upstream, in order.
pub fn forwarded_headers(headers: &Vec<(String, String)>) -> (r: Vec<(String, String)>)
    ensures
        r@ == keep(headers@, |h: (String, String)| forwarded_header(h.0@)),
{
    let ghost f = |h: (String, String)| forwarded_header(h.0@);
    let mut out: Vec<(String, String)> = Vec::new();
    let mut i: usize = 0;
    while i < headers.len()
        invariant
            i <= headers.len(),
            f == (|h: (String, String)| forwarded_header(h.0@)),
            out@ == keep(headers@.take(i as int), f),
        decreases headers.len() - i,
    {
        proof {
            assert(headers@.take(i + 1).drop_last() =~= headers@.take(i as int));
            assert(headers@.take(i + 1).last() == headers@[i as int]);
        }
        let n = &headers[i].0;
        if !lower_is(n, "host") && !lower_is(n, "authorization") && !lower_is(n, "content-length") && !lower_is(n, "content-type") {
            out.push((headers[i].0.clone(), headers[i].1.clone()));
        }
        i += 1;
    }
    proof {
        assert(headers@.take(i as int) =~= headers@);
    }
    out
}

/// The upstream response headers passed on, in order.
pub fn kept_response_headers(headers: &Vec<(String, String)>) -> (r: Vec<(String, String)>)
    ensures
        r@ == keep(headers@, |h: (String, String)| kept_response_header(h.0@)),
{
    let ghost f = |h: (String, String)| kept_response_header(h.0@);
    let mut out: Vec<(String, String)> = Vec::new();
    let mut i: usize = 0;
    while i < headers.len()
        invariant
            i <= headers.len(),
            f == (|h: (String, String)| kept_response_header(h.0@)),
            out@ == keep(headers@.take(i as int), f),
        decreases headers.len() - i,
    {
        proof {
            assert(headers@.take(i + 1).drop_last() =~= headers@.take(i as int));
            assert(headers@.take(i + 1).last() == headers@[i as int]);
        }
        let n = &headers[i].0;
        if !lower_is(n, "transfer-encoding") && !lower_is(n, "content-length") {
            out.push((headers[i].0.clone(), headers[i].1.clone()));
        }
        i += 1;
    }
    proof {
        assert(headers@.take(i as int) =~= headers@);
    }
    out
}

/// Whether a response is an event stream: some `content-type` header
/// contains `text/event-stream` (case ignored).
pub open spec fn event_stream(headers: Seq<(String, String)>) -> bool {
    exists|i: int| 0 <= i < headers.len() && crate::i18n::lowercase((#[trigger] headers[i]).0@) == "content-type"@
        && contains_seq(crate::i18n::lowercase(headers[i].1@), "text/event-stream"@)
}

/// Whether a response is an event stream (see [`event_stream`]).
pub fn is_streaming_response(headers: &Vec<(String, String)>) -> (r: bool)
    ensures
        r == event_stream(headers@),
{
    let mut i: usize = 0;
    while i < headers.len()
        invariant
            i <= headers.len(),
            forall|k: int| 0 <= k < i ==> !(crate::i18n::lowercase((#[trigger] headers@[k]).0@) == "content-type"@
                && contains_seq(crate::i18n::lowercase(headers@[k].1@), "text/event-stream"@)),
        decreases headers.len() - i,
    {
        if lower_is(&headers[i].0, "content-type") {
            let v = str_chars(crate::i18n::to_lower(headers[i].1.as_str()).as_str());
            if has_text(&v, "text/event-stream") {
                return true;
            }
        }
        i += 1;
    }
    false
}

/// The token usage a response body reports: `usage.prompt_tokens` and
/// `usage.completion_tokens` (0 when missing), when it has a `usage` member.
pub open spec fn usage_of(body: Seq<u8>) -> Option<(u64, u64)> {
    match json::parse_bytes_text(body) {
        Some(j) => match json::get(j, "usage"@) {
            Some(u) => Some((
                match json::u64_of(json::get(u, "prompt_tokens"@)) { Some(n) => n, None => 0 },
                match json::u64_of(json::get(u, "completion_tokens"@)) { Some(n) => n, None => 0 },
            )),
            None => None,
        },
        None => None,
    }
}

/// Reads the token usage of a response body (see [`usage_of`]).
pub fn response_usage(body: &[u8]) -> (r: Option<(u64, u64)>)
    ensures
        r == usage_of(body@),
{
    match json::parse_slice(body) {
        Some(j) => match json::get_member(&j, "usage") {
            Some(u) => {
                let p = match json::as_u64(json::get_member(u, "prompt_tokens")) { Some(n) => n, None => 0 };
                let c = match json::as_u64(json::get_member(u, "completion_tokens")) { Some(n) => n, None => 0 };
                Some((p, c))
            },
            None => None,
        },
        None => None,
    }
}

} // verus!
