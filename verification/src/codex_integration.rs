//! Codex CLI / Desktop integration: parameter checks, the settings written to
//! Codex's configuration, model catalog sizing, saved Codex profiles and
//! environment-variable conflicts.

use vstd::prelude::*;
use crate::clock;
use crate::codex_translator::utf8_len;
use crate::codex_toml::{custom_base_url, parse_toml, points_at_proxy, toml_parsed, tv_members, TomlValue};
use crate::json::{jv, jv_members, jv_seq, u64_json, u64_number, Json, JsonV};
use crate::model_manager::{model_of_platform, ModelStore};
use crate::models::{AppConfig, CodexProfile, Model, Platform};
use crate::sorting::sort_by_order;
use crate::sorting::{first_where, keep, lemma_first_where, lemma_first_where_props};
use crate::text::{contains_seq, decimal, find, owned, push_decimal, push_str, slice_chars, str_chars, string_from_chars};

verus! {

/// Codex installation and configuration state.
#[derive(Debug, Clone)]
pub struct CodexStatus {
    /// The Codex home directory exists.
    pub installed: bool,
    /// Path of `config.toml`, when it exists.
    pub config_path: Option<String>,
    /// A backup from an earlier apply exists.
    pub has_backup: bool,
    /// The first 500 characters of the configuration.
    pub current_config_preview: Option<String>,
    /// The configuration points at this proxy.
    pub is_antigravity_configured: bool,
}

/// The outcome of writing or restoring Codex's configuration.
#[derive(Debug, Clone)]
pub struct ApplyResult {
    pub success: bool,
    pub message: String,
    pub config_path: String,
    pub backup_path: Option<String>,
}

/// Environment variables that can interfere with Codex.
#[derive(Debug, Clone)]
pub struct EnvConflictResult {
    pub has_openai_api_key: bool,
    pub has_openai_base_url: bool,
    pub has_openai_org_id: bool,
    pub has_codex_home: bool,
    pub messages: Vec<String>,
}

/// Why proxy parameters are refused, if they are.
pub open spec fn params_error(host: Seq<char>, port: u16, prefix: Seq<char>, model: Seq<char>) -> Option<Seq<char>> {
    if host.len() == 0 {
        Some("Proxy host cannot be empty"@)
    } else if port == 0 {
        Some("Proxy port must be between 1 and 65535"@)
    } else if prefix.len() == 0 {
        Some("Path prefix cannot be empty"@)
    } else if prefix.contains('/') || prefix.contains('\\') || prefix.contains(' ') {
        Some("Path prefix must not contain slashes, backslashes, or spaces"@)
    } else if model.len() == 0 {
        Some("Model name cannot be empty"@)
    } else {
        None
    }
}

fn has_char(s: &Vec<char>, c: char) -> (r: bool)
    ensures
        r == s@.contains(c),
{
    match crate::text::index_of_char(s, c) {
        Some(i) => true,
        None => false,
    }
}

/// Checks the proxy parameters written into Codex's configuration.
pub fn validate_params(proxy_host: &str, proxy_port: u16, path_prefix: &str, model_name: &str) -> (r: Result<(), String>)
    ensures
        match params_error(proxy_host@, proxy_port, path_prefix@, model_name@) {
            Some(e) => r matches Err(m) && m@ == e,
            None => r is Ok,
        },
{
    if proxy_host.is_empty() {
        return Err(owned("Proxy host cannot be empty"));
    }
    if proxy_port == 0 {
        return Err(owned("Proxy port must be between 1 and 65535"));
    }
    if path_prefix.is_empty() {
        return Err(owned("Path prefix cannot be empty"));
    }
    let p = str_chars(path_prefix);
    if has_char(&p, '/') || has_char(&p, '\\') || has_char(&p, ' ') {
        return Err(owned("Path prefix must not contain slashes, backslashes, or spaces"));
    }
    if model_name.is_empty() {
        return Err(owned("Model name cannot be empty"));
    }
    Ok(())
}

/// The message for an unknown reasoning effort.
pub open spec fn effort_error(e: Seq<char>) -> Seq<char> {
    "Invalid model_reasoning_effort '"@ + e + "'. Must be one of: low, medium, high"@
}

fn text_is(s: &str, lit: &str) -> (r: bool)
    ensures
        r == (s@ == lit@),
{
    owned(s) == owned(lit)
}

/// Checks an optional reasoning effort: `low`, `medium` or `high`.
pub fn validate_reasoning_effort(effort: Option<&str>) -> (r: Result<(), String>)
    ensures
        match effort {
            Some(e) => if e@ == "low"@ || e@ == "medium"@ || e@ == "high"@ { r is Ok } else { r matches Err(m) && m@ == effort_error(e@) },
            None => r is Ok,
        },
{
    match effort {
        Some(e) => {
            if !text_is(e, "low") && !text_is(e, "medium") && !text_is(e, "high") {
                let mut v: Vec<char> = Vec::new();
                push_str(&mut v, "Invalid model_reasoning_effort '");
                push_str(&mut v, e);
                push_str(&mut v, "'. Must be one of: low, medium, high");
                return Err(string_from_chars(&v));
            }
            Ok(())
        },
        None => Ok(()),
    }
}

/// The token count at which Codex compacts the conversation, for a context window.
pub open spec fn auto_compact(w: u64) -> u64 {
    if w <= 128_000 {
        if w / 2 < 64_000 { w / 2 } else { 64_000 }
    } else if w <= 200_000 {
        100_000
    } else if w <= 1_048_576 {
        200_000
    } else if w / 4 < 500_000 {
        w / 4
    } else {
        500_000
    }
}

/// When Codex compacts: half of a standard window (at most 64K), 100K up to
/// 200K, 200K up to 1M, a quarter beyond (at most 500K).
pub fn calc_auto_compact(context_window: u64) -> (r: u64)
    ensures
        r == auto_compact(context_window),
{
    if context_window <= 128_000 {
        if context_window / 2 < 64_000 { context_window / 2 } else { 64_000 }
    } else if context_window <= 200_000 {
        100_000
    } else if context_window <= 1_048_576 {
        200_000
    } else if context_window / 4 < 500_000 {
        context_window / 4
    } else {
        500_000
    }
}

/// The effective share of the window (percent): 90 from 1M, 92 from 200K, else 95.
pub fn calc_effective_pct(context_window: u64) -> (r: u64)
    ensures
        r == if context_window >= 1_000_000 { 90u64 } else if context_window >= 200_000 { 92u64 } else { 95u64 },
{
    if context_window >= 1_000_000 {
        90
    } else if context_window >= 200_000 {
        92
    } else {
        95
    }
}

/// The truncation limit (tokens): 50K from 1M, 20K from 200K, else 10K.
pub fn calc_truncation_limit(context_window: u64) -> (r: u64)
    ensures
        r == if context_window >= 1_000_000 { 50_000u64 } else if context_window >= 200_000 { 20_000u64 } else { 10_000u64 },
{
    if context_window >= 1_000_000 {
        50_000
    } else if context_window >= 200_000 {
        20_000
    } else {
        10_000
    }
}

/// The window assumed for a model that does not state one.
pub const DEFAULT_CONTEXT_WINDOW: u64 = 128000;

/// The base URL Codex is pointed at: the proxy (`0.0.0.0` replaced by
/// `127.0.0.1`), the platform prefix and `/v1`.
pub open spec fn proxy_base_url_of(host: Seq<char>, port: u16, prefix: Seq<char>) -> Seq<char> {
    let h = if host == "0.0.0.0"@ { "127.0.0.1"@ } else { host };
    "http://"@ + h + seq![':'] + decimal(port as nat) + seq!['/'] + prefix + "/v1"@
}

/// The base URL Codex is pointed at (see [`proxy_base_url_of`]).
pub fn proxy_base_url(proxy_host: &str, proxy_port: u16, path_prefix: &str) -> (r: String)
    ensures
        r@ == proxy_base_url_of(proxy_host@, proxy_port, path_prefix@),
{
    let mut v: Vec<char> = Vec::new();
    push_str(&mut v, "http://");
    if text_is(proxy_host, "0.0.0.0") {
        push_str(&mut v, "127.0.0.1");
    } else {
        push_str(&mut v, proxy_host);
    }
    v.push(':');
    push_decimal(&mut v, proxy_port as u64);
    v.push('/');
    push_str(&mut v, path_prefix);
    push_str(&mut v, "/v1");
    proof {
        let h = if proxy_host@ == "0.0.0.0"@ { "127.0.0.1"@ } else { proxy_host@ };
        assert(v@ =~= "http://"@ + h + seq![':'] + decimal(proxy_port as nat) + seq!['/'] + path_prefix@ + "/v1"@);
    }
    string_from_chars(&v)
}

/// Whether a provider base URL points at a local proxy.
pub open spec fn local_base_url(base_url: Seq<char>) -> bool {
    contains_seq(base_url, "127.0.0.1"@) || contains_seq(base_url, "localhost"@)
}

pub(crate) fn contains_text(s: &Vec<char>, p: &str) -> (r: bool)
    ensures
        r == contains_seq(s@, p@),
{
    let pv = str_chars(p);
    match find(s, &pv) {
        Some(i) => {
            proof {
                assert(crate::text::occurs_at(s@, pv@, i as int));
            }
            true
        },
        None => false,
    }
}

/// Whether the `model_providers.custom.base_url` of a Codex configuration
/// points at this proxy (a local address).
pub fn is_antigravity_base_url(base_url: &str) -> (r: bool)
    ensures
        r == local_base_url(base_url@),
{
    let b = str_chars(base_url);
    contains_text(&b, "127.0.0.1") || contains_text(&b, "localhost")
}

/// The first `n` characters of a text (all of it when shorter).
pub open spec fn first_chars(s: Seq<char>, n: nat) -> Seq<char> {
    if s.len() <= n { s } else { s.take(n as int) }
}

/// The reported state of a Codex installation, given the configuration text
/// (when it exists and could be read) and what it parsed into. The preview is
/// the first 500 characters; the configuration points at this proxy when its
/// `model_providers.custom.base_url` is a local address.
pub fn status_from(
    installed: bool,
    config_path: Option<String>,
    has_backup: bool,
    content: Option<String>,
    parsed: Option<Vec<(String, TomlValue)>>,
) -> (r: CodexStatus)
    ensures
        r.installed == installed,
        r.config_path == config_path,
        r.has_backup == has_backup,
        crate::diagnostics::chars_of(r.current_config_preview) == match content {
            Some(c) => Some(first_chars(c@, 500)),
            None => None,
        },
        r.is_antigravity_configured == (content is Some && match parsed {
            Some(d) => points_at_proxy(tv_members(d@)),
            None => false,
        }),
{
    let preview = match &content {
        Some(c) => {
            let cv = str_chars(c.as_str());
            let n: usize = if cv.len() <= 500 { cv.len() } else { 500 };
            let p = slice_chars(&cv, 0, n);
            proof {
                assert(p@ =~= first_chars(c@, 500));
            }
            Some(string_from_chars(&p))
        },
        None => None,
    };
    let configured = match (&content, &parsed) {
        (Some(_), Some(d)) => match custom_base_url(d) {
            Some(u) => is_antigravity_base_url(u.as_str()),
            None => false,
        },
        _ => false,
    };
    CodexStatus {
        installed,
        config_path,
        has_backup,
        current_config_preview: preview,
        is_antigravity_configured: configured,
    }
}

/// The reported state of a Codex installation: `content` is the
/// configuration text when it exists and could be read; it is parsed as TOML
/// and a text that does not parse points nowhere (see [`status_from`]).
pub fn codex_status(installed: bool, config_path: Option<String>, has_backup: bool, content: Option<String>) -> (r: CodexStatus)
    ensures
        r.installed == installed,
        r.config_path == config_path,
        r.has_backup == has_backup,
        crate::diagnostics::chars_of(r.current_config_preview) == match content {
            Some(c) => Some(first_chars(c@, 500)),
            None => None,
        },
        r.is_antigravity_configured == match content {
            Some(c) => match toml_parsed(c@) {
                Ok(d) => points_at_proxy(d),
                Err(_) => false,
            },
            None => false,
        },
{
    let parsed = match &content {
        Some(c) => match parse_toml(c.as_str()) {
            Ok(d) => Some(d),
            Err(_) => None,
        },
        None => None,
    };
    status_from(installed, config_path, has_backup, content, parsed)
}

/// The outcome of restoring the configuration from its backup.
pub fn restore_result(config_path: String) -> (r: ApplyResult)
    ensures
        r.success,
        r.message@ == "Configuration restored from backup."@,
        r.config_path == config_path,
        r.backup_path is None,
{
    ApplyResult { success: true, message: owned("Configuration restored from backup."), config_path, backup_path: None }
}

/// The message after clearing Codex's login data, given what was removed.
pub open spec fn cleared_message(cleared: Seq<Seq<char>>) -> Seq<char> {
    if cleared.len() == 0 {
        "No OAuth data found to clear. Config is clean."@
    } else {
        "Codex OAuth data cleared successfully!\n\nCleared:\n"@ + crate::text::joined(cleared, "\n"@)
    }
}

/// The outcome of clearing Codex's login data; `cleared` describes each
/// removed item (see [`cleared_message`]).
pub fn clear_auth_result(cleared: &Vec<String>, config_path: String) -> (r: ApplyResult)
    ensures
        r.success,
        r.message@ == cleared_message(crate::text::texts(cleared@)),
        r.config_path == config_path,
        r.backup_path is None,
{
    let message = if cleared.len() == 0 {
        owned("No OAuth data found to clear. Config is clean.")
    } else {
        let mut v: Vec<char> = Vec::new();
        push_str(&mut v, "Codex OAuth data cleared successfully!\n\nCleared:\n");
        crate::text::push_joined(&mut v, cleared, "\n");
        string_from_chars(&v)
    };
    ApplyResult { success: true, message, config_path, backup_path: None }
}

/// The comment written above the CLI configuration.
pub open spec fn config_header(config_type: Seq<char>, applied_at: Seq<char>) -> Seq<char> {
    "# Codex "@ + config_type + " Configuration\n# Managed by Antigravity Hub\n# Applied at: "@ + applied_at
        + "\n# To revert, delete this file or restore the backup.\n\n"@
}

/// The comment written above the CLI configuration (see [`config_header`]).
pub fn header(config_type: &str, applied_at: &str) -> (r: String)
    ensures
        r@ == config_header(config_type@, applied_at@),
{
    let mut v: Vec<char> = Vec::new();
    push_str(&mut v, "# Codex ");
    push_str(&mut v, config_type);
    push_str(&mut v, " Configuration\n# Managed by Antigravity Hub\n# Applied at: ");
    push_str(&mut v, applied_at);
    push_str(&mut v, "\n# To revert, delete this file or restore the backup.\n\n");
    string_from_chars(&v)
}

// ---------------------------------------------------------------------------
// Saved Codex profiles
// ---------------------------------------------------------------------------

/// Whether a Codex profile has the given id.
pub open spec fn codex_id_is(id: Seq<char>) -> spec_fn(CodexProfile) -> bool {
    |p: CodexProfile| p.id@ == id
}

/// The message of a missing Codex profile.
pub open spec fn codex_not_found(id: Seq<char>) -> Seq<char> {
    "Codex profile '"@ + id + "' not found"@
}

fn not_found(id: &str) -> (r: String)
    ensures
        r@ == codex_not_found(id@),
{
    let mut v: Vec<char> = Vec::new();
    push_str(&mut v, "Codex profile '");
    push_str(&mut v, id);
    push_str(&mut v, "' not found");
    string_from_chars(&v)
}

fn find_codex(ps: &Vec<CodexProfile>, id: &str) -> (r: Option<usize>)
    ensures
        match r {
            Some(i) => first_where(ps@, codex_id_is(id@)) == Some(i as int) && i < ps@.len(),
            None => first_where(ps@, codex_id_is(id@)) is None,
        },
{
    let ghost f = codex_id_is(id@);
    let k = owned(id);
    let mut i: usize = 0;
    while i < ps.len()
        invariant
            i <= ps.len(),
            k@ == id@,
            f == codex_id_is(id@),
            first_where(ps@.take(i as int), f) is None,
        decreases ps.len() - i,
    {
        proof {
            lemma_first_where(ps@, f, i as int);
        }
        if ps[i].id == k {
            proof {
                lemma_first_where(ps@, f, i + 1);
            }
            return Some(i);
        }
        i += 1;
    }
    proof {
        lemma_first_where(ps@, f, i as int);
    }
    None
}

/// All saved Codex profiles.
pub fn list_codex_profiles(config: &AppConfig) -> (r: Result<Vec<CodexProfile>, String>)
    ensures
        r matches Ok(v) && v@ == config.codex_profiles@,
{
    let mut out: Vec<CodexProfile> = Vec::new();
    let mut i: usize = 0;
    while i < config.codex_profiles.len()
        invariant
            i <= config.codex_profiles.len(),
            out@ == config.codex_profiles@.take(i as int),
        decreases config.codex_profiles.len() - i,
    {
        out.push(config.codex_profiles[i].duplicate());
        i += 1;
        assert(out@ =~= config.codex_profiles@.take(i as int));
    }
    assert(config.codex_profiles@.take(i as int) =~= config.codex_profiles@);
    Ok(out)
}

/// Whether everything but the Codex profiles is the same.
pub open spec fn same_but_codex(a: AppConfig, b: AppConfig) -> bool {
    &&& a.language == b.language
    &&& a.theme == b.theme
    &&& a.proxy_port == b.proxy_port
    &&& a.proxy_host == b.proxy_host
    &&& a.auto_switch == b.auto_switch
    &&& a.platforms == b.platforms
    &&& a.provider_profiles == b.provider_profiles
}

/// The Codex profiles after a save at `now`: a non-empty `id` names the
/// profile (a fresh `new_id` otherwise); an existing profile with that id is
/// replaced in place, keeping its creation time; otherwise the profile is added.
pub open spec fn saved_codex(ps: Seq<CodexProfile>, p: CodexProfile) -> Seq<CodexProfile> {
    match first_where(ps, codex_id_is(p.id@)) {
        Some(i) => ps.update(i, p),
        None => ps.push(p),
    }
}

/// The profile a save at `now` produces.
pub open spec fn codex_profile_of(
    ps: Seq<CodexProfile>,
    id: Option<String>,
    new_id: String,
    name: String,
    platform_id: String,
    model_name: String,
    proxy_host: String,
    proxy_port: u16,
    path_prefix: String,
    reasoning_effort: Option<String>,
    disable_response_storage: Option<bool>,
    api_key: Option<String>,
    now: i64,
) -> CodexProfile {
    let (pid, is_update) = match id {
        Some(x) => if x@.len() > 0 { (x, true) } else { (new_id, false) },
        None => (new_id, false),
    };
    let created = if is_update {
        match first_where(ps, codex_id_is(pid@)) { Some(i) => ps[i].created_at, None => now }
    } else {
        now
    };
    CodexProfile {
        id: pid,
        name,
        platform_id,
        model_name,
        proxy_host,
        proxy_port,
        path_prefix,
        reasoning_effort,
        disable_response_storage,
        api_key,
        created_at: created,
        updated_at: now,
    }
}

/// Saves a Codex profile at time `now` (see [`saved_codex`], [`codex_profile_of`]).
pub fn save_codex_profile_at(
    config: &mut AppConfig,
    id: Option<String>,
    new_id: String,
    name: String,
    platform_id: String,
    model_name: String,
    proxy_host: String,
    proxy_port: u16,
    path_prefix: String,
    reasoning_effort: Option<String>,
    disable_response_storage: Option<bool>,
    api_key: Option<String>,
    now: i64,
) -> (r: Result<CodexProfile, String>)
    ensures
        same_but_codex(*final(config), *old(config)),
        r matches Ok(p) && p == codex_profile_of(old(config).codex_profiles@, id, new_id, name, platform_id, model_name,
            proxy_host, proxy_port, path_prefix, reasoning_effort, disable_response_storage, api_key, now)
            && final(config).codex_profiles@ == saved_codex(old(config).codex_profiles@, p),
{
    let (profile_id, is_update) = match id {
        Some(x) => if !x.as_str().is_empty() { (x, true) } else { (new_id, false) },
        None => (new_id, false),
    };
    let existing = find_codex(&config.codex_profiles, profile_id.as_str());
    let created_at = if is_update {
        match existing {
            Some(i) => config.codex_profiles[i].created_at,
            None => now,
        }
    } else {
        now
    };
    let profile = CodexProfile {
        id: profile_id,
        name,
        platform_id,
        model_name,
        proxy_host,
        proxy_port,
        path_prefix,
        reasoning_effort,
        disable_response_storage,
        api_key,
        created_at,
        updated_at: now,
    };
    let copy = profile.duplicate();
    match existing {
        Some(i) => {
            config.codex_profiles.set(i, copy);
        },
        None => {
            config.codex_profiles.push(copy);
        },
    }
    Ok(profile)
}

/// Saves a Codex profile now; a new profile gets a fresh random id.
pub fn save_codex_profile(
    config: &mut AppConfig,
    id: Option<String>,
    name: String,
    platform_id: String,
    model_name: String,
    proxy_host: String,
    proxy_port: u16,
    path_prefix: String,
    reasoning_effort: Option<String>,
    disable_response_storage: Option<bool>,
    api_key: Option<String>,
) -> (r: Result<CodexProfile, String>)
    ensures
        same_but_codex(*final(config), *old(config)),
        exists|now: i64, new_id: String| clock::clock_range(now as int) && new_id@.len() == 36
            && #[trigger] codex_profile_of(old(config).codex_profiles@, id, new_id, name, platform_id, model_name,
                proxy_host, proxy_port, path_prefix, reasoning_effort, disable_response_storage, api_key, now) == r->Ok_0
            && r is Ok
            && final(config).codex_profiles@ == saved_codex(old(config).codex_profiles@, r->Ok_0),
{
    let now = clock::now_unix_seconds();
    let new_id = clock::new_uuid();
    let ghost nid = new_id;
    let r = save_codex_profile_at(config, id, new_id, name, platform_id, model_name, proxy_host, proxy_port,
        path_prefix, reasoning_effort, disable_response_storage, api_key, now);
    assert(codex_profile_of(old(config).codex_profiles@, id, nid, name, platform_id, model_name,
        proxy_host, proxy_port, path_prefix, reasoning_effort, disable_response_storage, api_key, now) == r->Ok_0);
    r
}

/// Deletes every Codex profile with the given id; an error when there is none.
pub fn delete_codex_profile(config: &mut AppConfig, profile_id: String) -> (r: Result<(), String>)
    ensures
        same_but_codex(*final(config), *old(config)),
        final(config).codex_profiles@ == keep(old(config).codex_profiles@, |p: CodexProfile| p.id@ != profile_id@),
        (exists|i: int| 0 <= i < old(config).codex_profiles@.len() && (#[trigger] old(config).codex_profiles@[i]).id@ == profile_id@)
            ==> r is Ok,
        !(exists|i: int| 0 <= i < old(config).codex_profiles@.len() && (#[trigger] old(config).codex_profiles@[i]).id@ == profile_id@)
            ==> (r matches Err(e) && e@ == codex_not_found(profile_id@)),
{
    let ghost orig = config.codex_profiles@;
    let mut kept: Vec<CodexProfile> = Vec::new();
    let mut removed = false;
    let mut i: usize = 0;
    while i < config.codex_profiles.len()
        invariant
            i <= config.codex_profiles.len(),
            orig == config.codex_profiles@,
            kept@ == keep(orig.take(i as int), |p: CodexProfile| p.id@ != profile_id@),
            removed == exists|j: int| 0 <= j < i && (#[trigger] orig[j]).id@ == profile_id@,
        decreases config.codex_profiles.len() - i,
    {
        proof {
            assert(orig.take(i + 1).drop_last() =~= orig.take(i as int));
            assert(orig.take(i + 1).last() == orig[i as int]);
        }
        if config.codex_profiles[i].id != profile_id {
            kept.push(config.codex_profiles[i].duplicate());
        } else {
            removed = true;
        }
        i += 1;
    }
    proof {
        assert(orig.take(i as int) =~= orig);
    }
    config.codex_profiles = kept;
    if !removed {
        return Err(not_found(profile_id.as_str()));
    }
    Ok(())
}

/// The settings with which a saved profile is applied to Codex.
#[derive(Debug, Clone)]
pub struct CodexApplyParams {
    pub proxy_host: String,
    pub proxy_port: u16,
    pub path_prefix: String,
    pub model_name: String,
    pub reasoning_effort: Option<String>,
    pub disable_response_storage: Option<bool>,
    pub api_key: Option<String>,
}

/// The path prefix a profile routes through: its own, or else its platform's
/// (`openai` when the platform is gone).
pub open spec fn profile_prefix(p: CodexProfile, platforms: Seq<Platform>) -> Seq<char> {
    if p.path_prefix@.len() > 0 {
        p.path_prefix@
    } else {
        match first_where(platforms, crate::proxy::platform_id_is(p.platform_id@)) {
            Some(i) => platforms[i].path_prefix@,
            None => "openai"@,
        }
    }
}

/// The index of the first platform with the given id.
pub fn find_platform_index(ps: &Vec<Platform>, id: &String) -> (r: Option<usize>)
    ensures
        match r {
            Some(i) => first_where(ps@, crate::proxy::platform_id_is(id@)) == Some(i as int) && i < ps@.len(),
            None => first_where(ps@, crate::proxy::platform_id_is(id@)) is None,
        },
{
    let ghost f = crate::proxy::platform_id_is(id@);
    let mut i: usize = 0;
    while i < ps.len()
        invariant
            i <= ps.len(),
            f == crate::proxy::platform_id_is(id@),
            first_where(ps@.take(i as int), f) is None,
        decreases ps.len() - i,
    {
        proof {
            lemma_first_where(ps@, f, i as int);
        }
        if ps[i].id == *id {
            proof {
                lemma_first_where(ps@, f, i + 1);
            }
            return Some(i);
        }
        i += 1;
    }
    proof {
        lemma_first_where(ps@, f, i as int);
    }
    None
}

/// The settings of a saved profile to apply to Codex.
pub fn apply_codex_profile(config: &AppConfig, profile_id: String) -> (r: Result<CodexApplyParams, String>)
    ensures
        match first_where(config.codex_profiles@, codex_id_is(profile_id@)) {
            None => r matches Err(e) && e@ == codex_not_found(profile_id@),
            Some(i) => r matches Ok(a) && {
                let p = config.codex_profiles@[i];
                &&& a.proxy_host == p.proxy_host
                &&& a.proxy_port == p.proxy_port
                &&& a.path_prefix@ == profile_prefix(p, config.platforms@)
                &&& a.model_name == p.model_name
                &&& a.reasoning_effort == p.reasoning_effort
                &&& a.disable_response_storage == p.disable_response_storage
                &&& a.api_key == p.api_key
            },
        },
{
    let i = match find_codex(&config.codex_profiles, profile_id.as_str()) {
        Some(i) => i,
        None => return Err(not_found(profile_id.as_str())),
    };
    let p = &config.codex_profiles[i];
    let prefix = if !p.path_prefix.as_str().is_empty() {
        p.path_prefix.clone()
    } else {
        match find_platform_index(&config.platforms, &p.platform_id) {
            Some(k) => config.platforms[k].path_prefix.clone(),
            None => owned("openai"),
        }
    };
    Ok(CodexApplyParams {
        proxy_host: p.proxy_host.clone(),
        proxy_port: p.proxy_port,
        path_prefix: prefix,
        model_name: p.model_name.clone(),
        reasoning_effort: crate::text::copy_opt_string(&p.reasoning_effort),
        disable_response_storage: p.disable_response_storage,
        api_key: crate::text::copy_opt_string(&p.api_key),
    })
}

// ---------------------------------------------------------------------------
// Environment conflicts
// ---------------------------------------------------------------------------

/// The longest prefix of `s` whose UTF-8 encoding fits in `budget` bytes.
pub open spec fn prefix_within(s: Seq<char>, budget: int) -> Seq<char>
    decreases s.len(),
{
    if s.len() == 0 || crate::codex_translator::utf8_width(s[0]) > budget {
        Seq::empty()
    } else {
        seq![s[0]] + prefix_within(s.skip(1), budget - crate::codex_translator::utf8_width(s[0]))
    }
}

/// Whether the first `min(bytes, 8)` bytes of a key end on a character boundary.
pub open spec fn key_cut_ok(s: Seq<char>) -> bool {
    utf8_len(prefix_within(s, 8)) == if utf8_len(s) < 8 { utf8_len(s) } else { 8 }
}

/// The conflict report for the given environment values: `OPENAI_API_KEY`,
/// `OPENAI_BASE_URL`, whether `OPENAI_ORG_ID` is set, and `CODEX_HOME`.
pub open spec fn conflict_messages(api_key: Option<Seq<char>>, base_url: Option<Seq<char>>, org_id_set: bool,
    codex_home: Option<Seq<char>>) -> Seq<Seq<char>> {
    let m1: Seq<Seq<char>> = match api_key {
        Some(k) => if k.len() > 0 {
            seq!["OPENAI_API_KEY is set (starts with '"@ + prefix_within(k, 8) + "...'). This may override the configured API key."@]
        } else { Seq::empty() },
        None => Seq::empty(),
    };
    let m2 = match base_url {
        Some(u) => m1.push("OPENAI_BASE_URL is set to '"@ + u + "'. This will override the proxy base URL."@),
        None => m1,
    };
    let m3 = if org_id_set { m2.push("OPENAI_ORG_ID is set. This may cause routing issues with third-party providers."@) } else { m2 };
    let m4 = match codex_home {
        Some(h) => m3.push("CODEX_HOME is set to '"@ + h + "'. Codex CLI will use this directory instead of ~/.codex."@),
        None => m3,
    };
    if m4.len() == 0 { seq!["No conflicting environment variables detected."@] } else { m4 }
}

fn key_preview(k: &Vec<char>) -> (r: Vec<char>)
    ensures
        r@ == prefix_within(k@, 8),
{
    let mut out: Vec<char> = Vec::new();
    let mut budget: u32 = 8;
    let mut i: usize = 0;
    assert(k@.skip(0) =~= k@);
    while i < k.len()
        invariant
            i <= k.len(),
            budget <= 8,
            out@ + prefix_within(k@.skip(i as int), budget as int) == prefix_within(k@, 8),
        decreases k.len() - i,
    {
        let c = k[i];
        let w: u32 = if (c as u32) < 0x80 { 1 } else if (c as u32) < 0x800 { 2 } else if (c as u32) < 0x10000 { 3 } else { 4 };
        let ghost rest = k@.skip(i as int);
        proof {
            assert(rest[0] == c);
            assert(rest.skip(1) =~= k@.skip(i + 1));
        }
        if w > budget {
            proof {
                assert(prefix_within(rest, budget as int) =~= Seq::<char>::empty());
                assert(out@ + Seq::<char>::empty() =~= out@);
            }
            return out;
        }
        proof {
            assert(out@.push(c) + prefix_within(k@.skip(i + 1), (budget - w) as int) =~= out@ + (seq![c] + prefix_within(rest.skip(1), budget - w)));
        }
        out.push(c);
        budget = budget - w;
        i += 1;
    }
    proof {
        assert(k@.skip(i as int) =~= Seq::<char>::empty());
        assert(out@ + Seq::<char>::empty() =~= out@);
    }
    out
}

/// Which environment variables can interfere with Codex, given their values
/// (see [`conflict_messages`]).
pub fn check_codex_env_conflicts(
    openai_api_key: Option<String>,
    openai_base_url: Option<String>,
    openai_org_id_set: bool,
    codex_home: Option<String>,
) -> (r: EnvConflictResult)
    requires
        match openai_api_key { Some(k) => key_cut_ok(k@), None => true },
    ensures
        r.has_openai_api_key == match openai_api_key { Some(k) => k@.len() > 0, None => false },
        r.has_openai_base_url == openai_base_url is Some,
        r.has_openai_org_id == openai_org_id_set,
        r.has_codex_home == codex_home is Some,
        crate::key_model_map::string_views(r.messages@) == conflict_messages(
            crate::diagnostics::chars_of(openai_api_key), crate::diagnostics::chars_of(openai_base_url),
            openai_org_id_set, crate::diagnostics::chars_of(codex_home)),
{
    let mut messages: Vec<String> = Vec::new();
    let has_key = match &openai_api_key {
        Some(k) => {
            if !k.as_str().is_empty() {
                let mut v: Vec<char> = Vec::new();
                push_str(&mut v, "OPENAI_API_KEY is set (starts with '");
                let pv = key_preview(&str_chars(k.as_str()));
                crate::text::push_all(&mut v, &pv);
                push_str(&mut v, "...'). This may override the configured API key.");
                messages.push(string_from_chars(&v));
                true
            } else {
                false
            }
        },
        None => false,
    };
    let ghost m1 = crate::key_model_map::string_views(messages@);
    let has_url = match &openai_base_url {
        Some(u) => {
            let mut v: Vec<char> = Vec::new();
            push_str(&mut v, "OPENAI_BASE_URL is set to '");
            push_str(&mut v, u.as_str());
            push_str(&mut v, "'. This will override the proxy base URL.");
            messages.push(string_from_chars(&v));
            true
        },
        None => false,
    };
    if openai_org_id_set {
        messages.push(owned("OPENAI_ORG_ID is set. This may cause routing issues with third-party providers."));
    }
    let has_home = match &codex_home {
        Some(h) => {
            let mut v: Vec<char> = Vec::new();
            push_str(&mut v, "CODEX_HOME is set to '");
            push_str(&mut v, h.as_str());
            push_str(&mut v, "'. Codex CLI will use this directory instead of ~/.codex.");
            messages.push(string_from_chars(&v));
            true
        },
        None => false,
    };
    if messages.len() == 0 {
        messages.push(owned("No conflicting environment variables detected."));
    }
    proof {
        assert(crate::key_model_map::string_views(messages@) =~= conflict_messages(
            crate::diagnostics::chars_of(openai_api_key), crate::diagnostics::chars_of(openai_base_url),
            openai_org_id_set, crate::diagnostics::chars_of(codex_home)));
    }
    EnvConflictResult {
        has_openai_api_key: has_key,
        has_openai_base_url: has_url,
        has_openai_org_id: openai_org_id_set,
        has_codex_home: has_home,
        messages,
    }
}

// ---------------------------------------------------------------------------
// Model catalog and configuration settings
// ---------------------------------------------------------------------------

/// The catalog numbers of one model for Codex Desktop.
#[derive(Debug, Clone)]
pub struct CatalogEntry {
    pub model: String,
    /// `"{platform} / {display name}"`.
    pub display_name: String,
    pub context_window: u64,
    pub max_context_window: u64,
    pub effective_context_window_percent: u64,
    pub auto_compact_token_limit: u64,
    pub truncation_limit: u64,
    /// `text`, `image`, and `audio` from a 1M window.
    pub input_modalities: Vec<String>,
}

/// The catalog entry of a model of the named platform.
pub fn catalog_entry(platform_name: &str, m: &crate::models::Model) -> (r: CatalogEntry)
    ensures
        r.model == m.model_name,
        r.display_name@ == platform_name@ + " / "@ + m.display_name@,
        r.context_window == match m.max_input_tokens { Some(w) => w, None => DEFAULT_CONTEXT_WINDOW },
        r.max_context_window == r.context_window,
        r.auto_compact_token_limit == auto_compact(r.context_window),
        r.effective_context_window_percent == if r.context_window >= 1_000_000 { 90u64 } else if r.context_window >= 200_000 { 92u64 } else { 95u64 },
        r.truncation_limit == if r.context_window >= 1_000_000 { 50_000u64 } else if r.context_window >= 200_000 { 20_000u64 } else { 10_000u64 },
        crate::key_model_map::string_views(r.input_modalities@) == if r.context_window >= 1_000_000 {
            seq!["text"@, "image"@, "audio"@] } else { seq!["text"@, "image"@] },
{
    let w = match m.max_input_tokens {
        Some(x) => x,
        None => DEFAULT_CONTEXT_WINDOW,
    };
    let mut d: Vec<char> = Vec::new();
    push_str(&mut d, platform_name);
    push_str(&mut d, " / ");
    push_str(&mut d, m.display_name.as_str());
    let mut mods: Vec<String> = Vec::new();
    mods.push(owned("text"));
    mods.push(owned("image"));
    if w >= 1_000_000 {
        mods.push(owned("audio"));
    }
    proof {
        if w >= 1_000_000 {
            assert(crate::key_model_map::string_views(mods@) =~= seq!["text"@, "image"@, "audio"@]);
        } else {
            assert(crate::key_model_map::string_views(mods@) =~= seq!["text"@, "image"@]);
        }
    }
    CatalogEntry {
        model: m.model_name.clone(),
        display_name: string_from_chars(&d),
        context_window: w,
        max_context_window: w,
        effective_context_window_percent: calc_effective_pct(w),
        auto_compact_token_limit: calc_auto_compact(w),
        truncation_limit: calc_truncation_limit(w),
        input_modalities: mods,
    }
}

/// The catalog JSON of one model.
pub open spec fn catalog_value(model: Seq<char>, display: Seq<char>, window: u64, max_window: u64, pct: u64,
    compact: u64, truncation: u64, modalities: Seq<Seq<char>>) -> JsonV {
    JsonV::Object(seq![
        ("model"@, JsonV::Str(model)),
        ("slug"@, JsonV::Str(model)),
        ("display_name"@, JsonV::Str(display)),
        ("description"@, JsonV::Str(model)),
        ("visibility"@, JsonV::Str("list"@)),
        ("supported_in_api"@, JsonV::Bool(true)),
        ("context_window"@, u64_number(window)),
        ("max_context_window"@, u64_number(max_window)),
        ("effective_context_window_percent"@, u64_number(pct)),
        ("auto_compact_token_limit"@, u64_number(compact)),
        ("input_modalities"@, JsonV::Array(str_values(modalities))),
        ("supports_image_detail_original"@, JsonV::Bool(true)),
        ("supports_parallel_tool_calls"@, JsonV::Bool(true)),
        ("supports_search_tool"@, JsonV::Bool(true)),
        ("web_search_tool_type"@, JsonV::Str("text_and_image"@)),
        ("apply_patch_tool_type"@, JsonV::Str("freeform"@)),
        ("shell_type"@, JsonV::Str("shell_command"@)),
        ("supports_reasoning_summaries"@, JsonV::Bool(true)),
        ("default_reasoning_summary"@, JsonV::Str("auto"@)),
        ("default_reasoning_level"@, JsonV::Str("medium"@)),
        ("support_verbosity"@, JsonV::Bool(true)),
        ("default_verbosity"@, JsonV::Str("low"@)),
        ("truncation_policy"@, JsonV::Object(seq![("mode"@, JsonV::Str("tokens"@)), ("limit"@, u64_number(truncation))])),
        ("priority"@, u64_number(10)),
    ])
}

/// Texts as JSON strings.
pub open spec fn str_values(v: Seq<Seq<char>>) -> Seq<JsonV> {
    v.map_values(|s: Seq<char>| JsonV::Str(s))
}

/// The catalog JSON of an entry.
pub open spec fn entry_value(e: CatalogEntry) -> JsonV {
    catalog_value(e.model@, e.display_name@, e.context_window, e.max_context_window, e.effective_context_window_percent,
        e.auto_compact_token_limit, e.truncation_limit, crate::key_model_map::string_views(e.input_modalities@))
}

/// The context window of a model, or the default.
pub open spec fn window_of(m: Model) -> u64 {
    match m.max_input_tokens {
        Some(w) => w,
        None => DEFAULT_CONTEXT_WINDOW,
    }
}

/// The catalog JSON of a model of the named platform, sized as [`catalog_entry`] sizes it.
pub open spec fn cli_item(platform_name: Seq<char>, m: Model) -> JsonV {
    let w = window_of(m);
    catalog_value(m.model_name@, platform_name + " / "@ + m.display_name@, w, w,
        if w >= 1_000_000 { 90u64 } else if w >= 200_000 { 92u64 } else { 95u64 },
        auto_compact(w),
        if w >= 1_000_000 { 50_000u64 } else if w >= 200_000 { 20_000u64 } else { 10_000u64 },
        if w >= 1_000_000 { seq!["text"@, "image"@, "audio"@] } else { seq!["text"@, "image"@] })
}

/// A catalog document: `{"models": [...]}`.
pub open spec fn catalog_doc(items: Seq<JsonV>) -> JsonV {
    JsonV::Object(seq![("models"@, JsonV::Array(items))])
}

fn str_value(s: &str) -> (r: Json)
    ensures
        jv(r) == JsonV::Str(s@),
{
    Json::Str(owned(s))
}

fn bool_value(b: bool) -> (r: Json)
    ensures
        jv(r) == JsonV::Bool(b),
{
    Json::Bool(b)
}

/// The catalog JSON of an entry (see [`entry_value`]).
pub fn catalog_item_json(e: &CatalogEntry) -> (r: Json)
    ensures
        jv(r) == entry_value(*e),
{
    let ghost modv = crate::key_model_map::string_views(e.input_modalities@);
    let mut mods: Vec<Json> = Vec::new();
    let mut i: usize = 0;
    while i < e.input_modalities.len()
        invariant
            i <= e.input_modalities.len(),
            modv == crate::key_model_map::string_views(e.input_modalities@),
            jv_seq(mods@) == str_values(modv.take(i as int)),
        decreases e.input_modalities.len() - i,
    {
        let ghost b = mods@;
        let x = Json::Str(e.input_modalities[i].clone());
        assert(jv(x) == JsonV::Str(modv[i as int]));
        mods.push(x);
        proof {
            assert(mods@.drop_last() =~= b);
            assert(str_values(modv.take(i + 1)) =~= str_values(modv.take(i as int)).push(JsonV::Str(modv[i as int])));
        }
        i += 1;
    }
    proof {
        assert(modv.take(i as int) =~= modv);
    }
    let mut tp: Vec<(String, Json)> = Vec::new();
    tp.push((owned("mode"), str_value("tokens")));
    tp.push((owned("limit"), u64_json(e.truncation_limit)));
    let mut es: Vec<(String, Json)> = Vec::new();
    es.push((owned("model"), Json::Str(e.model.clone())));
    es.push((owned("slug"), Json::Str(e.model.clone())));
    es.push((owned("display_name"), Json::Str(e.display_name.clone())));
    es.push((owned("description"), Json::Str(e.model.clone())));
    es.push((owned("visibility"), str_value("list")));
    es.push((owned("supported_in_api"), bool_value(true)));
    es.push((owned("context_window"), u64_json(e.context_window)));
    es.push((owned("max_context_window"), u64_json(e.max_context_window)));
    es.push((owned("effective_context_window_percent"), u64_json(e.effective_context_window_percent)));
    es.push((owned("auto_compact_token_limit"), u64_json(e.auto_compact_token_limit)));
    es.push((owned("input_modalities"), Json::Array(mods)));
    es.push((owned("supports_image_detail_original"), bool_value(true)));
    es.push((owned("supports_parallel_tool_calls"), bool_value(true)));
    es.push((owned("supports_search_tool"), bool_value(true)));
    es.push((owned("web_search_tool_type"), str_value("text_and_image")));
    es.push((owned("apply_patch_tool_type"), str_value("freeform")));
    es.push((owned("shell_type"), str_value("shell_command")));
    es.push((owned("supports_reasoning_summaries"), bool_value(true)));
    es.push((owned("default_reasoning_summary"), str_value("auto")));
    es.push((owned("default_reasoning_level"), str_value("medium")));
    es.push((owned("support_verbosity"), bool_value(true)));
    es.push((owned("default_verbosity"), str_value("low")));
    es.push((owned("truncation_policy"), Json::Object(tp)));
    es.push((owned("priority"), u64_json(10)));
    proof {
        crate::json::lemma_jv_members(tp@);
        crate::json::lemma_jv_members(es@);
        assert(jv_members(tp@) =~= seq![("mode"@, JsonV::Str("tokens"@)), ("limit"@, u64_number(e.truncation_limit))]);
        let target = entry_value(*e);
        assert(target is Object);
        assert(jv_members(es@) =~= target->Object_0);
    }
    Json::Object(es)
}

/// A catalog file for Codex Desktop: its file name and content.
#[derive(Debug)]
pub struct ModelCatalog {
    /// `{path_prefix}-models.json`.
    pub file_name: String,
    pub content: Json,
}

/// Whether a platform routes through the path prefix.
pub open spec fn prefix_is(prefix: Seq<char>) -> spec_fn(Platform) -> bool {
    |p: Platform| p.path_prefix@ == prefix
}

/// The models of a platform in sort order.
pub open spec fn platform_models(models: Seq<Model>, platform_id: Seq<char>) -> Seq<Model> {
    sort_by_order(keep(models, model_of_platform(platform_id)))
}

/// The error for a path prefix that no platform has.
pub open spec fn prefix_not_found(prefix: Seq<char>) -> Seq<char> {
    "Platform with path_prefix '"@ + prefix + "' not found in config"@
}

/// The file name of a platform's catalog.
pub open spec fn catalog_file_name(prefix: Seq<char>) -> Seq<char> {
    prefix + "-models.json"@
}

/// The index of the first platform with the path prefix.
pub fn find_platform_by_prefix(ps: &Vec<Platform>, prefix: &str) -> (r: Option<usize>)
    ensures
        match r {
            Some(i) => first_where(ps@, prefix_is(prefix@)) == Some(i as int) && i < ps@.len(),
            None => first_where(ps@, prefix_is(prefix@)) is None,
        },
{
    let ghost f = prefix_is(prefix@);
    let k = owned(prefix);
    let mut i: usize = 0;
    while i < ps.len()
        invariant
            i <= ps.len(),
            k@ == prefix@,
            f == prefix_is(prefix@),
            first_where(ps@.take(i as int), f) is None,
        decreases ps.len() - i,
    {
        proof {
            lemma_first_where(ps@, f, i as int);
        }
        if ps[i].path_prefix == k {
            proof {
                lemma_first_where(ps@, f, i + 1);
            }
            return Some(i);
        }
        i += 1;
    }
    proof {
        lemma_first_where(ps@, f, i as int);
    }
    None
}

fn catalog_name(prefix: &str) -> (r: String)
    ensures
        r@ == catalog_file_name(prefix@),
{
    let mut v: Vec<char> = Vec::new();
    push_str(&mut v, prefix);
    push_str(&mut v, "-models.json");
    string_from_chars(&v)
}

/// The Codex catalog of the platform with the path prefix: every model of the
/// platform, in sort order, sized by its context window.
pub fn generate_model_catalog(config: &AppConfig, store: &ModelStore, path_prefix: &str) -> (r: Result<ModelCatalog, String>)
    ensures
        match first_where(config.platforms@, prefix_is(path_prefix@)) {
            None => r matches Err(e) && e@ == prefix_not_found(path_prefix@),
            Some(i) => r matches Ok(c) && {
                let p = config.platforms@[i];
                &&& c.file_name@ == catalog_file_name(path_prefix@)
                &&& jv(c.content) == catalog_doc(platform_models(store.models@, p.id@).map_values(|m: Model| cli_item(p.name@, m)))
            },
        },
{
    let i = match find_platform_by_prefix(&config.platforms, path_prefix) {
        Some(i) => i,
        None => {
            let mut v: Vec<char> = Vec::new();
            push_str(&mut v, "Platform with path_prefix '");
            push_str(&mut v, path_prefix);
            push_str(&mut v, "' not found in config");
            return Err(string_from_chars(&v));
        },
    };
    let p = &config.platforms[i];
    let models = match crate::model_manager::list_models(store, p.id.as_str()) {
        Ok(v) => v,
        Err(e) => return Err(e),
    };
    let ghost want = models@.map_values(|m: Model| cli_item(p.name@, m));
    let mut items: Vec<Json> = Vec::new();
    let mut k: usize = 0;
    while k < models.len()
        invariant
            k <= models.len(),
            want == models@.map_values(|m: Model| cli_item(p.name@, m)),
            jv_seq(items@) == want.take(k as int),
        decreases models.len() - k,
    {
        let e = catalog_entry(p.name.as_str(), &models[k]);
        let item = catalog_item_json(&e);
        proof {
            assert(crate::key_model_map::string_views(e.input_modalities@) =~= if e.context_window >= 1_000_000 {
                seq!["text"@, "image"@, "audio"@] } else { seq!["text"@, "image"@] });
            assert(jv(item) == cli_item(p.name@, models@[k as int]));
        }
        let ghost b = items@;
        items.push(item);
        proof {
            assert(items@.drop_last() =~= b);
            assert(want.take(k + 1) =~= want.take(k as int).push(want[k as int]));
        }
        k += 1;
    }
    proof {
        assert(want.take(k as int) =~= want);
    }
    let mut doc: Vec<(String, Json)> = Vec::new();
    doc.push((owned("models"), Json::Array(items)));
    proof {
        crate::json::lemma_jv_members(doc@);
        assert(jv_members(doc@) =~= seq![("models"@, JsonV::Array(want))]);
    }
    Ok(ModelCatalog { file_name: catalog_name(path_prefix), content: Json::Object(doc) })
}

/// `(model, display name)` of each model.
pub open spec fn model_pairs(ms: Seq<Model>) -> Seq<(Seq<char>, Seq<char>)> {
    ms.map_values(|m: Model| (m.model_name@, m.display_name@))
}

/// The plain values of `(model, display name)` pairs.
pub open spec fn pair_views(v: Seq<(String, String)>) -> Seq<(Seq<char>, Seq<char>)> {
    v.map_values(|p: (String, String)| (p.0@, p.1@))
}

/// `(model, display name)` of each model of the platform, in sort order: the
/// model list shown by Codex Desktop.
pub fn provider_models(store: &ModelStore, platform_id: &str) -> (r: Vec<(String, String)>)
    ensures
        pair_views(r@) == model_pairs(platform_models(store.models@, platform_id@)),
{
    let models = match crate::model_manager::list_models(store, platform_id) {
        Ok(v) => v,
        Err(_) => Vec::new(),
    };
    let ghost want = model_pairs(models@);
    let mut out: Vec<(String, String)> = Vec::new();
    let mut k: usize = 0;
    while k < models.len()
        invariant
            k <= models.len(),
            want == model_pairs(models@),
            pair_views(out@) == want.take(k as int),
        decreases models.len() - k,
    {
        let ghost b = out@;
        let name = models[k].model_name.clone();
        let display = models[k].display_name.clone();
        assert(name@ == want[k as int].0 && display@ == want[k as int].1);
        out.push((name, display));
        proof {
            assert(out@.drop_last() =~= b);
            assert(want.len() == models@.len());
            assert(pair_views(b).len() == b.len());
            assert(b.len() == k);
            assert(out@.len() == k + 1);
            assert forall|j: int| 0 <= j < k implies #[trigger] pair_views(out@)[j] == want[j] by {
                assert(pair_views(b)[j] == want.take(k as int)[j]);
            }
            assert(pair_views(out@) =~= want.take(k + 1));
        }
        k += 1;
    }
    proof {
        assert(want.take(k as int) =~= want);
    }
    out
}

/// The model list for Desktop of the platform with the path prefix, empty
/// when no platform has it.
pub fn prefix_models(config: &AppConfig, store: &ModelStore, path_prefix: &str) -> (r: Vec<(String, String)>)
    ensures
        pair_views(r@) == match first_where(config.platforms@, prefix_is(path_prefix@)) {
            Some(i) => model_pairs(platform_models(store.models@, config.platforms@[i].id@)),
            None => Seq::empty(),
        },
{
    match find_platform_by_prefix(&config.platforms, path_prefix) {
        Some(i) => provider_models(store, config.platforms[i].id.as_str()),
        None => {
            let out: Vec<(String, String)> = Vec::new();
            proof {
                assert(pair_views(out@) =~= Seq::empty());
            }
            out
        },
    }
}

/// A TOML value the configuration sets.
#[derive(Debug, Clone)]
pub enum TomlSetting {
    Text(String),
    Flag(bool),
}

/// A TOML value as plain data.
pub enum SettingView {
    Text(Seq<char>),
    Flag(bool),
}

/// The plain value of a setting.
pub open spec fn setting_view(t: TomlSetting) -> SettingView {
    match t {
        TomlSetting::Text(s) => SettingView::Text(s@),
        TomlSetting::Flag(b) => SettingView::Flag(b),
    }
}

/// The plain values of settings.
pub open spec fn settings_view(v: Seq<(String, TomlSetting)>) -> Seq<(Seq<char>, SettingView)> {
    v.map_values(|e: (String, TomlSetting)| (e.0@, setting_view(e.1)))
}

/// What applying the proxy to Codex writes: top-level keys and the
/// `[model_providers.custom]` entries, in order, plus the model list shown by
/// Codex Desktop.
#[derive(Debug, Clone)]
pub struct CodexConfigPlan {
    pub top_level: Vec<(String, TomlSetting)>,
    pub provider: Vec<(String, TomlSetting)>,
    /// `(model, display_name)` pairs for Desktop's model list (set when non-empty).
    pub provider_models: Vec<(String, String)>,
    pub base_url: String,
    /// `Desktop` when a model catalog was written, else `CLI`.
    pub config_type: String,
}

/// The top-level settings written.
pub open spec fn top_level_of(model: Seq<char>, effort: Option<Seq<char>>, disable: Option<bool>, catalog: Option<Seq<char>>)
    -> Seq<(Seq<char>, SettingView)> {
    let t0: Seq<(Seq<char>, SettingView)> = match catalog { Some(c) => seq![("model_catalog_json"@, SettingView::Text(c))], None => Seq::empty() };
    let t1 = t0.push(("model_provider"@, SettingView::Text("custom"@))).push(("model"@, SettingView::Text(model)));
    if catalog is Some {
        t1
    } else {
        let t2 = t1.push(("preferred_auth_method"@, SettingView::Text("apikey"@)));
        let t3 = match disable { Some(b) => t2.push(("disable_response_storage"@, SettingView::Flag(b))), None => t2 };
        match effort { Some(e) => t3.push(("model_reasoning_effort"@, SettingView::Text(e))), None => t3 }
    }
}

/// The `[model_providers.custom]` entries written.
pub open spec fn provider_of(base_url: Seq<char>, api_key: Option<Seq<char>>, desktop: bool) -> Seq<(Seq<char>, SettingView)> {
    let p = seq![("name"@, SettingView::Text("custom"@)), ("base_url"@, SettingView::Text(base_url)), ("wire_api"@, SettingView::Text("responses"@))];
    if desktop {
        p.push(("env_key"@, SettingView::Text("OPENAI_API_KEY"@)))
    } else {
        let q = p.push(("requires_openai_auth"@, SettingView::Flag(false)));
        match api_key { Some(k) => if k.len() > 0 { q.push(("api_key"@, SettingView::Text(k))) } else { q }, None => q }
    }
}

fn text_setting(k: &str, v: String) -> (r: (String, TomlSetting))
    ensures
        r.0@ == k@,
        setting_view(r.1) == SettingView::Text(v@),
{
    (owned(k), TomlSetting::Text(v))
}

proof fn lemma_settings_push(v: Seq<(String, TomlSetting)>, e: (String, TomlSetting))
    ensures
        settings_view(v.push(e)) == settings_view(v).push((e.0@, setting_view(e.1))),
{
    assert(settings_view(v.push(e)) =~= settings_view(v).push((e.0@, setting_view(e.1))));
}

/// The settings that point Codex at the proxy; `catalog_path` is the model
/// catalog written for Codex Desktop (`None`: a CLI configuration). Refused
/// parameters give the same errors as [`validate_params`] and
/// [`validate_reasoning_effort`].
pub fn apply_codex_config(
    proxy_host: &str,
    proxy_port: u16,
    path_prefix: &str,
    model_name: &str,
    reasoning_effort: Option<&str>,
    disable_response_storage: Option<bool>,
    api_key: Option<&str>,
    catalog_path: Option<String>,
    desktop_models: Vec<(String, String)>,
) -> (r: Result<CodexConfigPlan, String>)
    ensures
        params_error(proxy_host@, proxy_port, path_prefix@, model_name@) matches Some(e) ==> (r matches Err(m) && m@ == e),
        params_error(proxy_host@, proxy_port, path_prefix@, model_name@) is None ==> match reasoning_effort {
            Some(e) => if e@ == "low"@ || e@ == "medium"@ || e@ == "high"@ { r is Ok } else { r matches Err(m) && m@ == effort_error(e@) },
            None => r is Ok,
        },
        r matches Ok(plan) ==> {
            &&& plan.base_url@ == proxy_base_url_of(proxy_host@, proxy_port, path_prefix@)
            &&& settings_view(plan.top_level@) == top_level_of(model_name@,
                    match reasoning_effort { Some(e) => Some(e@), None => None }, disable_response_storage,
                    crate::diagnostics::chars_of(catalog_path))
            &&& settings_view(plan.provider@) == provider_of(plan.base_url@,
                    match api_key { Some(k) => Some(k@), None => None }, catalog_path is Some)
            &&& plan.provider_models@ == if catalog_path is Some { desktop_models@ } else { Seq::empty() }
            &&& plan.config_type@ == if catalog_path is Some { "Desktop"@ } else { "CLI"@ }
        },
{
    validate_params(proxy_host, proxy_port, path_prefix, model_name)?;
    validate_reasoning_effort(reasoning_effort)?;
    let base_url = proxy_base_url(proxy_host, proxy_port, path_prefix);
    let desktop = catalog_path.is_some();
    let ghost cat = crate::diagnostics::chars_of(catalog_path);
    let mut top: Vec<(String, TomlSetting)> = Vec::new();
    match catalog_path {
        Some(c) => {
            let e = text_setting("model_catalog_json", c);
            proof { lemma_settings_push(top@, e); }
            top.push(e);
        },
        None => {},
    }
    let e = text_setting("model_provider", owned("custom"));
    proof { lemma_settings_push(top@, e); }
    top.push(e);
    let e = text_setting("model", owned(model_name));
    proof { lemma_settings_push(top@, e); }
    top.push(e);
    if !desktop {
        let e = text_setting("preferred_auth_method", owned("apikey"));
        proof { lemma_settings_push(top@, e); }
        top.push(e);
        match disable_response_storage {
            Some(b) => {
                let e = (owned("disable_response_storage"), TomlSetting::Flag(b));
                proof { lemma_settings_push(top@, e); }
                top.push(e);
            },
            None => {},
        }
        match reasoning_effort {
            Some(x) => {
                let e = text_setting("model_reasoning_effort", owned(x));
                proof { lemma_settings_push(top@, e); }
                top.push(e);
            },
            None => {},
        }
    }
    proof {
        assert(settings_view(top@) =~= top_level_of(model_name@,
            match reasoning_effort { Some(e) => Some(e@), None => None }, disable_response_storage, cat));
    }
    let mut prov: Vec<(String, TomlSetting)> = Vec::new();
    let e = text_setting("name", owned("custom"));
    proof { lemma_settings_push(prov@, e); }
    prov.push(e);
    let e = text_setting("base_url", base_url.clone());
    proof { lemma_settings_push(prov@, e); }
    prov.push(e);
    let e = text_setting("wire_api", owned("responses"));
    proof { lemma_settings_push(prov@, e); }
    prov.push(e);
    if desktop {
        let e = text_setting("env_key", owned("OPENAI_API_KEY"));
        proof { lemma_settings_push(prov@, e); }
        prov.push(e);
    } else {
        let e = (owned("requires_openai_auth"), TomlSetting::Flag(false));
        proof { lemma_settings_push(prov@, e); }
        prov.push(e);
        match api_key {
            Some(k) => {
                if !k.is_empty() {
                    let e = text_setting("api_key", owned(k));
                    proof { lemma_settings_push(prov@, e); }
                    prov.push(e);
                }
            },
            None => {},
        }
    }
    proof {
        assert(settings_view(prov@) =~= provider_of(base_url@, match api_key { Some(k) => Some(k@), None => None }, desktop));
    }
    let models = if desktop { desktop_models } else { Vec::new() };
    Ok(CodexConfigPlan {
        top_level: top,
        provider: prov,
        provider_models: models,
        base_url,
        config_type: if desktop { owned("Desktop") } else { owned("CLI") },
    })
}

/// The message shown after the configuration was written.
pub open spec fn applied_message(config_type: Seq<char>, prefix: Seq<char>, model: Seq<char>, base_url: Seq<char>, file: Seq<char>) -> Seq<char> {
    "Codex "@ + config_type + " configuration applied!\nProvider: custom (routed via /"@ + prefix + "/)\nModel: "@ + model
        + "\nBase URL: "@ + base_url + "\nFile: "@ + file
}

/// The message shown after the configuration was written (see [`applied_message`]).
pub fn apply_message(config_type: &str, path_prefix: &str, model_name: &str, base_url: &str, file: &str) -> (r: String)
    ensures
        r@ == applied_message(config_type@, path_prefix@, model_name@, base_url@, file@),
{
    let mut v: Vec<char> = Vec::new();
    push_str(&mut v, "Codex ");
    push_str(&mut v, config_type);
    push_str(&mut v, " configuration applied!\nProvider: custom (routed via /");
    push_str(&mut v, path_prefix);
    push_str(&mut v, "/)\nModel: ");
    push_str(&mut v, model_name);
    push_str(&mut v, "\nBase URL: ");
    push_str(&mut v, base_url);
    push_str(&mut v, "\nFile: ");
    push_str(&mut v, file);
    string_from_chars(&v)
}

} // verus!
