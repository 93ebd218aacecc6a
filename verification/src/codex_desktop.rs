//! Codex Desktop status: what is reported about the installation.

use vstd::prelude::*;
use crate::clock;
use crate::codex_integration::{
    catalog_doc, catalog_file_name, catalog_item_json, catalog_value, contains_text, find_platform_index, model_pairs,
    pair_views, platform_models, provider_models, proxy_base_url, proxy_base_url_of, settings_view, window_of, CatalogEntry,
    CodexConfigPlan, ModelCatalog, SettingView, TomlSetting, DEFAULT_CONTEXT_WINDOW,
};
use crate::diagnostics::chars_of;
use crate::json::{jv, jv_members, jv_seq, Json, JsonV};
use crate::key_model_map::string_views;
use crate::model_manager::ModelStore;
use crate::models::{AppConfig, Model};
use crate::proxy::platform_id_is;
use crate::sorting::first_where;
use crate::text::{contains_seq, owned, push_str, has_prefix, lines, slice_chars, split_lines, starts_with, str_chars, string_from_chars, strip_leading, strip_trailing, trim_end_char, trim_start_char};

verus! {

/// Codex CLI / Desktop installation status.
#[derive(Debug, Clone)]
pub struct CodexStatus {
    pub installed: bool,
    pub config_path: Option<String>,
    pub has_backup: bool,
    /// The `version = ...` value of the configuration, quotes removed.
    pub version: Option<String>,
    pub message: String,
}

/// The outcome of applying the Desktop configuration.
#[derive(Debug, Clone)]
pub struct CodexApplyResult {
    pub success: bool,
    pub catalog_path: Option<String>,
    pub config_path: Option<String>,
    pub message: String,
}

/// The version a configuration declares: the value of the first line that
/// starts with `version = `, with surrounding quotes removed.
pub open spec fn declared_version(ls: Seq<Seq<char>>) -> Option<Seq<char>>
    decreases ls.len(),
{
    if ls.len() == 0 {
        None
    } else if has_prefix(ls[0], "version = "@) {
        Some(strip_leading(strip_trailing(ls[0].skip(10), '"'), '"'))
    } else {
        declared_version(ls.drop_first())
    }
}

/// The version a configuration text declares (see [`declared_version`]).
pub fn detect_version(content: &str) -> (r: Option<String>)
    ensures
        crate::diagnostics::chars_of(r) == declared_version(lines(content@)),
{
    let ls = split_lines(&str_chars(content));
    let ghost lv = ls@.map_values(|l: Vec<char>| l@);
    let key = str_chars("version = ");
    proof {
        reveal_strlit("version = ");
    }
    let mut i: usize = 0;
    assert(lv.skip(0) =~= lv);
    while i < ls.len()
        invariant
            i <= ls.len(),
            lv == ls@.map_values(|l: Vec<char>| l@),
            lv == lines(content@),
            key@ == "version = "@,
            key@.len() == 10,
            declared_version(lv.skip(i as int)) == declared_version(lv),
        decreases ls.len() - i,
    {
        proof {
            assert(lv.skip(i as int)[0] == ls@[i as int]@);
            assert(lv.skip(i as int).drop_first() =~= lv.skip(i + 1));
        }
        if starts_with(&ls[i], &key) {
            let val = slice_chars(&ls[i], 10, ls[i].len());
            let v = trim_start_char(&trim_end_char(&val, '"'), '"');
            proof {
                assert(val@ =~= ls@[i as int]@.skip(10));
            }
            return Some(string_from_chars(&v));
        }
        i += 1;
    }
    proof {
        assert(lv.skip(i as int) =~= Seq::<Seq<char>>::empty());
    }
    None
}

/// The state reported for an installation: the Codex directory missing, or
/// the configuration path, whether a backup exists, and the declared version
/// of the configuration text when it could be read. `codex_dir_shown` is the
/// directory as it is shown in the message.
pub fn desktop_status(codex_dir_shown: &str, installed: bool, config_path: String, has_backup: bool, content: Option<String>)
    -> (r: CodexStatus)
    ensures
        r.installed == installed,
        !installed ==> {
            &&& r.config_path is None
            &&& !r.has_backup
            &&& r.version is None
            &&& r.message@ == "Codex directory not found at "@ + codex_dir_shown@
        },
        installed ==> {
            &&& r.config_path matches Some(p) && p@ == config_path@
            &&& r.has_backup == has_backup
            &&& chars_of(r.version) == match content { Some(c) => declared_version(lines(c@)), None => None }
            &&& r.message@ == "Codex CLI/Desktop detected."@
        },
{
    if !installed {
        let mut v: Vec<char> = Vec::new();
        push_str(&mut v, "Codex directory not found at ");
        push_str(&mut v, codex_dir_shown);
        return CodexStatus {
            installed: false,
            config_path: None,
            has_backup: false,
            version: None,
            message: string_from_chars(&v),
        };
    }
    let version = match content {
        Some(c) => detect_version(c.as_str()),
        None => None,
    };
    CodexStatus {
        installed: true,
        config_path: Some(config_path),
        has_backup,
        version,
        message: owned("Codex CLI/Desktop detected."),
    }
}

/// The Desktop catalog numbers of a model: its window, 95 percent effective,
/// compaction at half the window (at most 196608), truncation at 10000
/// tokens, text and image input.
pub fn desktop_entry(platform_name: &str, m: &Model) -> (r: CatalogEntry)
    ensures
        r.model@ == m.model_name@,
        r.display_name@ == platform_name@ + " / "@ + m.display_name@,
        r.context_window == window_of(*m),
        r.max_context_window == r.context_window,
        r.effective_context_window_percent == 95,
        r.auto_compact_token_limit == if r.context_window / 2 < 196608 { r.context_window / 2 } else { 196608 },
        r.truncation_limit == 10000,
        string_views(r.input_modalities@) == seq!["text"@, "image"@],
{
    let w = match m.max_input_tokens {
        Some(x) => x,
        None => DEFAULT_CONTEXT_WINDOW,
    };
    let mut d: Vec<char> = Vec::new();
    push_str(&mut d, platform_name);
    push_str(&mut d, " / ");
    push_str(&mut d, m.display_name.as_str());
    let mut mods: Vec<String> = Vec::new();
    mods.push(owned("text"));
    mods.push(owned("image"));
    proof {
        assert(string_views(mods@) =~= seq!["text"@, "image"@]);
    }
    CatalogEntry {
        model: m.model_name.clone(),
        display_name: string_from_chars(&d),
        context_window: w,
        max_context_window: w,
        effective_context_window_percent: 95,
        auto_compact_token_limit: if w / 2 < 196608 { w / 2 } else { 196608 },
        truncation_limit: 10000,
        input_modalities: mods,
    }
}

/// The Desktop catalog JSON of a model of the named platform (see [`desktop_entry`]).
pub open spec fn desktop_item(platform_name: Seq<char>, m: Model) -> JsonV {
    let w = window_of(m);
    catalog_value(m.model_name@, platform_name + " / "@ + m.display_name@, w, w, 95,
        if w / 2 < 196608 { w / 2 } else { 196608 }, 10000, seq!["text"@, "image"@])
}

/// The error for a platform id that no platform has.
pub open spec fn platform_not_found(id: Seq<char>) -> Seq<char> {
    "Platform not found: "@ + id
}

fn not_found(id: &str) -> (r: String)
    ensures
        r@ == platform_not_found(id@),
{
    let mut v: Vec<char> = Vec::new();
    push_str(&mut v, "Platform not found: ");
    push_str(&mut v, id);
    string_from_chars(&v)
}

/// The Desktop catalog of the platform: every model of the platform, in sort
/// order; the file is named after the platform's path prefix.
pub fn generate_model_catalog(config: &AppConfig, store: &ModelStore, platform_id: &str) -> (r: Result<ModelCatalog, String>)
    ensures
        match first_where(config.platforms@, platform_id_is(platform_id@)) {
            None => r matches Err(e) && e@ == platform_not_found(platform_id@),
            Some(i) => r matches Ok(c) && {
                let p = config.platforms@[i];
                &&& c.file_name@ == catalog_file_name(p.path_prefix@)
                &&& jv(c.content) == catalog_doc(platform_models(store.models@, p.id@).map_values(|m: Model| desktop_item(p.name@, m)))
            },
        },
{
    let i = match find_platform_index(&config.platforms, &owned(platform_id)) {
        Some(i) => i,
        None => return Err(not_found(platform_id)),
    };
    let p = &config.platforms[i];
    let models = match crate::model_manager::list_models(store, p.id.as_str()) {
        Ok(v) => v,
        Err(e) => return Err(e),
    };
    let ghost want = models@.map_values(|m: Model| desktop_item(p.name@, m));
    let mut items: Vec<Json> = Vec::new();
    let mut k: usize = 0;
    while k < models.len()
        invariant
            k <= models.len(),
            want == models@.map_values(|m: Model| desktop_item(p.name@, m)),
            jv_seq(items@) == want.take(k as int),
        decreases models.len() - k,
    {
        let e = desktop_entry(p.name.as_str(), &models[k]);
        let item = catalog_item_json(&e);
        proof {
            assert(jv(item) == desktop_item(p.name@, models@[k as int]));
        }
        let ghost b = items@;
        items.push(item);
        proof {
            assert(items@.drop_last() =~= b);
            assert(want.take(k + 1) =~= want.take(k as int).push(want[k as int]));
        }
        k += 1;
    }
    proof {
        assert(want.take(k as int) =~= want);
    }
    let mut doc: Vec<(String, Json)> = Vec::new();
    doc.push((owned("models"), Json::Array(items)));
    proof {
        crate::json::lemma_jv_members(doc@);
        assert(jv_members(doc@) =~= seq![("models"@, JsonV::Array(want))]);
    }
    let mut name: Vec<char> = Vec::new();
    push_str(&mut name, p.path_prefix.as_str());
    push_str(&mut name, "-models.json");
    Ok(ModelCatalog { file_name: string_from_chars(&name), content: Json::Object(doc) })
}

/// Whether a text has no hyphen.
pub open spec fn no_hyphen(s: Seq<char>) -> bool {
    !s.contains('-')
}

/// The key Codex Desktop authenticates with: the given one, or else
/// `sk-antigravity-` followed by a fresh random identifier without hyphens.
pub fn bearer_token(api_key: Option<String>) -> (r: String)
    ensures
        match api_key {
            Some(k) => r@ == k@,
            None => {
                &&& has_prefix(r@, "sk-antigravity-"@)
                &&& no_hyphen(r@.skip(15))
                &&& r@.len() <= 51
            },
        },
{
    match api_key {
        Some(k) => k,
        None => {
            let u = str_chars(clock::new_uuid().as_str());
            let mut v: Vec<char> = Vec::new();
            push_str(&mut v, "sk-antigravity-");
            proof {
                reveal_strlit("sk-antigravity-");
                assert(v@.len() == 15);
            }
            let mut i: usize = 0;
            while i < u.len()
                invariant
                    i <= u.len(),
                    u@.len() == 36,
                    v@.len() <= 15 + i,
                    v@.take(15) == "sk-antigravity-"@,
                    v@.len() >= 15,
                    no_hyphen(v@.skip(15)),
                decreases u.len() - i,
            {
                if u[i] != '-' {
                    let ghost b = v@;
                    v.push(u[i]);
                    proof {
                        assert(v@.take(15) =~= b.take(15));
                        assert(v@.skip(15) =~= b.skip(15).push(u[i as int]));
                    }
                }
                i += 1;
            }
            string_from_chars(&v)
        },
    }
}

/// `{"OPENAI_API_KEY": token}`: the `auth.json` Codex Desktop reads its key from.
pub fn auth_json(token: &str) -> (r: Json)
    ensures
        jv(r) == JsonV::Object(seq![("OPENAI_API_KEY"@, JsonV::Str(token@))]),
{
    let mut es: Vec<(String, Json)> = Vec::new();
    es.push((owned("OPENAI_API_KEY"), Json::Str(owned(token))));
    proof {
        crate::json::lemma_jv_members(es@);
        assert(jv_members(es@) =~= seq![("OPENAI_API_KEY"@, JsonV::Str(token@))]);
    }
    Json::Object(es)
}

/// The top-level settings of a Desktop configuration.
pub open spec fn desktop_top_level(model: Seq<char>, catalog_path: Seq<char>) -> Seq<(Seq<char>, SettingView)> {
    seq![
        ("model_provider"@, SettingView::Text("custom"@)),
        ("model"@, SettingView::Text(model)),
        ("model_catalog_json"@, SettingView::Text(catalog_path)),
    ]
}

/// The `[model_providers.custom]` entries of a Desktop configuration.
pub open spec fn desktop_provider(base_url: Seq<char>, token: Seq<char>) -> Seq<(Seq<char>, SettingView)> {
    seq![
        ("name"@, SettingView::Text("custom"@)),
        ("base_url"@, SettingView::Text(base_url)),
        ("wire_api"@, SettingView::Text("responses"@)),
        ("requires_openai_auth"@, SettingView::Flag(true)),
        ("experimental_bearer_token"@, SettingView::Text(token)),
        ("env_key"@, SettingView::Text("OPENAI_API_KEY"@)),
    ]
}

fn setting(k: &str, v: TomlSetting) -> (r: (String, TomlSetting))
    ensures
        r.0@ == k@,
        r.1 == v,
{
    (owned(k), v)
}

/// The Codex Desktop configuration for the platform: the proxy address
/// through the platform's path prefix, the model, the catalog file, the key,
/// and the platform's models for Desktop's model list.
pub fn apply_codex_config(
    config: &AppConfig,
    store: &ModelStore,
    platform_id: &str,
    model_name: &str,
    bearer_token: &str,
    catalog_path: &str,
) -> (r: Result<CodexConfigPlan, String>)
    ensures
        match first_where(config.platforms@, platform_id_is(platform_id@)) {
            None => r matches Err(e) && e@ == platform_not_found(platform_id@),
            Some(i) => r matches Ok(plan) && {
                let p = config.platforms@[i];
                &&& plan.base_url@ == proxy_base_url_of(config.proxy_host@, config.proxy_port, p.path_prefix@)
                &&& settings_view(plan.top_level@) == desktop_top_level(model_name@, catalog_path@)
                &&& settings_view(plan.provider@) == desktop_provider(plan.base_url@, bearer_token@)
                &&& pair_views(plan.provider_models@) == model_pairs(platform_models(store.models@, p.id@))
                &&& plan.config_type@ == "Desktop"@
            },
        },
{
    let i = match find_platform_index(&config.platforms, &owned(platform_id)) {
        Some(i) => i,
        None => return Err(not_found(platform_id)),
    };
    let p = &config.platforms[i];
    let base_url = proxy_base_url(config.proxy_host.as_str(), config.proxy_port, p.path_prefix.as_str());
    let mut top: Vec<(String, TomlSetting)> = Vec::new();
    top.push(setting("model_provider", TomlSetting::Text(owned("custom"))));
    top.push(setting("model", TomlSetting::Text(owned(model_name))));
    top.push(setting("model_catalog_json", TomlSetting::Text(owned(catalog_path))));
    let mut prov: Vec<(String, TomlSetting)> = Vec::new();
    prov.push(setting("name", TomlSetting::Text(owned("custom"))));
    prov.push(setting("base_url", TomlSetting::Text(base_url.clone())));
    prov.push(setting("wire_api", TomlSetting::Text(owned("responses"))));
    prov.push(setting("requires_openai_auth", TomlSetting::Flag(true)));
    prov.push(setting("experimental_bearer_token", TomlSetting::Text(owned(bearer_token))));
    prov.push(setting("env_key", TomlSetting::Text(owned("OPENAI_API_KEY"))));
    proof {
        assert(settings_view(top@) =~= desktop_top_level(model_name@, catalog_path@));
        assert(settings_view(prov@) =~= desktop_provider(base_url@, bearer_token@));
    }
    Ok(CodexConfigPlan {
        top_level: top,
        provider: prov,
        provider_models: provider_models(store, p.id.as_str()),
        base_url,
        config_type: owned("Desktop"),
    })
}

/// The message after the Desktop configuration was written; the two paths
/// are given as they are shown.
pub open spec fn desktop_applied(prefix: Seq<char>, model: Seq<char>, base_url: Seq<char>, config_shown: Seq<char>,
    catalog_shown: Seq<char>, token: Seq<char>) -> Seq<char> {
    "✅ Codex Desktop 配置已应用！\n提供商: custom (通过 /"@ + prefix + "/ 路由)\n默认模型: "@ + model
        + "\n代理地址: "@ + base_url + "\n配置文件: "@ + config_shown + "\n模型目录: "@ + catalog_shown
        + "\nAPI Key: "@ + token + " (已写入 auth.json + config.toml)"@
}

/// The message after the Desktop configuration was written (see [`desktop_applied`]).
pub fn applied_message(path_prefix: &str, model_name: &str, base_url: &str, config_shown: &str, catalog_shown: &str,
    token: &str) -> (r: String)
    ensures
        r@ == desktop_applied(path_prefix@, model_name@, base_url@, config_shown@, catalog_shown@, token@),
{
    let mut v: Vec<char> = Vec::new();
    push_str(&mut v, "✅ Codex Desktop 配置已应用！\n提供商: custom (通过 /");
    push_str(&mut v, path_prefix);
    push_str(&mut v, "/ 路由)\n默认模型: ");
    push_str(&mut v, model_name);
    push_str(&mut v, "\n代理地址: ");
    push_str(&mut v, base_url);
    push_str(&mut v, "\n配置文件: ");
    push_str(&mut v, config_shown);
    push_str(&mut v, "\n模型目录: ");
    push_str(&mut v, catalog_shown);
    push_str(&mut v, "\nAPI Key: ");
    push_str(&mut v, token);
    push_str(&mut v, " (已写入 auth.json + config.toml)");
    string_from_chars(&v)
}

/// Whether an `auth.json` without a backup was written by this application:
/// it mentions `antigravity` (so also `sk-antigravity`).
pub fn written_by_hub(content: &str) -> (r: bool)
    ensures
        r == (contains_seq(content@, "antigravity"@) || contains_seq(content@, "sk-antigravity"@)),
{
    let c = str_chars(content);
    contains_text(&c, "antigravity") || contains_text(&c, "sk-antigravity")
}

/// The message after the Desktop configuration was restored; the path is
/// given as it is shown.
pub fn restored_message(config_shown: &str) -> (r: String)
    ensures
        r@ == "已从备份恢复 Codex Desktop 配置。配置文件: "@ + config_shown@,
{
    let mut v: Vec<char> = Vec::new();
    push_str(&mut v, "已从备份恢复 Codex Desktop 配置。配置文件: ");
    push_str(&mut v, config_shown);
    string_from_chars(&v)
}

/// The comment written above the Desktop configuration.
pub fn desktop_header(applied_at: &str) -> (r: String)
    ensures
        r@ == "# Codex Desktop Configuration\n# Managed by Antigravity Hub\n# Applied at: "@ + applied_at@ + "\n\n"@,
{
    let mut v: Vec<char> = Vec::new();
    push_str(&mut v, "# Codex Desktop Configuration\n# Managed by Antigravity Hub\n# Applied at: ");
    push_str(&mut v, applied_at);
    push_str(&mut v, "\n\n");
    string_from_chars(&v)
}

} // verus!
