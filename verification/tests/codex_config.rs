use antigravity_hub::codex_desktop::{
    apply_codex_config as desktop_apply, applied_message, auth_json, bearer_token, desktop_entry, desktop_header,
    desktop_status, generate_model_catalog as desktop_catalog, restored_message, written_by_hub,
};
use antigravity_hub::codex_integration::{
    catalog_entry, catalog_item_json, clear_auth_result, codex_status, generate_model_catalog, header, prefix_models,
    provider_models, restore_result, status_from, TomlSetting,
};
use antigravity_hub::codex_toml::{config_text, merge_plan, parse_toml, print_toml, ConfigTextError};
use antigravity_hub::json::print;
use antigravity_hub::model_manager::ModelStore;
use antigravity_hub::models::{AppConfig, Model, Platform};

fn value(j: &antigravity_hub::json::Json) -> serde_json::Value {
    serde_json::from_str(&print(j)).unwrap()
}

fn strs(v: &serde_json::Value) -> Vec<&str> {
    v.as_array().unwrap().iter().map(|x| x.as_str().unwrap()).collect()
}

fn setup() -> (AppConfig, ModelStore) {
    let mut config = AppConfig::new();
    config.proxy_host = "0.0.0.0".to_string();
    config.proxy_port = 8045;
    config.platforms.push(Platform::new("p1".into(), "SenseNova".into(), "https://api.example".into(), "sensenova".into()));
    let mut big = Model::new("p1".into(), "nova-pro".into(), "Nova Pro".into());
    big.max_input_tokens = Some(1_000_000);
    big.sort_order = 1;
    let small = Model::new("p1".into(), "nova-lite".into(), "Nova Lite".into());
    let other = Model::new("p2".into(), "elsewhere".into(), "Elsewhere".into());
    (config, ModelStore { models: vec![big, small, other] })
}

#[test]
fn cli_catalog_sizes_each_model() {
    let (config, store) = setup();
    let cat = generate_model_catalog(&config, &store, "sensenova").unwrap();
    assert_eq!(cat.file_name, "sensenova-models.json");
    let v = value(&cat.content);
    let models = v["models"].as_array().unwrap();
    assert_eq!(models.len(), 2);
    // sort order: the default model (order 0) first
    assert_eq!(models[0]["model"], "nova-lite");
    assert_eq!(models[0]["display_name"], "SenseNova / Nova Lite");
    assert_eq!(models[0]["context_window"], 128000);
    assert_eq!(models[0]["auto_compact_token_limit"], 64000);
    assert_eq!(models[0]["effective_context_window_percent"], 95);
    assert_eq!(models[0]["truncation_policy"]["limit"], 10000);
    assert_eq!(strs(&models[0]["input_modalities"]), vec!["text", "image"]);
    assert_eq!(models[1]["model"], "nova-pro");
    assert_eq!(models[1]["slug"], "nova-pro");
    assert_eq!(models[1]["context_window"], 1_000_000);
    assert_eq!(models[1]["auto_compact_token_limit"], 200000);
    assert_eq!(models[1]["effective_context_window_percent"], 90);
    assert_eq!(models[1]["truncation_policy"]["limit"], 50000);
    assert_eq!(models[1]["truncation_policy"]["mode"], "tokens");
    assert_eq!(strs(&models[1]["input_modalities"]), vec!["text", "image", "audio"]);
    assert_eq!(models[1]["priority"], 10);
    assert_eq!(models[1]["visibility"], "list");
    assert_eq!(models[1]["supported_in_api"], true);
}

#[test]
fn cli_catalog_unknown_prefix() {
    let (config, store) = setup();
    let e = generate_model_catalog(&config, &store, "nowhere").unwrap_err();
    assert_eq!(e, "Platform with path_prefix 'nowhere' not found in config");
}

#[test]
fn catalog_item_matches_entry() {
    let (_, store) = setup();
    let e = catalog_entry("X", &store.models[0]);
    let v = value(&catalog_item_json(&e));
    assert_eq!(v["max_context_window"], 1_000_000);
    assert_eq!(v["description"], "nova-pro");
    assert_eq!(v.as_object().unwrap().len(), 24);
}

#[test]
fn desktop_catalog_uses_fixed_sizes() {
    let (config, mut store) = setup();
    store.models[0].max_input_tokens = Some(400_000);
    let cat = desktop_catalog(&config, &store, "p1").unwrap();
    assert_eq!(cat.file_name, "sensenova-models.json");
    let v = value(&cat.content);
    let models = v["models"].as_array().unwrap();
    assert_eq!(models[1]["auto_compact_token_limit"], 196608);
    assert_eq!(models[1]["effective_context_window_percent"], 95);
    assert_eq!(models[1]["truncation_policy"]["limit"], 10000);
    assert_eq!(models[0]["auto_compact_token_limit"], 64000);
    assert_eq!(desktop_catalog(&config, &store, "zz").unwrap_err(), "Platform not found: zz");
    let e = desktop_entry("N", &store.models[1]);
    assert_eq!(e.input_modalities, vec!["text".to_string(), "image".to_string()]);
}

#[test]
fn bearer_token_given_or_generated() {
    assert_eq!(bearer_token(Some("sk-mine".into())), "sk-mine");
    let t = bearer_token(None);
    assert!(t.starts_with("sk-antigravity-"));
    assert_eq!(t.len(), 15 + 32);
    assert!(!t[15..].contains('-'));
    assert_ne!(t, bearer_token(None));
}

#[test]
fn auth_json_holds_the_key() {
    assert_eq!(print(&auth_json("sk-1")), r#"{"OPENAI_API_KEY":"sk-1"}"#);
}

#[test]
fn desktop_plan_points_at_the_proxy() {
    let (config, store) = setup();
    let plan = desktop_apply(&config, &store, "p1", "nova-pro", "sk-1", "/c/sensenova-models.json").unwrap();
    assert_eq!(plan.base_url, "http://127.0.0.1:8045/sensenova/v1");
    assert_eq!(plan.config_type, "Desktop");
    let top: Vec<&str> = plan.top_level.iter().map(|(k, _)| k.as_str()).collect();
    assert_eq!(top, vec!["model_provider", "model", "model_catalog_json"]);
    let prov: Vec<&str> = plan.provider.iter().map(|(k, _)| k.as_str()).collect();
    assert_eq!(prov, vec!["name", "base_url", "wire_api", "requires_openai_auth", "experimental_bearer_token", "env_key"]);
    assert!(matches!(plan.provider[3].1, TomlSetting::Flag(true)));
    assert!(matches!(&plan.provider[4].1, TomlSetting::Text(t) if t == "sk-1"));
    assert_eq!(plan.provider_models, vec![
        ("nova-lite".to_string(), "Nova Lite".to_string()),
        ("nova-pro".to_string(), "Nova Pro".to_string()),
    ]);
    assert_eq!(desktop_apply(&config, &store, "zz", "m", "k", "c").unwrap_err(), "Platform not found: zz");
}

#[test]
fn model_lists_by_id_and_prefix() {
    let (config, store) = setup();
    assert_eq!(provider_models(&store, "p2"), vec![("elsewhere".to_string(), "Elsewhere".to_string())]);
    assert_eq!(prefix_models(&config, &store, "sensenova").len(), 2);
    assert!(prefix_models(&config, &store, "none").is_empty());
}

#[test]
fn desktop_messages() {
    let m = applied_message("sensenova", "nova", "http://127.0.0.1:8045/sensenova/v1", "\"/c/config.toml\"", "\"/c/x.json\"", "sk-1");
    assert_eq!(m, "✅ Codex Desktop 配置已应用！\n提供商: custom (通过 /sensenova/ 路由)\n默认模型: nova\n代理地址: http://127.0.0.1:8045/sensenova/v1\n配置文件: \"/c/config.toml\"\n模型目录: \"/c/x.json\"\nAPI Key: sk-1 (已写入 auth.json + config.toml)");
    assert_eq!(restored_message("\"/c/config.toml\""), "已从备份恢复 Codex Desktop 配置。配置文件: \"/c/config.toml\"");
    assert_eq!(desktop_header("2024-01-02 03:04:05"), "# Codex Desktop Configuration\n# Managed by Antigravity Hub\n# Applied at: 2024-01-02 03:04:05\n\n");
    assert!(written_by_hub(r#"{"OPENAI_API_KEY":"sk-antigravity-abc"}"#));
    assert!(!written_by_hub(r#"{"OPENAI_API_KEY":"sk-other"}"#));
}

#[test]
fn desktop_status_reports() {
    let s = desktop_status("\"/h/.codex\"", false, "/h/.codex/config.toml".into(), true, None);
    assert!(!s.installed && s.config_path.is_none() && !s.has_backup);
    assert_eq!(s.message, "Codex directory not found at \"/h/.codex\"");
    let s = desktop_status("\"/h/.codex\"", true, "/h/.codex/config.toml".into(), true, Some("a = 1\nversion = \"0.9\"\n".into()));
    assert_eq!(s.version.as_deref(), Some("0.9"));
    assert_eq!(s.config_path.as_deref(), Some("/h/.codex/config.toml"));
    assert_eq!(s.message, "Codex CLI/Desktop detected.");
}

#[test]
fn cli_status_preview_and_detection() {
    let long = format!("[model_providers.custom]\nbase_url = \"http://localhost:8045/p/v1\"\n# {}", "x".repeat(600));
    let s = codex_status(true, Some("/c".into()), false, Some(long));
    assert_eq!(s.current_config_preview.unwrap().chars().count(), 500);
    assert!(s.is_antigravity_configured);
    let s = codex_status(true, Some("/c".into()), false, Some("[model_providers.custom]\nbase_url = \"https://api.openai.com/v1\"\n".into()));
    assert!(!s.is_antigravity_configured);
    let s = codex_status(true, Some("/c".into()), false, Some("a".into()));
    assert!(!s.is_antigravity_configured);
    assert_eq!(s.current_config_preview.as_deref(), Some("a"));
    let s = codex_status(false, None, false, None);
    assert!(s.current_config_preview.is_none() && !s.is_antigravity_configured);
    let doc = parse_toml("[model_providers.custom]\nbase_url = \"http://127.0.0.1:1/x\"\n").unwrap();
    assert!(status_from(true, None, false, Some("t".into()), Some(doc)).is_antigravity_configured);
    let doc = parse_toml("[model_providers.custom]\nbase_url = \"http://127.0.0.1:1/x\"\n").unwrap();
    assert!(!status_from(true, None, false, None, Some(doc)).is_antigravity_configured);
}

fn cli_plan() -> antigravity_hub::codex_integration::CodexConfigPlan {
    antigravity_hub::codex_integration::apply_codex_config(
        "0.0.0.0", 8045, "openai", "gpt-4o", Some("high"), Some(true), Some("sk-1"), None, Vec::new(),
    )
    .unwrap()
}

#[test]
fn merged_config_keeps_other_settings() {
    let existing = "approval_policy = \"never\"\nmodel = \"old\"\n\n[model_providers.other]\nname = \"other\"\n\n[model_providers.custom]\nname = \"stale\"\nextra = 1\n";
    let text = config_text(Some(existing), &cli_plan(), true).unwrap();
    let v: toml::Table = text.parse().unwrap();
    assert_eq!(v["approval_policy"].as_str(), Some("never"));
    assert_eq!(v["model"].as_str(), Some("gpt-4o"));
    assert_eq!(v["model_provider"].as_str(), Some("custom"));
    assert_eq!(v["preferred_auth_method"].as_str(), Some("apikey"));
    assert_eq!(v["disable_response_storage"].as_bool(), Some(true));
    assert_eq!(v["model_reasoning_effort"].as_str(), Some("high"));
    let providers = v["model_providers"].as_table().unwrap();
    assert_eq!(providers["other"]["name"].as_str(), Some("other"));
    let custom = providers["custom"].as_table().unwrap();
    assert_eq!(custom["name"].as_str(), Some("custom"));
    assert_eq!(custom["base_url"].as_str(), Some("http://127.0.0.1:8045/openai/v1"));
    assert_eq!(custom["wire_api"].as_str(), Some("responses"));
    assert_eq!(custom["requires_openai_auth"].as_bool(), Some(false));
    assert_eq!(custom["api_key"].as_str(), Some("sk-1"));
    assert!(custom.get("extra").is_none());
    let fresh = config_text(Some(existing), &cli_plan(), false).unwrap();
    let v: toml::Table = fresh.parse().unwrap();
    assert!(v["model_providers"].as_table().unwrap().get("other").is_none());
}

#[test]
fn merged_config_errors_and_models() {
    match config_text(Some("not = = toml"), &cli_plan(), true) {
        Err(ConfigTextError::Unparsable(m)) => assert!(!m.is_empty()),
        other => panic!("expected a parse error, got {:?}", other),
    }
    let (config, store) = setup();
    let plan = desktop_apply(&config, &store, "p1", "nova-pro", "sk-1", "/c/m.json").unwrap();
    let text = config_text(None, &plan, false).unwrap();
    let v: toml::Table = text.parse().unwrap();
    assert_eq!(v["model_catalog_json"].as_str(), Some("/c/m.json"));
    let custom = v["model_providers"]["custom"].as_table().unwrap();
    assert_eq!(custom["experimental_bearer_token"].as_str(), Some("sk-1"));
    let models = custom["models"].as_array().unwrap();
    assert_eq!(models.len(), 2);
    assert_eq!(models[0]["model"].as_str(), Some("nova-lite"));
    assert_eq!(models[0]["display_name"].as_str(), Some("Nova Lite"));
}

#[test]
fn toml_values_round_trip() {
    let doc = parse_toml("a = 1.5\nb = 1979-05-27T07:32:00Z\nc = [1, \"x\", true]\n[t]\nd = -3\n").unwrap();
    let text = print_toml(&doc).unwrap();
    let v: toml::Table = text.parse().unwrap();
    assert_eq!(v["a"].as_float(), Some(1.5));
    assert_eq!(v["b"].as_datetime().unwrap().to_string(), "1979-05-27T07:32:00Z");
    assert_eq!(v["c"].as_array().unwrap().len(), 3);
    assert_eq!(v["t"]["d"].as_integer(), Some(-3));
    let copy = merge_plan(doc, &cli_plan(), true);
    assert!(copy.iter().any(|(k, _)| k == "t"));
}

#[test]
fn cli_results() {
    let r = restore_result("/c".into());
    assert!(r.success);
    assert_eq!(r.message, "Configuration restored from backup.");
    let r = clear_auth_result(&vec![], "/c".into());
    assert_eq!(r.message, "No OAuth data found to clear. Config is clean.");
    let r = clear_auth_result(&vec!["Deleted /c/auth.json".into(), "Deleted /c/sqlite".into()], "/c".into());
    assert_eq!(r.message, "Codex OAuth data cleared successfully!\n\nCleared:\nDeleted /c/auth.json\nDeleted /c/sqlite");
    assert_eq!(header("CLI", "T"), "# Codex CLI Configuration\n# Managed by Antigravity Hub\n# Applied at: T\n# To revert, delete this file or restore the backup.\n\n");
}
