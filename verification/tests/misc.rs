use antigravity_hub::codex_desktop::detect_version;
use antigravity_hub::codex_integration::{
    calc_auto_compact, calc_effective_pct, calc_truncation_limit, is_antigravity_base_url, proxy_base_url,
    validate_params, validate_reasoning_effort, DEFAULT_CONTEXT_WINDOW,
};
use antigravity_hub::i18n::{get_tray_texts, locale_file_name, locale_for_language, Locale};
use antigravity_hub::log_bridge::key_switched_event;
use antigravity_hub::token_stats::{
    get_platform_summary, get_summary, record_streaming_for_platform_at, record_usage_for_platform_at, reset,
    TokenStatsStore, SAVE_THROTTLE_SECS,
};

#[test]
fn token_counters_aggregate_and_per_platform() {
    let mut store = TokenStatsStore::new();
    assert!(record_usage_for_platform_at(&mut store, Some("p1"), 10, 5, 100));
    assert!(!record_usage_for_platform_at(&mut store, Some("p2"), 1, 1, 102));
    assert!(!record_streaming_for_platform_at(&mut store, Some("p1"), 104));
    assert!(record_usage_for_platform_at(&mut store, None, 2, 3, 100 + SAVE_THROTTLE_SECS));
    let s = get_summary(&store);
    assert_eq!(s.prompt_tokens, 13);
    assert_eq!(s.completion_tokens, 9);
    assert_eq!(s.total_tokens, 22);
    assert_eq!(s.request_count, 4);
    assert_eq!(s.streaming_request_count, 1);
    assert_eq!(s.first_request_at, 100);
    assert_eq!(s.last_updated, 105);
    let per = get_platform_summary(&store);
    assert_eq!(per.len(), 2);
    assert_eq!(per[0].0, "p1");
    assert_eq!(per[0].1.request_count, 2);
    assert_eq!(per[0].1.streaming_request_count, 1);
    assert_eq!(per[1].1.total_tokens, 2);
    reset(&mut store);
    assert_eq!(get_summary(&store).request_count, 0);
    assert!(get_platform_summary(&store).is_empty());
}

#[test]
fn token_counters_saturate() {
    let mut store = TokenStatsStore::new();
    record_usage_for_platform_at(&mut store, None, u64::MAX - 1, 1, 1);
    record_usage_for_platform_at(&mut store, None, 5, 0, 2);
    assert_eq!(get_summary(&store).prompt_tokens, u64::MAX);
    assert_eq!(get_summary(&store).total_tokens, u64::MAX);
}

#[test]
fn locales_by_language_prefix() {
    assert!(matches!(locale_for_language("en-US"), Locale::En));
    assert!(matches!(locale_for_language("JA"), Locale::Ja));
    assert!(matches!(locale_for_language("zh-TW"), Locale::ZhTw));
    assert!(matches!(locale_for_language("ms-MY"), Locale::My));
    assert!(matches!(locale_for_language("fr"), Locale::Zh));
    assert_eq!(locale_file_name(Locale::ZhTw), "zh-TW.json");
    assert_eq!(locale_file_name(Locale::Pt), "pt.json");
}

#[test]
fn tray_texts_fall_back_to_english() {
    let tray = vec![
        ("quit".to_string(), "Beenden".to_string()),
        ("current".to_string(), "Aktuell".to_string()),
        ("quit".to_string(), "Schließen".to_string()),
    ];
    let t = get_tray_texts(&tray);
    assert_eq!(t.quit, "Schließen");
    assert_eq!(t.current, "Aktuell");
    assert_eq!(t.quota, "Quota");
    assert_eq!(t.switch_next, "Switch to Next Account");
    assert_eq!(t.forbidden, "Account Forbidden");
}

#[test]
fn codex_parameter_checks() {
    assert!(validate_params("127.0.0.1", 8080, "openai", "gpt").is_ok());
    assert_eq!(validate_params("", 8080, "openai", "gpt").unwrap_err(), "Proxy host cannot be empty");
    assert_eq!(validate_params("h", 0, "openai", "gpt").unwrap_err(), "Proxy port must be between 1 and 65535");
    assert_eq!(validate_params("h", 1, "", "gpt").unwrap_err(), "Path prefix cannot be empty");
    assert_eq!(
        validate_params("h", 1, "a/b", "gpt").unwrap_err(),
        "Path prefix must not contain slashes, backslashes, or spaces"
    );
    assert_eq!(validate_params("h", 1, "ab", "").unwrap_err(), "Model name cannot be empty");
    assert!(validate_reasoning_effort(None).is_ok());
    assert!(validate_reasoning_effort(Some("medium")).is_ok());
    assert_eq!(
        validate_reasoning_effort(Some("max")).unwrap_err(),
        "Invalid model_reasoning_effort 'max'. Must be one of: low, medium, high"
    );
}

#[test]
fn codex_context_window_settings() {
    assert_eq!(DEFAULT_CONTEXT_WINDOW, 128000);
    assert_eq!(calc_auto_compact(100_000), 50_000);
    assert_eq!(calc_auto_compact(128_000), 64_000);
    assert_eq!(calc_auto_compact(200_000), 100_000);
    assert_eq!(calc_auto_compact(1_000_000), 200_000);
    assert_eq!(calc_auto_compact(1_200_000), 300_000);
    assert_eq!(calc_auto_compact(4_000_000), 500_000);
    assert_eq!(calc_effective_pct(1_000_000), 90);
    assert_eq!(calc_effective_pct(200_000), 92);
    assert_eq!(calc_effective_pct(128_000), 95);
    assert_eq!(calc_truncation_limit(2_000_000), 50_000);
    assert_eq!(calc_truncation_limit(300_000), 20_000);
    assert_eq!(calc_truncation_limit(1_000), 10_000);
}

#[test]
fn codex_base_url() {
    assert_eq!(proxy_base_url("0.0.0.0", 8080, "openai"), "http://127.0.0.1:8080/openai/v1");
    assert_eq!(proxy_base_url("192.168.1.2", 9000, "x"), "http://192.168.1.2:9000/x/v1");
    assert!(is_antigravity_base_url("http://localhost:8080/openai/v1"));
    assert!(!is_antigravity_base_url("https://api.openai.com/v1"));
}

#[test]
fn desktop_version_from_config() {
    assert_eq!(detect_version("model = \"x\"\nversion = \"1.2.3\"\n"), Some("1.2.3".to_string()));
    assert_eq!(detect_version("model = \"x\"\n"), None);
    assert_eq!(key_switched_event(), "key-switched");
}

#[test]
fn translations_take_the_tray_strings() {
    let doc = r#"{"tray":{"quit":"Beenden","count":3,"current":"Aktuell"},"other":{"quit":"x"}}"#;
    let entries = antigravity_hub::i18n::load_translations(doc);
    assert_eq!(entries, vec![
        ("current".to_string(), "Aktuell".to_string()),
        ("quit".to_string(), "Beenden".to_string()),
    ]);
    let texts = get_tray_texts(&entries);
    assert_eq!(texts.quit, "Beenden");
    assert_eq!(texts.quota, "Quota");
    assert!(antigravity_hub::i18n::load_translations("not json").is_empty());
    assert!(antigravity_hub::i18n::load_translations(r#"{"tray":[]}"#).is_empty());
}
