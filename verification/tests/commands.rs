use antigravity_hub::commands::validate_path;
use antigravity_hub::json;
use antigravity_hub::model_manager::{add_model_sized, ModelStore};
use antigravity_hub::models::{AppConfig, Platform};
use antigravity_hub::upstream_models::models_list;

#[test]
fn validate_path_refuses_traversal_and_system_paths() {
    assert_eq!(validate_path("/home/u/../etc/passwd"), Err("非法路径: 不允许目录遍历".to_string()));
    assert_eq!(validate_path("/etc/hosts"), Err("安全拒绝: 禁止访问系统敏感路径 (/etc/)".to_string()));
    assert_eq!(
        validate_path("C:\\Windows\\system32"),
        Err("安全拒绝: 禁止访问系统敏感路径 (c:\\windows)".to_string()),
        "compared in lower case"
    );
    assert_eq!(validate_path("/home/u/export.json"), Ok(()));
    assert_eq!(validate_path(""), Ok(()));
}

#[test]
fn models_list_lists_configured_models_by_platform() {
    let mut config = AppConfig::new();
    config.platforms.push(Platform::new("p1".to_string(), "One".to_string(), "https://a".to_string(), "one".to_string()));
    let mut store = ModelStore::new();
    add_model_sized(&mut store, "p1".to_string(), "m-b".to_string(), "B".to_string(), None, None, None, Some(4096)).unwrap();
    add_model_sized(&mut store, "other".to_string(), "hidden".to_string(), "H".to_string(), None, None, None, None).unwrap();
    let text = json::print(&models_list(&config, &store));
    assert!(text.contains("\"object\":\"list\""));
    assert!(text.contains("\"id\":\"m-b\""));
    assert!(text.contains("\"owned_by\":\"p1\""));
    assert!(text.contains("\"max_input_tokens\":4096"));
    assert!(!text.contains("hidden"), "models of unconfigured platforms are not listed");
}
