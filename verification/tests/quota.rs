use antigravity_hub::models::Model;
use antigravity_hub::quota_window::{
    clean_expired_disabled_at, clean_expired_windows_at, filter_available_keys_at, get_all_window_status_at,
    get_key_usage_at, get_model_usage_at, initialize, record_429_error_at, record_500_error_at, record_api_call_at,
    ModelKeyTracker, QuotaStore, QuotaWindowState, UsageWindow, DAY_SECS, FIVE_HOURS_SECS, MONTH_SECS,
};

fn model(id: &str, platform: &str, p5: u32, day: u32, month: u32) -> Model {
    Model {
        id: id.to_string(),
        platform_id: platform.to_string(),
        model_name: format!("{}-name", id),
        display_name: id.to_string(),
        per_5hour: p5,
        per_day: day,
        per_month: month,
        sort_order: 0,
        created_at: 0,
        max_input_tokens: None,
    }
}

const T0: i64 = 1_700_000_000;

#[test]
fn window_drops_entries_older_than_duration() {
    let mut w = UsageWindow::new();
    w.record(T0, 100);
    w.record(T0 + 50, 100);
    w.record(T0 + 120, 100);
    // the first entry (T0) fell out when T0 + 120 was recorded
    assert_eq!(w.len(), 2);
    assert_eq!(w.window_start(), T0 + 50);
    assert_eq!(w.count_active(T0 + 200, 100), 1);
    assert!(!w.is_empty());
    assert_eq!(w.count_active(T0 + 1000, 100), 0);
    assert!(w.is_empty());
    assert_eq!(w.window_start(), 0);
}

#[test]
fn window_constants() {
    assert_eq!(FIVE_HOURS_SECS, 5 * 3600);
    assert_eq!(DAY_SECS, 86400);
    assert_eq!(MONTH_SECS, 2_592_000);
}

#[test]
fn limit_exceeded_only_above_non_zero_limit() {
    let models = vec![model("m1", "p1", 2, 0, 0)];
    let mut t = ModelKeyTracker::new("k1".into(), "m1".into(), "p1".into());
    t.record_call_at(T0);
    t.record_call_at(T0 + 1);
    assert!(t.get_exceeded_windows(&models).is_empty());
    assert!(t.is_available_at(T0 + 2, &models));
    t.record_call_at(T0 + 2);
    assert_eq!(t.get_exceeded_windows(&models), vec!["5hour".to_string()]);
    assert!(!t.is_available_at(T0 + 3, &models));
}

#[test]
fn unknown_model_has_no_limits() {
    let models: Vec<Model> = Vec::new();
    let t = ModelKeyTracker::new("k1".into(), "gone".into(), "p1".into());
    let l = t.get_limits(&models);
    assert_eq!(l.max_per_5hrs, u32::MAX);
    assert_eq!(l.max_per_day, u32::MAX);
    assert_eq!(l.max_per_month, u32::MAX);
}

#[test]
fn server_errors_back_off_five_seconds_each_capped_at_sixty() {
    let models: Vec<Model> = Vec::new();
    let mut t = ModelKeyTracker::new("k1".into(), "m1".into(), "p1".into());
    t.record_500_at(T0);
    assert_eq!(t.consecutive_500, 1);
    assert_eq!(t.disabled_until, Some(T0 + 5));
    assert_eq!(t.disabled_reason.as_deref(), Some("Server error (500 x1) - retry after 5s"));
    assert!(!t.is_available_at(T0 + 4, &models));
    assert!(t.is_available_at(T0 + 5, &models));
    for i in 0..20 {
        t.record_500_at(T0 + i);
    }
    assert_eq!(t.consecutive_500, 21);
    assert_eq!(t.disabled_until, Some(T0 + 19 + 60));
    t.record_success();
    assert_eq!(t.consecutive_500, 0);
}

#[test]
fn rate_limit_does_not_disable() {
    let models: Vec<Model> = Vec::new();
    let mut t = ModelKeyTracker::new("k1".into(), "m1".into(), "p1".into());
    t.record_429_at(T0);
    t.record_429_at(T0 + 1);
    assert_eq!(t.consecutive_429, 2);
    assert_eq!(t.last_429_time, T0 + 1);
    assert!(t.is_available_at(T0 + 1, &models));
}

#[test]
fn store_records_calls_and_errors_per_pair() {
    let mut store = QuotaStore::new(QuotaWindowState::default());
    assert!(store.state.auto_switch_enabled);
    record_api_call_at(&mut store, "k1", "m1", "p1", T0);
    record_api_call_at(&mut store, "k1", "m1", "p1", T0 + 1);
    record_429_error_at(&mut store, "k2", "m1", "p1", T0 + 2);
    record_500_error_at(&mut store, "k2", "m1", "p1", T0 + 3);
    assert_eq!(store.state.trackers.len(), 2);
    assert_eq!(store.state.trackers[0].day.len(), 2);
    assert_eq!(store.state.trackers[1].consecutive_429, 1);
    assert_eq!(store.state.trackers[1].consecutive_500, 1);
    assert!(store.dirty);
    assert!(store.should_flush(T0 + 30));
    store.clear_dirty(T0 + 30);
    assert!(!store.should_flush(T0 + 100));
}

#[test]
fn filter_keeps_fresh_keys_and_drops_backed_off_ones() {
    let models = vec![model("m1", "p1", 0, 0, 0)];
    let mut store = QuotaStore::new(QuotaWindowState::default());
    record_500_error_at(&mut store, "k2", "m1", "p1", T0);
    let cands = vec!["k1".to_string(), "k2".to_string(), "k3".to_string()];
    let kept = filter_available_keys_at(&mut store, &cands, "m1", T0 + 1, &models);
    assert_eq!(kept, vec!["k1".to_string(), "k3".to_string()]);
    let later = filter_available_keys_at(&mut store, &cands, "m1", T0 + 10, &models);
    assert_eq!(later, cands);
}

#[test]
fn expired_back_off_is_lifted() {
    let mut store = QuotaStore::new(QuotaWindowState::default());
    record_500_error_at(&mut store, "k2", "m1", "p1", T0);
    assert!(clean_expired_disabled_at(&mut store, T0 + 1).is_empty());
    assert_eq!(clean_expired_disabled_at(&mut store, T0 + 5), vec!["k2".to_string()]);
    assert_eq!(store.state.trackers[0].disabled_until, None);
    assert_eq!(store.state.trackers[0].disabled_reason, None);
}

#[test]
fn status_reports_windows_and_limits() {
    let models = vec![model("m1", "p1", 10, 20, 30)];
    let mut store = QuotaStore::new(QuotaWindowState::default());
    record_api_call_at(&mut store, "k1", "m1", "p1", T0);
    record_api_call_at(&mut store, "k1", "m1", "p1", T0 + 7);
    let all = get_all_window_status_at(&mut store, T0 + 10, &models);
    assert_eq!(all.len(), 1);
    assert_eq!(all[0].key_id, "k1");
    assert_eq!(all[0].five_hour.count, 2);
    assert_eq!(all[0].five_hour.max, 10);
    assert_eq!(all[0].five_hour.window_start, T0);
    assert_eq!(all[0].day.max, 20);
    assert_eq!(all[0].month.max, 30);
    assert!(all[0].is_available);
    // six hours later the 5-hour window is empty again
    let all = get_all_window_status_at(&mut store, T0 + 6 * 3600, &models);
    assert_eq!(all[0].five_hour.count, 0);
    assert_eq!(all[0].five_hour.window_start, 0);
    assert_eq!(all[0].day.count, 2);
    clean_expired_windows_at(&mut store, T0 + 40 * 86400);
    assert_eq!(store.state.trackers[0].month.len(), 0);
}

#[test]
fn key_usage_of_unknown_pair_is_empty() {
    let models: Vec<Model> = Vec::new();
    let mut store = QuotaStore::new(QuotaWindowState::default());
    let u = get_key_usage_at(&mut store, "k9", "m9", T0, &models);
    assert_eq!(u.key_id, "k9");
    assert_eq!(u.model_id, "m9");
    assert_eq!(u.key_name, "");
    assert!(!u.disabled);
    assert!(u.is_available);
    assert_eq!(u.five_hour.count, 0);
    assert_eq!(u.five_hour.max, 0);
}

#[test]
fn key_and_model_usage() {
    let models = vec![model("m1", "p1", 1, 0, 0)];
    let mut store = QuotaStore::new(QuotaWindowState::default());
    record_api_call_at(&mut store, "k1", "m1", "p1", T0);
    record_api_call_at(&mut store, "k1", "m1", "p1", T0 + 1);
    record_api_call_at(&mut store, "k2", "m2", "p1", T0 + 2);
    record_api_call_at(&mut store, "k3", "m1", "p1", T0 + 3);
    let u = get_key_usage_at(&mut store, "k1", "m1", T0 + 5, &models);
    assert_eq!(u.key_name, "k1");
    assert!(u.disabled);
    assert!(!u.is_available);
    assert_eq!(u.five_hour.count, 2);
    let per_model = get_model_usage_at(&mut store, "m1", T0 + 5, &models);
    assert_eq!(per_model.len(), 2);
    assert_eq!(per_model[0].key_id, "k1");
    assert_eq!(per_model[1].key_id, "k3");
    assert!(per_model[1].is_available);
}

#[test]
fn initialize_installs_loaded_state_or_default() {
    let mut store = QuotaStore::new(QuotaWindowState::default());
    record_api_call_at(&mut store, "k1", "m1", "p1", T0);
    let loaded = QuotaWindowState { trackers: Vec::new(), auto_switch_enabled: false };
    initialize(&mut store, Ok(loaded));
    assert!(store.state.trackers.is_empty());
    assert!(!store.state.auto_switch_enabled);
    initialize(&mut store, Err("read quota windows failed".to_string()));
    assert!(store.state.auto_switch_enabled);
}

#[test]
fn each_error_path_is_bounded_by_its_own_counter() {
    let mut store = QuotaStore::new(QuotaWindowState::default());
    record_500_error_at(&mut store, "k1", "m1", "p1", T0);
    assert!(antigravity_hub::quota_window::can_record_429(&store, "k1", "m1"));
    assert!(antigravity_hub::quota_window::can_record_500(&store, "k1", "m1"));
    store.state.trackers[0].consecutive_500 = u32::MAX / 5;
    assert!(!antigravity_hub::quota_window::can_record_500(&store, "k1", "m1"));
    // a full 500 counter does not stop a rate-limit answer from being counted
    assert!(antigravity_hub::quota_window::can_record_429(&store, "k1", "m1"));
    record_429_error_at(&mut store, "k1", "m1", "p1", T0 + 1);
    assert_eq!(store.state.trackers[0].consecutive_429, 1);
    store.state.trackers[0].consecutive_429 = u32::MAX;
    assert!(!antigravity_hub::quota_window::can_record_429(&store, "k1", "m1"));
    assert!(antigravity_hub::quota_window::can_record_429(&store, "k2", "m1"));
}
