use ai_strategist::auth::AuthSnapshot;
use ai_strategist::bootstrap_cache::{
    store_installed_skills, store_mcp_servers, store_usage_analytics, BootstrapStatePayload,
    UsageAnalyticsPayload,
};
use ai_strategist::models::{McpServerListPayload, SkillListPayload};
use ai_strategist::models::{AuthMode, FirstRunCheckItemPayload, PlanType, UsageSource};
use ai_strategist::paths::CodexPaths;
use ai_strategist::quota_store::{find_item, upsert_item, QuotaStoreFile, QuotaStoreItem, RateLimitWindow};
use ai_strategist::models::{AutoSwitchRuntimeState, CoreError};
use ai_strategist::registry::{
    auto_switch_status, configure_auto_switch, needs_daemon_repair, set_auto_switch_enabled,
    carry_over_registry_state, clean_registry, diagnostics_bundle_file_name, empty_registry,
    helper_tool_availability, history_backups_to_remove, latest_failure_summary,
    local_state_warnings, make_snapshot_path, new_registry_item, prepare_registry_for_save,
    prev_item, rebuild_registry_state, registry_backup_file_name, retain_quota_for_registry,
    snapshot_file_name_exec, sync_current_auth_into_registry, sync_legacy_registry_quota_into_store,
    RegistryFile, RegistryItem, REGISTRY_SCHEMA_VERSION,
};
use ai_strategist::repository::{ApiConfig, AutoSwitchConfig};

fn snapshot(key: &str, email: &str) -> AuthSnapshot {
    AuthSnapshot {
        account_key: key.to_string(),
        email: email.to_string(),
        account_name: None,
        workspace_name: None,
        profile_name: None,
        plan: PlanType::Unknown,
        auth_mode: AuthMode::Chatgpt,
        created_at: 100,
    }
}

fn window(percent: f64) -> RateLimitWindow {
    RateLimitWindow {
        used_percent_bits: percent.to_bits(),
        remaining_percent: 60,
        window_minutes: Some(300),
        resets_at: Some(5000),
    }
}

fn registry(items: Vec<RegistryItem>, active: Option<&str>) -> RegistryFile {
    RegistryFile {
        schema_version: 1,
        updated_at: 1,
        active_account_key: active.map(str::to_string),
        items,
        auto_switch: None,
        api: None,
    }
}

fn keys(r: &RegistryFile) -> Vec<String> {
    r.items.iter().map(|i| i.account_key.clone()).collect()
}

#[test]
fn snapshot_file_name_replaces_path_characters() {
    assert_eq!(snapshot_file_name_exec("user@example.com/ws:1"), "user_example.com_ws_1.json");
    let mut paths = CodexPaths::new(Some("/tmp/codex-home".to_string()), false);
    paths.snapshots_dir = "/tmp/snaps".to_string();
    assert_eq!(make_snapshot_path(&paths, "a@b"), "/tmp/snaps/a_b.json");
}

#[test]
fn new_item_writes_plan_and_mode_in_lower_case() {
    let mut s = snapshot("k", "e@x");
    s.plan = PlanType::Pro20x;
    s.auth_mode = AuthMode::Apikey;
    let item = new_registry_item(&s, "/p/k.json", Some(7));
    assert_eq!(item.plan, "pro20x");
    assert_eq!(item.auth_mode, "apikey");
    assert_eq!(item.alias, "");
    assert_eq!(item.last_used_at, Some(7));
    assert_eq!(item.snapshot_path, "/p/k.json");
}

#[test]
fn carry_over_keeps_alias_subscription_and_latest_use() {
    let mut prev = new_registry_item(&snapshot("k", "e@x"), "/old", Some(500));
    prev.alias = "work".to_string();
    prev.account_name = Some("Team".to_string());
    prev.has_active_subscription = Some(true);
    prev.last_usage_at = Some(40);
    prev.cached_primary_window = Some(window(12.5));
    let mut item = new_registry_item(&snapshot("k", "e@x"), "/new", Some(300));
    carry_over_registry_state(&mut item, Some(&prev));
    assert_eq!(item.alias, "work");
    assert_eq!(item.account_name, Some("Team".to_string()));
    assert_eq!(item.has_active_subscription, Some(true));
    assert_eq!(item.last_used_at, Some(500));
    assert_eq!(item.last_usage_at, Some(40));
    assert!(item.cached_primary_window.is_some());
    assert_eq!(item.snapshot_path, "/new");

    let mut again = item.clone();
    carry_over_registry_state(&mut again, Some(&prev));
    assert_eq!(again.alias, item.alias);
    assert_eq!(again.last_used_at, item.last_used_at);
    assert_eq!(again.account_name, item.account_name);

    let mut untouched = new_registry_item(&snapshot("k", "e@x"), "/new", None);
    carry_over_registry_state(&mut untouched, None);
    assert_eq!(untouched.last_used_at, None);
}

#[test]
fn prev_item_finds_the_first_entry_for_a_key() {
    let mut a = new_registry_item(&snapshot("k", "a@x"), "/a", None);
    a.alias = "first".to_string();
    let mut b = new_registry_item(&snapshot("k", "b@x"), "/b", None);
    b.alias = "second".to_string();
    let r = registry(vec![a, b], None);
    assert_eq!(prev_item(Some(&r), "k").unwrap().alias, "first");
    assert!(prev_item(Some(&r), "other").is_none());
    assert!(prev_item(None, "k").is_none());
}

#[test]
fn rebuild_orders_by_email_and_keeps_the_current_login_active() {
    let mut old = new_registry_item(&snapshot("k1", "B@x"), "/old", Some(900));
    old.alias = "main".to_string();
    let mut prev = registry(vec![old], Some("k1"));
    prev.auto_switch = Some(AutoSwitchConfig { enabled: true, threshold_5h_percent: 20, threshold_weekly_percent: 5 });
    let current = Some((snapshot("k1", "B@x"), "/snaps/k1.json".to_string()));
    let found = vec![
        (snapshot("k1", "B@x"), "/snaps/dup.json".to_string()),
        (snapshot("k2", "a@x"), "/snaps/k2.json".to_string()),
    ];
    let r = rebuild_registry_state(Some(&prev), current, found, 1000, 800);
    assert_eq!(keys(&r), vec!["k2".to_string(), "k1".to_string()]);
    assert_eq!(r.active_account_key, Some("k1".to_string()));
    assert_eq!(r.schema_version, REGISTRY_SCHEMA_VERSION);
    assert_eq!(r.updated_at, 1000);
    let k1 = &r.items[1];
    assert_eq!(k1.alias, "main");
    assert_eq!(k1.last_used_at, Some(900));
    assert_eq!(k1.snapshot_path, "/snaps/k1.json");
    assert_eq!(r.items[0].last_used_at, None);
    assert!(r.auto_switch.unwrap().enabled);
    assert!(r.api.unwrap().usage_refresh_enabled);

    let empty = rebuild_registry_state(None, None, vec![], 5, 6);
    assert!(empty.items.is_empty());
    assert_eq!(empty.active_account_key, None);
    assert!(!empty.auto_switch.unwrap().enabled);
}

#[test]
fn sync_updates_the_entry_and_makes_the_login_active() {
    let mut existing = new_registry_item(&snapshot("k1", "old@x"), "/old", None);
    existing.workspace_name = None;
    let other = new_registry_item(&snapshot("k0", "a@x"), "/k0", Some(3));
    let mut r = registry(vec![existing, other], Some("k0"));
    let mut cur = snapshot("k1", "new@x");
    cur.workspace_name = Some("WS".to_string());
    let changed = sync_current_auth_into_registry(&mut r, &cur, "/snaps/k1.json", false, 77);
    assert!(changed);
    assert_eq!(r.active_account_key, Some("k1".to_string()));
    assert_eq!(keys(&r), vec!["k0".to_string(), "k1".to_string()]);
    assert_eq!(r.items[1].email, "new@x");
    assert_eq!(r.items[1].workspace_name, Some("WS".to_string()));
    assert_eq!(r.items[1].last_used_at, Some(77));
    assert_eq!(r.updated_at, 77);

    let again = sync_current_auth_into_registry(&mut r, &cur, "/snaps/k1.json", false, 99);
    assert!(!again);
    assert_eq!(r.updated_at, 77);

    let rewritten = sync_current_auth_into_registry(&mut r, &cur, "/snaps/k1.json", true, 120);
    assert!(rewritten);
    assert_eq!(r.updated_at, 120);
}

#[test]
fn sync_adds_an_entry_for_a_new_login() {
    let mut r = registry(vec![], None);
    let changed = sync_current_auth_into_registry(&mut r, &snapshot("k9", "z@x"), "/s/k9.json", false, 50);
    assert!(changed);
    assert_eq!(keys(&r), vec!["k9".to_string()]);
    assert_eq!(r.items[0].last_used_at, Some(50));
    assert_eq!(r.items[0].plan, "unknown");
}

#[test]
fn legacy_windows_move_into_the_quota_store() {
    let mut a = new_registry_item(&snapshot("ka", "a@x"), "/a", Some(20));
    a.last_usage_at = Some(30);
    a.cached_primary_window = Some(window(40.0));
    let mut b = new_registry_item(&snapshot("kb", "b@x"), "/b", None);
    b.cached_secondary_window = Some(window(10.0));
    let c = new_registry_item(&snapshot("kc", "c@x"), "/c", None);
    let mut r = registry(vec![a, b, c], None);
    let mut store = QuotaStoreFile::empty();
    upsert_item(
        &mut store,
        QuotaStoreItem {
            account_key: "kb".to_string(),
            captured_at: 1,
            usage_source: UsageSource::Local,
            primary_window: None,
            secondary_window: None,
            token_status: None,
        },
        2,
    );
    let (quota_changed, registry_changed) = sync_legacy_registry_quota_into_store(&mut r, &mut store, 900);
    assert!(quota_changed);
    assert!(registry_changed);
    assert_eq!(store.items.len(), 2);
    let moved = find_item(&store, "ka").unwrap();
    assert_eq!(moved.captured_at, 30);
    assert_eq!(moved.usage_source, UsageSource::Api);
    assert_eq!(find_item(&store, "kb").unwrap().captured_at, 1);
    assert_eq!(store.updated_at, 900);
    assert!(r.items.iter().all(|i| i.cached_primary_window.is_none() && i.cached_secondary_window.is_none()));
    assert_eq!(r.updated_at, 900);

    let (q2, r2) = sync_legacy_registry_quota_into_store(&mut r, &mut store, 950);
    assert!(!q2 && !r2);
    assert_eq!(r.updated_at, 900);
}

#[test]
fn clean_drops_stale_entries_and_the_lost_active_account() {
    let a = new_registry_item(&snapshot("ka", "a@x"), "/a", None);
    let b = new_registry_item(&snapshot("kb", "b@x"), "/b", None);
    let mut r = registry(vec![a, b], Some("kb"));
    let stale = clean_registry(&mut r, &vec![true, false], 44);
    assert_eq!(stale, 1);
    assert_eq!(keys(&r), vec!["ka".to_string()]);
    assert_eq!(r.active_account_key, None);
    assert_eq!(r.updated_at, 44);

    let mut kept = registry(vec![new_registry_item(&snapshot("ka", "a@x"), "/a", None)], Some("ka"));
    assert_eq!(clean_registry(&mut kept, &vec![true], 45), 0);
    assert_eq!(kept.active_account_key, Some("ka".to_string()));

    let mut store = QuotaStoreFile::empty();
    for key in ["ka", "gone"] {
        upsert_item(
            &mut store,
            QuotaStoreItem {
                account_key: key.to_string(),
                captured_at: 1,
                usage_source: UsageSource::Api,
                primary_window: None,
                secondary_window: None,
                token_status: None,
            },
            3,
        );
    }
    assert!(retain_quota_for_registry(&mut store, &r, 60));
    assert_eq!(store.items.len(), 1);
    assert_eq!(store.updated_at, 60);
    assert!(!retain_quota_for_registry(&mut store, &r, 70));
    assert_eq!(store.updated_at, 60);
}

#[test]
fn history_backup_cleanup_keeps_the_newest() {
    let names = vec!["2024-01".to_string(), "2025-03".to_string(), "2024-12".to_string()];
    let (kept, remove) = history_backups_to_remove(names.clone(), 1);
    assert_eq!(kept, 1);
    assert_eq!(remove, vec!["2024-12".to_string(), "2024-01".to_string()]);
    let (kept, remove) = history_backups_to_remove(names.clone(), -4);
    assert_eq!(kept, 0);
    assert_eq!(remove, vec!["2025-03".to_string(), "2024-12".to_string(), "2024-01".to_string()]);
    let (kept, remove) = history_backups_to_remove(names, 500);
    assert_eq!(kept, 3);
    assert!(remove.is_empty());
}

#[test]
fn quota_store_upsert_reports_changes() {
    let item = QuotaStoreItem {
        account_key: "k".to_string(),
        captured_at: 10,
        usage_source: UsageSource::Api,
        primary_window: Some(window(0.0)),
        secondary_window: None,
        token_status: Some("ok".to_string()),
    };
    let mut store = QuotaStoreFile::empty();
    assert!(upsert_item(&mut store, item.clone(), 5));
    assert_eq!(store.updated_at, 5);
    assert!(!upsert_item(&mut store, item.clone(), 6));
    assert_eq!(store.updated_at, 5);
    let mut negative_zero = item.clone();
    negative_zero.primary_window = Some(window(-0.0));
    assert!(!upsert_item(&mut store, negative_zero, 7));
    let mut newer = item.clone();
    newer.captured_at = 11;
    assert!(upsert_item(&mut store, newer, 8));
    assert_eq!(find_item(&store, "k").unwrap().captured_at, 11);
    assert_eq!(store.items.len(), 1);

    let mut nan = item.clone();
    nan.primary_window = Some(window(f64::NAN));
    assert!(upsert_item(&mut store, nan.clone(), 9));
    assert!(upsert_item(&mut store, nan, 10));
}

#[test]
fn diagnostics_text_pieces() {
    let m = helper_tool_availability(&None, &Some("/bin/codex".to_string()), &None);
    assert_eq!(m[0], ("threadripper".to_string(), "degraded:unavailable".to_string()));
    assert_eq!(m[1], ("codexCli".to_string(), "available:/bin/codex".to_string()));
    assert_eq!(m[2], ("codexDesktop".to_string(), "blocked:unavailable".to_string()));
    let check = |state: &str, label: &str| FirstRunCheckItemPayload {
        key: "k".to_string(),
        label: label.to_string(),
        state: state.to_string(),
        detail: "why".to_string(),
    };
    let checks = vec![check("ready", "A"), check("blocked", "B"), check("blocked", "C")];
    assert_eq!(latest_failure_summary(&checks), Some("B: why".to_string()));
    assert_eq!(latest_failure_summary(&vec![check("ready", "A")]), None);
    assert_eq!(diagnostics_bundle_file_name(1700000000), "diagnostics-1700000000.json");
    assert_eq!(registry_backup_file_name(-5), "registry--5.json");
}

#[test]
fn saving_fills_defaults_and_raises_the_schema() {
    let mut r = registry(vec![], None);
    prepare_registry_for_save(&mut r);
    assert_eq!(r.schema_version, REGISTRY_SCHEMA_VERSION);
    assert_eq!(r.auto_switch.unwrap().threshold_5h_percent, 0);
    assert!(r.api.unwrap().account_metadata_refresh_enabled);
    let mut newer = registry(vec![], None);
    newer.schema_version = 7;
    newer.api = Some(ApiConfig { usage_refresh_enabled: false, account_metadata_refresh_enabled: false });
    prepare_registry_for_save(&mut newer);
    assert_eq!(newer.schema_version, 7);
    assert!(!newer.api.unwrap().usage_refresh_enabled);

    let e = empty_registry(12);
    assert_eq!(e.updated_at, 12);
    assert!(e.items.is_empty());
    assert!(local_state_warnings(true).is_empty());
    let w = local_state_warnings(false);
    assert_eq!(w[0].code, "REGISTRY_MISSING");
}

#[test]
fn bootstrap_cache_keeps_the_latest_payloads() {
    let mut cache = BootstrapStatePayload::empty();
    store_mcp_servers(
        &mut cache,
        McpServerListPayload { items: vec![], total: 0, source_path: "/c/config.toml".to_string(), last_scan_at: 5 },
        10,
    );
    assert_eq!(cache.written_at, Some(10));
    assert_eq!(cache.mcp_servers.as_ref().unwrap().source_path, "/c/config.toml");
    store_installed_skills(
        &mut cache,
        SkillListPayload { items: vec![], total: 0, root_path: "/s".to_string(), last_scan_at: 6 },
        11,
    );
    store_usage_analytics(&mut cache, UsageAnalyticsPayload {}, 12);
    assert_eq!(cache.written_at, Some(12));
    assert!(cache.mcp_servers.is_some() && cache.installed_skills.is_some() && cache.usage_analytics.is_some());
    assert!(cache.snapshot_progressive.is_none());
}

#[test]
fn auto_switch_settings_are_checked() {
    let mut r = registry(vec![], None);
    set_auto_switch_enabled(&mut r, true, 9);
    assert_eq!(r.updated_at, 9);
    let status = auto_switch_status(&r, AutoSwitchRuntimeState::Stopped);
    assert!(status.enabled);
    assert_eq!(status.threshold_5h_percent, 0);
    assert_eq!(status.service_label, "dev.ai.strategist.auto-switch");
    assert!(needs_daemon_repair(&r, true, AutoSwitchRuntimeState::Stopped));
    assert!(!needs_daemon_repair(&r, true, AutoSwitchRuntimeState::Running));
    assert!(!needs_daemon_repair(&r, false, AutoSwitchRuntimeState::Stopped));

    assert_eq!(
        configure_auto_switch(&mut r, Some(101), Some(5), 10),
        Err(CoreError::InvalidData("5h threshold must be 0-100, got 101".to_string()))
    );
    assert_eq!(
        configure_auto_switch(&mut r, Some(50), Some(-1), 10),
        Err(CoreError::InvalidData("weekly threshold must be 0-100, got -1".to_string()))
    );
    assert_eq!(r.updated_at, 9);
    assert_eq!(configure_auto_switch(&mut r, None, Some(30), 11), Ok(()));
    let a = r.auto_switch.unwrap();
    assert!(a.enabled);
    assert_eq!((a.threshold_5h_percent, a.threshold_weekly_percent), (0, 30));
    assert_eq!(r.updated_at, 11);
}
