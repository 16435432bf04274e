use ai_strategist::api_client::{detect_api_proxy_config, sanitize_proxy_config, test_api_connectivity};
use ai_strategist::auth::{
    auth_file_from_fields, auth_snapshot_at, make_api_request_context, make_auth_snapshot,
    normalize_auth_mode, AuthFile, AuthTokens,
};
use ai_strategist::models::{
    ApiProxyConfigPayload, ApiProxyMode, AuthMode, CoreEnvelope, CoreError, DiagnoseApiState,
    InstalledSkillSummary, PlanType,
};
use ai_strategist::paths::CodexPaths;
use ai_strategist::repository::{
    app_path_state, normalize_usage_refresh_interval, usage_refresh_interval_seconds,
    CodexMateSettings, DiagnoseFacts, DirProbe, FirstRunFacts, Repository,
};
use ai_strategist::runtime_resolver::{ResolvedRuntime, ResolvedRuntimeSource};

fn repo() -> Repository {
    Repository::new(
        CodexPaths::from_home("/home/u/.codex".to_string(), String::new()),
        CodexMateSettings::default(),
    )
}

#[test]
fn set_chat_info_move_enabled_persists_to_settings() {
    let mut repo = repo();
    let payload = repo.set_chat_info_move_enabled(true);
    assert!(payload.chat_info_move_enabled);
    assert!(!payload.one_click_handoff_enabled);
    assert!(repo.settings().enhancer.chat_info_move_enabled);
    assert!(repo.get_enhancer_settings().chat_info_move_enabled);
}

#[test]
fn set_one_click_handoff_enabled_persists_to_settings() {
    let mut repo = repo();
    let payload = repo.set_one_click_handoff_enabled(true);
    assert!(payload.one_click_handoff_enabled);
    assert!(!payload.chat_info_move_enabled);
    assert!(!payload.hide_official_quota_notice_enabled);
    assert!(repo.settings().enhancer.one_click_handoff_enabled);
    assert!(repo.get_enhancer_settings().one_click_handoff_enabled);
}

#[test]
fn set_hide_official_quota_notice_enabled_persists_to_settings() {
    let mut repo = repo();
    let payload = repo.set_hide_official_quota_notice_enabled(true);
    assert!(payload.hide_official_quota_notice_enabled);
    assert!(!payload.chat_info_move_enabled);
    assert!(!payload.one_click_handoff_enabled);
    assert!(repo.settings().enhancer.hide_official_quota_notice_enabled);
    assert!(repo.get_enhancer_settings().hide_official_quota_notice_enabled);
}

#[test]
fn set_api_proxy_config_persists_to_settings_and_status() {
    let mut repo = repo();
    let payload = repo
        .set_api_proxy_config(ApiProxyMode::Manual, Some("http://127.0.0.1:7890".to_string()))
        .unwrap();
    assert_eq!(payload.api.proxy.mode, ApiProxyMode::Manual);
    assert_eq!(payload.api.proxy.url.as_deref(), Some("http://127.0.0.1:7890"));
    assert_eq!(repo.settings().api_proxy.mode, ApiProxyMode::Manual);
    assert_eq!(repo.settings().api_proxy.url.as_deref(), Some("http://127.0.0.1:7890"));
    let payload = repo.set_api_proxy_config(ApiProxyMode::Direct, Some("x".to_string())).unwrap();
    assert_eq!(payload.api.proxy.url, None);
}

#[test]
fn hotspot_and_interval_settings_round_trip() {
    let mut repo = repo();
    assert!(!repo.get_hotspot_enabled());
    repo.set_hotspot_enabled(true);
    assert!(repo.get_hotspot_enabled());
    assert_eq!(repo.get_usage_refresh_interval(), "1m");
    assert_eq!(repo.set_usage_refresh_interval("3m").unwrap(), "3m");
    assert_eq!(repo.get_usage_refresh_interval(), "3m");
    match repo.set_usage_refresh_interval("2h") {
        Err(CoreError::InvalidData(m)) => assert_eq!(m, "Unsupported refresh interval: 2h"),
        other => panic!("unexpected {other:?}"),
    }
    assert_eq!(repo.get_usage_refresh_interval(), "3m");
    assert_eq!(usage_refresh_interval_seconds("30s"), 30);
    assert_eq!(usage_refresh_interval_seconds("5m"), 300);
    assert_eq!(usage_refresh_interval_seconds("bogus"), 60);
    assert_eq!(normalize_usage_refresh_interval("1m"), Some("1m"));
    assert_eq!(normalize_usage_refresh_interval("1M"), None);
}

#[test]
fn device_id_is_created_once() {
    let mut repo = repo();
    let first = repo.get_or_create_device_id();
    assert_eq!(first.len(), 36);
    assert_eq!(repo.get_or_create_device_id(), first);
}

#[test]
fn codex_paths_follow_the_home() {
    let p = CodexPaths::from_home("/home/u/.codex".to_string(), "/agents".to_string());
    assert_eq!(p.auth_path, "/home/u/.codex/auth.json");
    assert_eq!(p.registry_path, "/home/u/.codex/accounts/registry.json");
    assert_eq!(p.settings_path, "/home/u/.codex/codexmate/settings.json");
    assert_eq!(
        p.custom_instruction_history_dir,
        "/home/u/.codex/codexmate/custom-instructions/history"
    );
    assert_eq!(p.launch_agent_path, "/agents");
}

#[test]
fn proxy_settings_are_cleaned_and_reported() {
    let c = sanitize_proxy_config(&ApiProxyConfigPayload {
        mode: ApiProxyMode::Manual,
        url: Some("   ".to_string()),
    })
    .unwrap();
    assert_eq!(c.url, None);
    let t = test_api_connectivity(&c, None);
    assert_eq!(t.code, "manual_missing_url");
    assert!(!t.reachable);
    let t = test_api_connectivity(
        &ApiProxyConfigPayload { mode: ApiProxyMode::Manual, url: Some("http://p".to_string()) },
        None,
    );
    assert_eq!(t.message, "Manual proxy set: http://p");
    let d = detect_api_proxy_config(None);
    assert!(!d.found);
    assert_eq!(d.probe.code, "detect_skipped");
}

#[test]
fn auth_snapshot_uses_account_id_or_file_stem() {
    let auth = auth_file_from_fields(
        Some("ChatGPT".to_string()),
        None,
        Some("sk-upper".to_string()),
        AuthTokens::default(),
        None,
    );
    assert_eq!(auth.openai_api_key.as_deref(), Some("sk-upper"));
    let snap = auth_snapshot_at(&auth, Some("work".to_string()), 99);
    assert_eq!(snap.account_key, "work");
    assert_eq!(snap.auth_mode, AuthMode::Chatgpt);
    assert_eq!(snap.email, "unknown@chatgpt");
    assert_eq!(snap.plan, PlanType::Unknown);
    assert_eq!(snap.created_at, 99);
    let ctx = make_api_request_context(&auth).unwrap();
    assert_eq!(ctx.api_key, "sk-upper");
    assert_eq!(normalize_auth_mode(None), AuthMode::Apikey);
    let mut tokens = AuthTokens::default();
    tokens.account_id = Some("acct".to_string());
    let auth = AuthFile { auth_mode: None, openai_api_key: None, tokens, last_refresh: None };
    let snap = auth_snapshot_at(&auth, None, 1);
    assert_eq!(snap.account_key, "acct");
    assert_eq!(snap.email, "apikey");
    assert!(make_api_request_context(&auth).is_none());
}

#[test]
fn plan_titles_and_display_titles() {
    assert_eq!(PlanType::Pro5x.title(), "5x Pro");
    assert_eq!(PlanType::Enterprise.title(), "Enterprise");
    let mut skill = InstalledSkillSummary {
        id: "s".to_string(),
        name: "name".to_string(),
        title: Some(String::new()),
        summary: None,
        relative_path: String::new(),
        directory_path: String::new(),
        skill_file_path: String::new(),
        updated_at: None,
    };
    assert_eq!(skill.display_title(), "name");
    skill.title = Some("Title".to_string());
    assert_eq!(skill.display_title(), "Title");
}

#[test]
fn envelopes_carry_code_and_message() {
    let ok = CoreEnvelope::ok(5);
    assert!(ok.success);
    assert_eq!(ok.code, "ok");
    assert_eq!(ok.message, "Success");
    let err = CoreEnvelope::error("bad", "went wrong", 0);
    assert!(!err.success);
    assert_eq!(err.code, "bad");
    assert_eq!(err.schema_version, 1);
}

#[test]
fn diagnosis_reports_the_facts_and_the_self_check() {
    let repo = repo();
    let paths = CodexPaths::from_home("/home/u/.codex".to_string(), String::new());
    let api = DiagnoseApiState {
        usage_attempt_count: 2,
        usage_success_count: 1,
        name_attempt_count: 0,
        name_success_count: 0,
        last_usage_failure: Some("timeout".to_string()),
        last_usage_failure_account: None,
        last_name_failure: None,
        last_name_failure_account: None,
    };
    let first_run = FirstRunFacts {
        runtime_dir: DirProbe::Existed,
        reports_dir: DirProbe::Created,
        backup_dir: DirProbe::Failed("denied".to_string()),
        python: ResolvedRuntime { path: "python".to_string(), source: ResolvedRuntimeSource::PathFallback },
        python_available: true,
        codex_cli: None,
        codex_desktop: None,
        threadripper: Some(ResolvedRuntime {
            path: "/opt/codex-threadripper".to_string(),
            source: ResolvedRuntimeSource::ManagedLocal,
        }),
        codex_home_exists: true,
        auth_accessible: true,
        config_accessible: true,
        state_db_accessible: false,
    };
    let facts = DiagnoseFacts {
        paths: app_path_state(&paths, true, false, true),
        account_count: 3,
        api_state: api.clone(),
        core_version: "1.2.3".to_string(),
        os: "linux".to_string(),
        arch: "x86_64".to_string(),
        first_run,
    };
    let out = repo.diagnose(facts);
    assert!(out.success);
    let d = out.data;
    assert_eq!(d.paths.auth_path, paths.auth_path);
    assert!(!d.paths.registry_exists);
    assert_eq!(d.registry_state.account_count, 3);
    assert!(!d.session_state.latest_rollout_found);
    assert_eq!(d.api_state, api);
    assert_eq!(d.runtimes.python.source, "pathFallback");
    assert_eq!(d.runtimes.threadripper.as_ref().map(|e| e.source.as_str()), Some("managedLocal"));
    assert_eq!(d.first_run_check.checks.len(), 11);
    assert_eq!(d.first_run_check.checks[2].state, "blocked");
    assert!(d.first_run_check.checks[2].detail.ends_with(": denied"));
    assert!(!d.first_run_check.checks[2].detail.contains(": denied: "));
}

#[test]
fn snapshots_are_keyed_by_account_then_file_stem() {
    let auth = auth_file_from_fields(Some("chatgpt".to_string()), None, None, AuthTokens::default(), None);
    let snap = make_auth_snapshot(&auth, "/home/u/.codex/accounts/snapshots/work.auth.json").expect("snapshot");
    assert_eq!(snap.account_key, "work.auth");
    assert_eq!(snap.email, "unknown@chatgpt");
    assert_eq!(snap.auth_mode, AuthMode::Chatgpt);
    assert_eq!(snap.plan, PlanType::Unknown);
    assert!(snap.account_name.is_none() && snap.workspace_name.is_none() && snap.profile_name.is_none());
    let tokens = AuthTokens { account_id: Some("acct-1".to_string()), ..AuthTokens::default() };
    let keyed = auth_file_from_fields(None, Some("sk".to_string()), None, tokens, None);
    let snap = make_auth_snapshot(&keyed, "/tmp/other.json").expect("snapshot");
    assert_eq!(snap.account_key, "acct-1");
    assert_eq!(snap.email, "apikey");
}
