use ai_strategist::prelaunch_provider::{
    launch_provider_source, load_provider_profile_from_config, model_provider_or_default,
    normalize_codex_home, provider_config_result, provider_config_update,
    read_model_provider_from_config_contents, reusable_hybrid_provider_key, upsert_model_provider,
    upsert_provider_block, verify_configured_provider, ProviderProfile,
};

fn lac_profile() -> ProviderProfile {
    ProviderProfile {
        key: "lac".to_string(),
        name: "LAC".to_string(),
        base_url: "https://lac.example.test/v1".to_string(),
        wire_api: "responses".to_string(),
        env_key: "LAC_KEY".to_string(),
        requires_openai_auth: false,
        experimental_bearer_token: "".to_string(),
    }
}

#[test]
fn api_launch_provider_prefers_current_non_openai_config_profile() {
    let config = r#"model_provider = "custom"

[model_providers.lac]
name = "LAC"
base_url = "https://lac.example.test/v1"
wire_api = "responses"
env_key = "LAC_KEY"

[model_providers.custom]
name = "Custom"
base_url = "https://custom.example.test/v1"
wire_api = "chat"
env_key = "CUSTOM_KEY"
"#;
    let profile = load_provider_profile_from_config(config, "api").expect("provider profile");
    assert_eq!(profile.key, "custom");
    assert_eq!(profile.name, "Custom");
    assert_eq!(profile.base_url, "https://custom.example.test/v1");
    assert_eq!(profile.wire_api, "chat");
    assert_eq!(profile.env_key, "CUSTOM_KEY");
}

#[test]
fn api_launch_provider_falls_back_to_lac_when_current_is_openai() {
    let config = r#"model_provider = "openai"

[model_providers.cliproxy]
name = "CliProxy"
base_url = "https://cliproxy.example.test/v1"
wire_api = "responses"
env_key = "CLIPROXY_KEY"

[model_providers.lac]
name = "LAC"
base_url = "https://lac.example.test/v1"
wire_api = "responses"
env_key = "LAC_KEY"
"#;
    let profile = load_provider_profile_from_config(config, "api").expect("provider profile");
    assert_eq!(profile.key, "lac");
}

#[test]
fn hybrid_launch_provider_requires_openai_auth_and_bearer_token() {
    let config = r#"model_provider = "lac"

[model_providers.lac]
name = "LAC"
base_url = "https://lac.example.test/v1"
wire_api = "responses"
env_key = "LAC_KEY"

[model_providers.CodexPlusPlus]
name = "CodexPlusPlus"
base_url = "https://relay.example.test/v1"
wire_api = "responses"
requires_openai_auth = true
experimental_bearer_token = "sk-test"
"#;
    let profile = load_provider_profile_from_config(config, "hybrid").expect("provider profile");
    assert_eq!(profile.key, "CodexPlusPlus");
    assert!(profile.requires_openai_auth);
    assert_eq!(profile.experimental_bearer_token, "sk-test");
}

#[test]
fn configure_provider_for_api_launch_writes_backup_and_provider_block() {
    let raw = "model_reasoning_effort = \"medium\"\nmodel_provider = \"openai\"\n";
    let (target, updated) =
        provider_config_update(raw, "api", Some(lac_profile())).expect("configured provider");
    verify_configured_provider(&updated, &target).expect("verified");
    let result = provider_config_result(
        "/home/u/.codex/config.toml".to_string(),
        "/home/u/.codex/config.toml.backup_ai_manager_20240101-000000".to_string(),
        "api",
        target,
    );
    let backup_path = result.backup_path.clone().expect("backup path");
    assert_eq!(result.target_model_provider, "lac");
    assert_eq!(result.verified_model_provider, "lac");
    assert!(backup_path.contains("config.toml.backup_ai_manager_"));
    assert!(updated.contains("model_provider = \"lac\""));
    assert!(updated.contains("[model_providers.lac]"));
    assert!(updated.contains("env_key = \"LAC_KEY\""));
    assert!(updated.contains("supports_websockets = false"));
}

#[test]
fn configure_provider_for_hybrid_launch_rejects_missing_bearer_token() {
    let profile = ProviderProfile {
        key: "CodexPlusPlus".to_string(),
        name: "CodexPlusPlus".to_string(),
        base_url: "https://relay.example.test/v1".to_string(),
        wire_api: "responses".to_string(),
        env_key: "".to_string(),
        requires_openai_auth: true,
        experimental_bearer_token: "".to_string(),
    };
    let result = provider_config_update(r#"model_provider = "openai""#, "hybrid", Some(profile));
    assert_eq!(
        result.expect_err("hybrid should reject missing token"),
        "Hybrid mode requires experimental_bearer_token."
    );
}

#[test]
fn prelaunch_status_reports_reusable_manual_hybrid_provider() {
    let config = r#"model_provider = "codexzh"

[model_providers.codexzh]
name = "codexzh"
base_url = "https://api.codexzh.com/v1"
wire_api = "responses"
requires_openai_auth = true
experimental_bearer_token = "sk-test"
"#;
    assert_eq!(reusable_hybrid_provider_key(config).as_deref(), Some("codexzh"));
}

#[test]
fn hybrid_launch_requires_model_bucket_instead_of_reusing_config_provider() {
    assert_eq!(
        launch_provider_source(Some("hybrid"), None),
        Err("No enabled model bucket relay is configured for this launch mode.".to_string())
    );
}

#[test]
fn normalize_codex_home_expands_windows_percent_environment() {
    let vars = vec![("AI_STRATEGIST_TEST_HOME".to_string(), r"C:\Users\test".to_string())];
    let normalized = normalize_codex_home(r"%AI_STRATEGIST_TEST_HOME%\.codex", &vars, None);
    assert_eq!(normalized.as_deref(), Some(r"C:\Users\test\.codex"));
}

#[test]
fn codex_home_tilde_is_taken_against_the_home_directory() {
    let normalized = normalize_codex_home("  ~/.codex ", &Vec::new(), Some("/home/u".to_string()));
    assert_eq!(normalized.as_deref(), Some("/home/u/.codex"));
    assert_eq!(normalize_codex_home("   ", &Vec::new(), None), None);
    assert_eq!(
        normalize_codex_home("~/.codex", &Vec::new(), None).as_deref(),
        Some("~/.codex")
    );
}

#[test]
fn launch_provider_source_takes_given_json_and_refuses_blank_api_launches() {
    assert_eq!(
        launch_provider_source(Some("api"), Some("  {\"key\":\"x\"} ")),
        Ok(Some("{\"key\":\"x\"}".to_string()))
    );
    assert_eq!(
        launch_provider_source(Some("api"), Some("   ")),
        Err("No enabled model bucket relay is configured for this launch mode.".to_string())
    );
    assert_eq!(
        launch_provider_source(Some("hybrid"), Some("{}")),
        Ok(Some("{}".to_string()))
    );
    assert_eq!(launch_provider_source(Some("official"), None), Ok(None));
    assert_eq!(launch_provider_source(None, None), Ok(None));
}

#[test]
fn model_provider_is_read_from_the_first_root_setting() {
    let text = "# model_provider = \"x\"\n[section]\nmodel_provider = \" \"\n  model_provider = \"  lac \"\nmodel_provider = \"other\"\n";
    assert_eq!(read_model_provider_from_config_contents(text).as_deref(), Some("lac"));
    assert_eq!(read_model_provider_from_config_contents("name = \"x\"\n"), None);
    assert_eq!(model_provider_or_default(None), "openai");
    assert_eq!(model_provider_or_default(Some("x = 1")), "openai");
    assert_eq!(model_provider_or_default(Some("model_provider=relay")), "relay");
}

#[test]
fn model_provider_setting_is_replaced_inserted_or_prepended() {
    assert_eq!(
        upsert_model_provider("model_provider = \"openai\"\n[a]\nmodel_provider = \"x\"\n", "lac"),
        "model_provider = \"lac\"\n[a]\nmodel_provider = \"x\"\n"
    );
    assert_eq!(
        upsert_model_provider("model_reasoning_effort = \"high\"\nname = 1", "lac"),
        "model_reasoning_effort = \"high\"\nmodel_provider = \"lac\"\nname = 1"
    );
    assert_eq!(
        upsert_model_provider("name = 1\n[a]\nx = 2\n", "lac"),
        "name = 1\nmodel_provider = \"lac\"\n[a]\nx = 2\n"
    );
    assert_eq!(upsert_model_provider("", "a\"b\\c"), "model_provider = \"a\\\"b\\\\c\"");
}

#[test]
fn provider_block_replaces_its_table_or_is_appended() {
    let raw = "model_provider = \"lac\"\n[model_providers.lac]\nname = \"old\"\n[other]\nx = 1\n";
    let updated = upsert_provider_block(raw, &lac_profile());
    assert_eq!(
        updated,
        "model_provider = \"lac\"\n[model_providers.lac]\nname = \"LAC\"\nbase_url = \"https://lac.example.test/v1\"\nwire_api = \"responses\"\nenv_key = \"LAC_KEY\"\nenv_key = \"LAC_KEY\"\nsupports_websockets = false\n[other]\nx = 1\n"
    );
    let appended = upsert_provider_block("x = 1", &lac_profile());
    assert!(appended.starts_with("x = 1\n\n[model_providers.lac]\n"));
    let mut hybrid = lac_profile();
    hybrid.requires_openai_auth = true;
    hybrid.env_key = "".to_string();
    hybrid.experimental_bearer_token = " sk-1 ".to_string();
    let block = upsert_provider_block("", &hybrid);
    assert!(block.ends_with("requires_openai_auth = true\nexperimental_bearer_token = \"sk-1\"\n"));
}

#[test]
fn launch_configuration_errors_are_reported() {
    assert_eq!(
        provider_config_update("", "weird", None).unwrap_err(),
        "Unsupported launch mode: weird"
    );
    assert_eq!(
        provider_config_update("model_provider = \"openai\"\n", "api", None).unwrap_err(),
        "No model provider profiles found in config.toml."
    );
    let bad = provider_config_update("[model_providers.\n", "api", None).unwrap_err();
    assert!(bad.starts_with("Failed to parse config.toml: "));
    let only_openai = "[model_providers.openai]\nname = \"OpenAI\"\n";
    assert_eq!(
        load_provider_profile_from_config(only_openai, "api").unwrap_err(),
        "No API provider profile found in config.toml."
    );
    assert_eq!(
        load_provider_profile_from_config(only_openai, "hybrid").unwrap_err(),
        "No hybrid-capable provider found in config.toml. Expected requires_openai_auth=true and experimental_bearer_token."
    );
    let mut no_auth = lac_profile();
    no_auth.experimental_bearer_token = "sk".to_string();
    assert_eq!(
        provider_config_update("", "hybrid", Some(no_auth)).unwrap_err(),
        "Hybrid mode requires requires_openai_auth=true."
    );
}

#[test]
fn official_launch_sets_openai() {
    let (target, updated) = provider_config_update("model_provider = \"lac\"\n", "official", None).unwrap();
    assert_eq!(target, "openai");
    assert_eq!(updated, "model_provider = \"openai\"\n");
}

#[test]
fn profile_defaults_fill_name_and_wire_api() {
    let config = "[model_providers.relay]\nbase_url = \" https://r \"\nrequires_openai_auth = \"yes\"\n";
    let profile = load_provider_profile_from_config(config, "api").unwrap();
    assert_eq!(profile.name, "relay");
    assert_eq!(profile.wire_api, "responses");
    assert_eq!(profile.base_url, "https://r");
    assert!(!profile.requires_openai_auth);
}

#[test]
fn verification_reports_the_provider_found() {
    assert!(verify_configured_provider("model_provider = \"lac\"", "lac").is_ok());
    assert_eq!(
        verify_configured_provider("model_provider = \"x\"", "lac").unwrap_err(),
        "Config verification failed: expected model_provider=lac, got Some(\"x\")"
    );
    assert_eq!(
        verify_configured_provider("", "lac").unwrap_err(),
        "Config verification failed: expected model_provider=lac, got None"
    );
}
