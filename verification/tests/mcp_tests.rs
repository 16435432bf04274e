use ai_strategist::mcp::{
    mcp_config_is_parsable, parse_mcp_servers, remove_mcp_server, set_mcp_server_enabled,
    try_set_mcp_server_enabled, try_upsert_mcp_server, upsert_mcp_server, write_mcp_server,
};
use ai_strategist::models::{CoreError, McpServerSummary, McpTransport};

const BOTTOM_MANAGED_BLOCK_BEGIN: &str = "# --- AI Strategist Managed Block (bottom) ---";
const BOTTOM_MANAGED_BLOCK_END: &str = "# --- End AI Strategist Managed Block (bottom) ---";
const ROUTER_TOP_MANAGED_BLOCK_BEGIN: &str = "# --- AI Strategist Managed Block (router-top) ---";
const ROUTER_TOP_MANAGED_BLOCK_END: &str = "# --- End AI Strategist Managed Block (router-top) ---";

fn stdio_server(name: &str) -> McpServerSummary {
    McpServerSummary {
        name: name.into(),
        transport: McpTransport::Stdio,
        enabled: true,
        source_path: String::new(),
        command: Some("npx".into()),
        args: vec!["-y".into(), "@upstash/context7-mcp@latest".into()],
        url: None,
        headers: Vec::new(),
        environment: Vec::new(),
    }
}

#[test]
fn upsert_mcp_keeps_router_top_block_before_mcp_table() {
    let original = format!(
        "{ROUTER_TOP_MANAGED_BLOCK_BEGIN}\n\
         profile = \"aimai1\"\n\
         model_catalog_json = \"/tmp/catalog.json\"\n\
         {ROUTER_TOP_MANAGED_BLOCK_END}\n\n\
         {BOTTOM_MANAGED_BLOCK_BEGIN}\n\
         [model_providers.aimai1]\n\
         name = \"AI Strategist 智能路由\"\n\
         {BOTTOM_MANAGED_BLOCK_END}\n"
    );
    assert!(mcp_config_is_parsable(&original));
    let (updated, server) = upsert_mcp_server(&original, "/cfg/config.toml", &stdio_server("context7"));

    let top_pos = updated.find(ROUTER_TOP_MANAGED_BLOCK_BEGIN).unwrap();
    let mcp_pos = updated.find("[mcp_servers.\"context7\"]").unwrap();
    let bottom_pos = updated.find(BOTTOM_MANAGED_BLOCK_BEGIN).unwrap();
    assert!(top_pos < mcp_pos);
    assert!(mcp_pos < bottom_pos);

    let parsed: toml::Value = updated.parse().expect("config must remain valid TOML");
    assert_eq!(parsed["profile"].as_str(), Some("aimai1"));
    assert_eq!(parsed["mcp_servers"]["context7"]["command"].as_str(), Some("npx"));
    assert_eq!(server.command.as_deref(), Some("npx"));
    assert_eq!(server.source_path, "/cfg/config.toml");
}

#[test]
fn upsert_mcp_relocates_existing_block_out_of_managed_block() {
    let original = format!(
        "{BOTTOM_MANAGED_BLOCK_BEGIN}\n\
         [model_providers.test_provider]\n\
         name = \"X\"\n\n\
         [mcp_servers.context7]\n\
         command = \"old\"\n\n\
         [profiles.test_provider]\n\
         model_provider = \"test_provider\"\n\
         {BOTTOM_MANAGED_BLOCK_END}\n"
    );
    let mut server = stdio_server("context7");
    server.enabled = false;
    let (updated, _) = upsert_mcp_server(&original, "", &server);

    let mcp_pos = updated.find("[mcp_servers.\"context7\"]").unwrap();
    let bottom_pos = updated.find(BOTTOM_MANAGED_BLOCK_BEGIN).unwrap();
    assert!(mcp_pos < bottom_pos);
    assert!(updated.contains("enabled = false"));
    assert!(!updated.contains("command = \"old\""));

    let managed_block = &updated[bottom_pos..];
    assert!(!managed_block.contains("[mcp_servers.\"context7\"]"));
}

#[test]
fn written_entry_reads_back_with_its_settings() {
    let mut server = stdio_server("ctx");
    server.environment = vec![
        ("ZED".to_string(), "2".to_string()),
        ("ALPHA".to_string(), "a \"q\" \\ b".to_string()),
    ];
    server.headers = vec![("X-Key".to_string(), "v".to_string())];
    let text = write_mcp_server("", &server);
    assert_eq!(
        text,
        "[mcp_servers.\"ctx\"]\nenabled = true\ntransport = \"stdio\"\ncommand = \"npx\"\n\
         args = [\"-y\", \"@upstash/context7-mcp@latest\"]\n\n[mcp_servers.\"ctx\".env]\n\
         ALPHA = \"a \\\"q\\\" \\\\ b\"\nZED = \"2\"\n\n[mcp_servers.\"ctx\".headers]\nX-Key = \"v\"\n"
    );
    let servers = parse_mcp_servers(&text, "src");
    assert_eq!(servers.len(), 1);
    assert_eq!(servers[0].name, "ctx");
    assert_eq!(servers[0].transport, McpTransport::Stdio);
    assert_eq!(servers[0].args, server.args);
    assert!(servers[0].environment.contains(&("ZED".to_string(), "2".to_string())));
}

#[test]
fn parse_orders_servers_and_infers_transports() {
    let text = "# comment\n[mcp_servers.zeta]\nurl = \"https://x/sse\"\n\
                [mcp_servers.Alpha]\nargs = [\"a\", \"b,c\"]\nenabled = FALSE # off\n\
                [other]\nkey = 1\n[mcp_servers.mid]\ntype = \"HTTP\"\n";
    let servers = parse_mcp_servers(text, "p");
    let names: Vec<&str> = servers.iter().map(|s| s.name.as_str()).collect();
    assert_eq!(names, vec!["Alpha", "mid", "zeta"]);
    assert_eq!(servers[0].transport, McpTransport::Stdio);
    assert_eq!(servers[0].args, vec!["a".to_string(), "b,c".to_string()]);
    assert!(!servers[0].enabled);
    assert_eq!(servers[1].transport, McpTransport::Http);
    assert_eq!(servers[2].transport, McpTransport::Sse);
}

#[test]
fn set_enabled_and_remove_report_missing_servers() {
    let text = "[mcp_servers.a]\ncommand = \"x\"\n\n\n";
    match set_mcp_server_enabled(text, "p", "nope", false) {
        Err(CoreError::NotFound(m)) => assert_eq!(m, "MCP server not found: nope"),
        other => panic!("unexpected {other:?}"),
    }
    let (updated, server) = set_mcp_server_enabled(text, "p", "a", false).unwrap();
    assert!(!server.enabled);
    assert!(updated.contains("enabled = false"));
    let removed = remove_mcp_server(&updated, "a").unwrap();
    assert!(!removed.contains("mcp_servers"));
    match remove_mcp_server(&removed, "a") {
        Err(CoreError::NotFound(m)) => assert_eq!(m, "MCP server not found: a"),
        other => panic!("unexpected {other:?}"),
    }
}

#[test]
fn quoted_header_with_misplaced_offset_is_reported() {
    assert!(mcp_config_is_parsable("[mcp_servers.\"a\\\\b\"]\n"));
    assert!(!mcp_config_is_parsable("[mcp_servers.\"\\\\\\\\é\"]\n"));
}

#[test]
fn checked_writes_match_the_plain_ones_on_readable_configs() {
    let text = "model = \"gpt\"\n";
    let plain = upsert_mcp_server(text, "/cfg/config.toml", &stdio_server("context7"));
    let checked = try_upsert_mcp_server(text, "/cfg/config.toml", &stdio_server("context7")).expect("readable");
    assert_eq!(checked.0, plain.0);
    assert_eq!(checked.1.name, "context7");
    assert!(checked.1.enabled);
    let (disabled, server) = try_set_mcp_server_enabled(&checked.0, "/cfg/config.toml", "context7", false)
        .expect("readable")
        .expect("defined");
    assert!(!server.enabled);
    assert!(disabled.contains("enabled = false"));
    match try_set_mcp_server_enabled(text, "/cfg/config.toml", "missing", true) {
        Some(Err(CoreError::NotFound(_))) => {}
        other => panic!("unexpected {:?}", other.map(|r| r.is_ok())),
    }
}
