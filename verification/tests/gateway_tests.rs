use ai_strategist::model_gateway::{
    delete_model_provider, delete_model_route, health_from, normalize_provider, normalize_route,
    save_model_provider, save_model_relay_config, save_model_route, set_default_model_provider,
    upstream_error, upstream_models_from_json, upstream_models_reply,
    upstream_models_endpoint, upstream_models_payload, ModelGatewayConfig, ModelProviderConfig,
    ModelProviderKind, ModelProviderSavePayload, ModelRouteConfig, ModelRouteSavePayload,
    UpstreamModel,
};
use ai_strategist::relay_json::{requested_model, JsonValue};
use ai_strategist::model_relay::{
    authorize_request, content_length, default_provider, model_matches, parse_header_line,
    provider_for_request, push_log, relay_route, status_from, upstream_endpoint, upstream_post,
    Conversion, ModelRelayLogEntry, RelayRoute,
};

fn provider(id: &str, enabled: bool) -> ModelProviderConfig {
    ModelProviderConfig {
        id: id.to_string(),
        name: id.to_string(),
        kind: ModelProviderKind::OpenaiCompatible,
        base_url: format!("https://{id}.example/v1"),
        api_key: None,
        default_model: None,
        enabled,
    }
}

fn route(id: &str, pattern: &str, provider_id: &str) -> ModelRouteConfig {
    ModelRouteConfig {
        id: id.to_string(),
        model_pattern: pattern.to_string(),
        provider_id: provider_id.to_string(),
        enabled: true,
    }
}

#[test]
fn normalize_provider_trims_and_requires_base_url() {
    let provider = normalize_provider(ModelProviderConfig {
        id: " deepseek ".to_string(),
        name: "".to_string(),
        kind: ModelProviderKind::OpenaiCompatible,
        base_url: " https://api.deepseek.com/v1/ ".to_string(),
        api_key: Some(" ".to_string()),
        default_model: Some(" deepseek-chat ".to_string()),
        enabled: true,
    })
    .unwrap();

    assert_eq!(provider.id, "deepseek");
    assert_eq!(provider.name, "deepseek");
    assert_eq!(provider.base_url, "https://api.deepseek.com/v1");
    assert_eq!(provider.api_key, None);
    assert_eq!(provider.default_model, Some("deepseek-chat".to_string()));
}

#[test]
fn normalize_provider_refuses_missing_fields() {
    let mut p = provider("x", true);
    p.id = "  ".to_string();
    assert_eq!(normalize_provider(p).unwrap_err(), "Provider ID is required");
    let mut p = provider("x", true);
    p.base_url = " / ".to_string();
    assert_eq!(normalize_provider(p).unwrap_err(), "Base URL is required");
    let mut p = provider("x", true);
    p.base_url = "ftp://host".to_string();
    assert_eq!(
        normalize_provider(p).unwrap_err(),
        "Base URL must start with http:// or https://"
    );
}

#[test]
fn normalize_route_names_unnamed_routes_after_the_pattern() {
    let r = normalize_route(route(" ", " qwen-* ", " p ")).unwrap();
    assert_eq!(r.id, "route-qwen-star");
    assert_eq!(r.model_pattern, "qwen-*");
    assert_eq!(r.provider_id, "p");
    assert_eq!(
        normalize_route(route("a", " ", "p")).unwrap_err(),
        "Model pattern is required"
    );
    assert_eq!(
        normalize_route(route("a", "m", "")).unwrap_err(),
        "Provider ID is required"
    );
}

#[test]
fn models_endpoint_follows_the_base_url() {
    let mut p = provider("a", true);
    p.base_url = "https://h/v1/".to_string();
    assert_eq!(upstream_models_endpoint(&p), "https://h/v1/models");
    p.base_url = "https://h/api/models".to_string();
    assert_eq!(upstream_models_endpoint(&p), "https://h/api/models");
    p.base_url = "https://h".to_string();
    assert_eq!(upstream_models_endpoint(&p), "https://h/v1/models");
}

#[test]
fn save_then_delete_provider_keeps_default_consistent() {
    let config = ModelGatewayConfig::default();
    let config = save_model_provider(
        config,
        ModelProviderSavePayload { provider: provider("a", true), make_default: false },
    )
    .unwrap();
    assert_eq!(config.default_provider_id.as_deref(), Some("a"));
    let config = save_model_provider(
        config,
        ModelProviderSavePayload { provider: provider("b", true), make_default: false },
    )
    .unwrap();
    assert_eq!(config.default_provider_id.as_deref(), Some("a"));
    assert_eq!(config.providers.len(), 2);
    let config = set_default_model_provider(config, " b ").unwrap();
    assert_eq!(config.default_provider_id.as_deref(), Some("b"));
    let config = delete_model_provider(config, "b").unwrap();
    assert_eq!(config.providers.len(), 1);
    assert_eq!(config.default_provider_id.as_deref(), Some("a"));
    assert_eq!(
        delete_model_provider(config.clone(), "zzz").unwrap_err(),
        "Provider zzz was not found"
    );
    assert_eq!(
        set_default_model_provider(config, "q").unwrap_err(),
        "Provider q was not found"
    );
}

#[test]
fn saving_a_provider_twice_replaces_it() {
    let config = ModelGatewayConfig::default();
    let config = save_model_provider(
        config,
        ModelProviderSavePayload { provider: provider("a", true), make_default: true },
    )
    .unwrap();
    let mut renamed = provider("a", false);
    renamed.name = "Renamed".to_string();
    let config = save_model_provider(
        config,
        ModelProviderSavePayload { provider: renamed, make_default: false },
    )
    .unwrap();
    assert_eq!(config.providers.len(), 1);
    assert_eq!(config.providers[0].name, "Renamed");
    assert!(!config.providers[0].enabled);
}

#[test]
fn routes_need_known_providers() {
    let mut config = ModelGatewayConfig::default();
    config.providers.push(provider("p", true));
    assert_eq!(
        save_model_route(config.clone(), ModelRouteSavePayload { route: route("r", "m", "q") })
            .unwrap_err(),
        "Provider q was not found"
    );
    let config =
        save_model_route(config, ModelRouteSavePayload { route: route("r", "m", "p") }).unwrap();
    assert_eq!(config.model_routes.len(), 1);
    let config = delete_model_route(config, " r ").unwrap();
    assert!(config.model_routes.is_empty());
    assert_eq!(delete_model_route(config, "r").unwrap_err(), "Route r was not found");
}

#[test]
fn upstream_models_are_sorted_and_deduplicated() {
    let models = vec![
        UpstreamModel { id: "b".to_string(), owned_by: None },
        UpstreamModel { id: "a".to_string(), owned_by: Some("x".to_string()) },
        UpstreamModel { id: "a".to_string(), owned_by: Some("y".to_string()) },
    ];
    let p = upstream_models_payload("p".to_string(), "e".to_string(), models);
    assert!(p.ok);
    assert_eq!(p.models.len(), 2);
    assert_eq!(p.models[0].id, "a");
    assert_eq!(p.models[0].owned_by.as_deref(), Some("x"));
    assert_eq!(p.models[1].id, "b");
    let empty = upstream_models_payload("p".to_string(), "e".to_string(), Vec::new());
    assert!(!empty.ok);
    assert_eq!(
        empty.error.as_deref(),
        Some("No model ids were found in the upstream models response")
    );
    let h = health_from(empty, 12);
    assert_eq!(h.status, "unhealthy");
    assert_eq!(h.latency_ms, 12);
    assert_eq!(h.model_count, 0);
}

#[test]
fn upstream_error_shows_status_and_body() {
    assert_eq!(upstream_error("List", 502, "  "), "List failed with HTTP 502");
    assert_eq!(upstream_error("List", 404, " nope "), "List failed with HTTP 404: nope");
    let long = "x".repeat(600);
    assert_eq!(upstream_error("L", 500, &long).len(), "L failed with HTTP 500: ".len() + 500);
}

#[test]
fn model_pattern_supports_prefix_and_wildcard() {
    assert!(model_matches("qwen-*", "qwen-plus"));
    assert!(model_matches("*", "anything"));
    assert!(model_matches("deepseek-chat", "deepseek-chat"));
    assert!(!model_matches("deepseek-chat", "deepseek-reasoner"));
}

#[test]
fn requests_follow_routes_then_fallbacks() {
    let mut config = ModelGatewayConfig::default();
    config.providers.push(provider("off", false));
    config.providers.push(provider("qwen", true));
    config.providers.push(provider("main", true));
    config.model_routes.push(route("r1", "qwen-*", "off"));
    config.model_routes.push(route("r2", "qwen-*", "qwen"));
    config.fallback_order = vec!["off".to_string(), "main".to_string()];
    assert_eq!(provider_for_request(&config, Some("qwen-max")).unwrap().id, "qwen");
    assert_eq!(provider_for_request(&config, Some("gpt")).unwrap().id, "main");
    assert_eq!(provider_for_request(&config, None).unwrap().id, "main");
    let mut only_disabled = ModelGatewayConfig::default();
    only_disabled.providers.push(provider("x", false));
    only_disabled.default_provider_id = Some("x".to_string());
    assert_eq!(default_provider(&only_disabled).unwrap_err(), "Default provider x is disabled");
    let none = ModelGatewayConfig::default();
    assert_eq!(
        default_provider(&none).unwrap_err(),
        "No enabled model provider is configured"
    );
}

#[test]
fn relay_requires_the_management_token() {
    let mut config = ModelGatewayConfig::default();
    assert!(authorize_request(&config, &Vec::new()).is_ok());
    config.relay.management_token = Some("secret".to_string());
    assert_eq!(
        authorize_request(&config, &Vec::new()).unwrap_err(),
        "Relay access token is required"
    );
    let bearer = vec![("authorization".to_string(), "Bearer secret".to_string())];
    assert!(authorize_request(&config, &bearer).is_ok());
    let header = vec![
        ("authorization".to_string(), "Basic abc".to_string()),
        ("x-ai-strategist-token".to_string(), "secret".to_string()),
    ];
    assert!(authorize_request(&config, &header).is_ok());
    let wrong = vec![("x-ai-strategist-token".to_string(), "nope".to_string())];
    assert!(authorize_request(&config, &wrong).is_err());
}

#[test]
fn relay_routes_and_headers() {
    assert_eq!(relay_route("GET", "/health"), RelayRoute::Health);
    assert_eq!(relay_route("GET", "/v1/models"), RelayRoute::Models);
    assert_eq!(relay_route("POST", "/v1/chat/completions"), RelayRoute::ChatCompletions);
    assert_eq!(relay_route("POST", "/v1/responses"), RelayRoute::Responses);
    assert_eq!(relay_route("PUT", "/v1/responses"), RelayRoute::Unsupported);
    assert_eq!(
        parse_header_line("Content-Length:  12 \r\n"),
        Some(("content-length".to_string(), "12".to_string()))
    );
    assert_eq!(parse_header_line("no colon"), None);
    let headers = vec![("content-length".to_string(), "12".to_string())];
    assert_eq!(content_length(&headers), 12);
    let bad = vec![("content-length".to_string(), "-1".to_string())];
    assert_eq!(content_length(&bad), 0);
}

#[test]
fn relay_status_and_log_limit() {
    let config = ModelGatewayConfig::default();
    let s = status_from(&config, "/cfg.json", Some(17431));
    assert!(s.running);
    assert_eq!(s.base_url, "http://127.0.0.1:17431");
    assert!(!status_from(&config, "/cfg.json", Some(1)).running);
    let mut logs = Vec::new();
    for i in 0..60u16 {
        push_log(
            &mut logs,
            ModelRelayLogEntry {
                timestamp_ms: i as u128,
                method: "GET".to_string(),
                path: "/".to_string(),
                provider_id: None,
                status: i,
                latency_ms: 0,
                error: None,
            },
        );
    }
    assert_eq!(logs.len(), 50);
    assert_eq!(logs[0].status, 10);
    assert_eq!(logs[49].status, 59);
}

fn jobj(pairs: Vec<(&str, JsonValue)>) -> JsonValue {
    JsonValue::Object(pairs.into_iter().map(|(k, v)| (k.to_string(), v)).collect())
}

fn jstr(x: &str) -> JsonValue {
    JsonValue::Str(x.to_string())
}

#[test]
fn upstream_model_lists_in_their_shapes() {
    let data = jobj(vec![(
        "data",
        JsonValue::Array(vec![
            jobj(vec![("id", jstr("b")), ("owned_by", jstr("org"))]),
            jstr("a"),
            jobj(vec![("name", jstr("c")), ("ownedBy", jstr("me"))]),
            jobj(vec![("object", jstr("model"))]),
        ]),
    )]);
    let models = upstream_models_from_json(&data);
    let ids: Vec<&str> = models.iter().map(|m| m.id.as_str()).collect();
    assert_eq!(ids, vec!["b", "a", "c"]);
    assert_eq!(models[0].owned_by, Some("org".to_string()));
    assert_eq!(models[2].owned_by, Some("me".to_string()));
    let payload = upstream_models_payload("p".to_string(), "e".to_string(), models);
    let sorted: Vec<&str> = payload.models.iter().map(|m| m.id.as_str()).collect();
    assert_eq!(sorted, vec!["a", "b", "c"]);

    let bare = JsonValue::Array(vec![jstr("x"), jstr("x")]);
    assert_eq!(upstream_models_from_json(&bare).len(), 2);
    let nested = jobj(vec![("models", JsonValue::Array(vec![jobj(vec![("id", jstr("m"))])]))]);
    assert_eq!(upstream_models_from_json(&nested)[0].id, "m");
    assert!(upstream_models_from_json(&jobj(vec![("data", jstr("no"))])).is_empty());
    let not_text_owner = jobj(vec![("data", JsonValue::Array(vec![jobj(vec![("id", jstr("z")), ("owned_by", JsonValue::Null), ("ownedBy", jstr("ignored"))])]))]);
    assert_eq!(upstream_models_from_json(&not_text_owner)[0].owned_by, None);
}

#[test]
fn relay_settings_are_checked_and_trimmed() {
    let config = ModelGatewayConfig::default();
    assert_eq!(
        save_model_relay_config(config.clone(), 0, true, false, None).unwrap_err(),
        "Relay port must be greater than 0"
    );
    let saved = save_model_relay_config(config.clone(), 18000, true, true, Some("  tok ".to_string())).unwrap();
    assert_eq!(saved.relay.port, 18000);
    assert!(saved.relay.enabled && saved.relay.auto_start);
    assert_eq!(saved.relay.management_token, Some("tok".to_string()));
    let blank = save_model_relay_config(config, 18000, false, false, Some("   ".to_string())).unwrap();
    assert_eq!(blank.relay.management_token, None);
}

#[test]
fn requested_model_reads_the_body() {
    assert_eq!(requested_model(&jobj(vec![("model", jstr("gpt"))])), Some("gpt".to_string()));
    assert_eq!(requested_model(&jobj(vec![("model", JsonValue::Number("1".to_string()))])), None);
    assert_eq!(requested_model(&JsonValue::Null), None);
}

#[test]
fn relayed_requests_are_posted_in_the_provider_shape() {
    assert_eq!(
        upstream_post(RelayRoute::ChatCompletions, ModelProviderKind::Responses),
        Some(("/responses".to_string(), Conversion::ChatToResponses))
    );
    assert_eq!(
        upstream_post(RelayRoute::Responses, ModelProviderKind::OpenaiCompatible),
        Some(("/chat/completions".to_string(), Conversion::ResponsesToChat))
    );
    assert_eq!(
        upstream_post(RelayRoute::Responses, ModelProviderKind::Responses),
        Some(("/responses".to_string(), Conversion::Unchanged))
    );
    assert_eq!(upstream_post(RelayRoute::Models, ModelProviderKind::Responses), None);
    assert_eq!(upstream_endpoint("https://api.example.com/v1//", "/responses"), "https://api.example.com/v1/responses");
}

#[test]
fn model_list_replies_become_payloads() {
    let failed = upstream_models_reply("p".to_string(), "e".to_string(), 401, " denied ").expect("payload");
    assert!(!failed.ok);
    assert!(failed.models.is_empty());
    assert_eq!(failed.error.as_deref(), Some("List upstream models failed with HTTP 401: denied"));
    let broken = upstream_models_reply("p".to_string(), "e".to_string(), 200, "not json");
    assert!(broken.expect_err("invalid").starts_with("Invalid models response JSON: "));
    let listed = upstream_models_reply(
        "p".to_string(),
        "e".to_string(),
        200,
        r#"{"data":[{"id":"b"},{"id":"a","owned_by":"x"},{"id":"b"}]}"#,
    )
    .expect("payload");
    assert!(listed.ok);
    let ids: Vec<&str> = listed.models.iter().map(|m| m.id.as_str()).collect();
    assert_eq!(ids, vec!["a", "b"]);
    let empty = upstream_models_reply("p".to_string(), "e".to_string(), 200, r#"{"data":[]}"#).expect("payload");
    assert!(!empty.ok);
}
