//! Discovery, registration, tool names, sessions and the event stream of MCP servers.
use coulisse::ids::UserId;
use coulisse::mcp::config::{McpOAuthConfig, McpServerConfig, McpToolAccess, McpTransport};
use coulisse::mcp::dcr::{
    pick_auth_method, register, registration, request, RegistrationResponse,
};
use coulisse::mcp::discovery::{
    authorization_server_url, fetch, format_origin, issuer, origin_of, protected_resource_url,
    resource_metadata, AuthMetadata, Fetched, ProtectedResourceMetadata,
};
use coulisse::mcp::error::{looks_like_auth_failure, McpError};
use coulisse::mcp::oauth::TokenResponse;
use coulisse::mcp::pool::{
    connect_user_session, do_refresh, is_refresh_due, launch_error, refresh_request,
    session_cache_size, Action, Event, Launch, LaunchFailure, NotConnectedTool, Phase, SessionFlow,
    ToolInfo, UnreachableTool,
};
use coulisse::mcp::routes::{ConnectLinkSigner, PublicBaseUrl};
use coulisse::mcp::sanitize::{apply, dedupe, sanitize_name};
use coulisse::mcp::server::{
    named_placeholder, pick_tools, sentinel_placeholder, McpServers, ToolSource,
};
use coulisse::mcp::sse_client::{
    await_endpoint, check_stream, post_message, resolve_endpoint, run, worker_name, Delivery,
    Incoming, SseClientError,
};
use coulisse::mcp::vault::{StoredClient, StoredToken};
use coulisse::names::NameMap;
use base64::engine::general_purpose::STANDARD;
use base64::Engine;
use std::collections::HashMap;

const NOW: u64 = 1_700_000_000;

fn texts(all: &[&str]) -> Vec<String> {
    all.iter().map(|s| s.to_string()).collect()
}

fn text_field(value: &serde_json::Value, key: &str) -> Option<String> {
    value.get(key).and_then(serde_json::Value::as_str).map(str::to_string)
}

fn list_field(value: &serde_json::Value, key: &str) -> Vec<String> {
    match value.get(key) {
        Some(v) => serde_json::from_value(v.clone()).unwrap(),
        None => vec![],
    }
}

fn registration_response(body: &str) -> RegistrationResponse {
    let value: serde_json::Value = serde_json::from_str(body).unwrap();
    RegistrationResponse {
        client_id: text_field(&value, "client_id").unwrap(),
        client_secret: text_field(&value, "client_secret"),
        scope: text_field(&value, "scope"),
    }
}

fn metadata(registration: Option<&str>, methods: &[&str], scopes: &[&str]) -> AuthMetadata {
    AuthMetadata {
        authorization_endpoint: "https://auth.example.com/authorize".to_string(),
        registration_endpoint: registration.map(str::to_string),
        scopes_supported: texts(scopes),
        token_endpoint: "https://auth.example.com/token".to_string(),
        token_endpoint_auth_methods_supported: texts(methods),
    }
}

#[test]
fn parses_space_separated_scopes_from_registration_response() {
    let parsed = registration_response(
        r#"{
            "client_id": "abc",
            "client_secret": null,
            "scope": "read:jira-work write:jira-work offline_access"
        }"#,
    );
    assert_eq!(parsed.scope.as_deref(), Some("read:jira-work write:jira-work offline_access"));
    let registered = registration(parsed);
    assert_eq!(registered.client_id, "abc");
    assert!(registered.client_secret.is_none());
    assert_eq!(
        registered.scopes,
        Some(texts(&["read:jira-work", "write:jira-work", "offline_access"]))
    );
}

#[test]
fn missing_scope_field_is_none() {
    let parsed = registration_response(r#"{"client_id":"abc"}"#);
    assert!(parsed.scope.is_none());
    assert!(parsed.client_secret.is_none());
    assert!(registration(parsed).scopes.is_none());
}

#[test]
fn prefers_none_when_advertised() {
    assert_eq!(
        pick_auth_method(&texts(&["client_secret_basic", "client_secret_post", "none"])),
        "none"
    );
    assert_eq!(pick_auth_method(&texts(&["none"])), "none");
}

#[test]
fn falls_back_to_client_secret_post_when_none_not_advertised() {
    assert_eq!(
        pick_auth_method(&texts(&["client_secret_basic", "client_secret_post"])),
        "client_secret_post"
    );
}

#[test]
fn empty_list_defaults_to_none() {
    assert_eq!(pick_auth_method(&texts(&[])), "none");
}

#[test]
fn registration_asks_for_what_the_server_offers() {
    let meta =
        metadata(Some("https://auth.example.com/register"), &["client_secret_post"], &[]);
    let (url, body) = request("github", &meta, "http://localhost/cb").unwrap();
    assert_eq!(url, "https://auth.example.com/register");
    assert_eq!(body.client_name, "Coulisse");
    assert_eq!(body.grant_types, texts(&["authorization_code", "refresh_token"]));
    assert_eq!(body.redirect_uris, texts(&["http://localhost/cb"]));
    assert_eq!(body.response_types, texts(&["code"]));
    assert_eq!(body.token_endpoint_auth_method, "client_secret_post");
    let (_, body) = request("github", &metadata(Some("u"), &[], &[]), "cb").unwrap();
    assert_eq!(body.token_endpoint_auth_method, "none");
}

#[test]
fn registration_needs_an_endpoint() {
    assert!(matches!(
        request("github", &metadata(None, &[], &[]), "cb"),
        Err(McpError::DcrUnsupported { server }) if server == "github"
    ));
}

#[test]
fn refused_registration_tells_status_and_body() {
    let refused = register(
        "github",
        Fetched::Refused {
            body: "nope".to_string(),
            status: 400,
            status_text: "400 Bad Request".to_string(),
        },
    );
    match refused {
        Err(McpError::DynamicClientRegistration { server, source }) => {
            assert_eq!(server, "github");
            assert!(source.contains("400 Bad Request"), "{source}");
            assert!(source.contains("nope"), "{source}");
        }
        other => panic!("{other:?}"),
    }
    assert!(matches!(
        register("github", Fetched::Failed("down".to_string())),
        Err(McpError::DynamicClientRegistration { .. })
    ));
    let ok = register("github", Fetched::Answered(Ok(registration_response(r#"{"client_id":"x"}"#))));
    assert_eq!(ok.unwrap().client_id, "x");
}

#[test]
fn origin_strips_path() {
    assert_eq!(origin_of("https://ai.todoist.net/mcp").unwrap(), "https://ai.todoist.net");
}

#[test]
fn origin_preserves_explicit_port() {
    assert_eq!(origin_of("http://localhost:9999/mcp/v1").unwrap(), "http://localhost:9999");
}

#[test]
fn origin_strips_query_and_fragment() {
    assert_eq!(origin_of("https://example.com/mcp?token=x#frag").unwrap(), "https://example.com");
}

#[test]
fn origin_rejects_malformed_url() {
    assert!(matches!(origin_of("not a url"), Err(McpError::DiscoveryInvalidUrl { .. })));
}

#[test]
fn origin_is_put_together_from_its_parts() {
    assert_eq!(format_origin("http", "h", Some(80)), "http://h:80");
    assert_eq!(format_origin("https", "h", None), "https://h");
}

fn resource(body: &str) -> ProtectedResourceMetadata {
    let value: serde_json::Value = serde_json::from_str(body).unwrap();
    ProtectedResourceMetadata {
        authorization_servers: list_field(&value, "authorization_servers"),
        scopes_supported: list_field(&value, "scopes_supported"),
    }
}

#[test]
fn parses_todoist_protected_resource_metadata() {
    let prm = resource(
        r#"{
            "resource": "https://ai.todoist.net/mcp",
            "authorization_servers": ["https://todoist.com"],
            "bearer_methods_supported": ["header"],
            "scopes_supported": ["data:read_write"]
        }"#,
    );
    assert_eq!(prm.authorization_servers, vec!["https://todoist.com"]);
    assert_eq!(prm.scopes_supported, vec!["data:read_write"]);
    assert_eq!(issuer(&Some(prm), "https://ai.todoist.net"), "https://todoist.com");
}

#[test]
fn empty_authorization_servers_falls_back() {
    let prm = resource(r#"{"authorization_servers": []}"#);
    assert!(prm.authorization_servers.is_empty());
    assert!(prm.scopes_supported.is_empty());
    assert_eq!(issuer(&Some(prm), "https://o"), "https://o");
    assert_eq!(issuer(&None, "https://o"), "https://o");
}

#[test]
fn metadata_urls_are_well_known() {
    assert_eq!(
        protected_resource_url("https://o"),
        "https://o/.well-known/oauth-protected-resource"
    );
    assert_eq!(
        authorization_server_url("https://o/"),
        "https://o/.well-known/oauth-authorization-server"
    );
    assert_eq!(
        authorization_server_url("https://o"),
        "https://o/.well-known/oauth-authorization-server"
    );
}

#[test]
fn resource_scopes_win_over_server_scopes() {
    let prm = resource(r#"{"scopes_supported": ["r"]}"#);
    let meta =
        fetch("https://u", Some(prm), Fetched::Answered(Ok(metadata(None, &[], &["s"])))).unwrap();
    assert_eq!(meta.scopes_supported, texts(&["r"]));
    let meta = fetch("https://u", None, Fetched::Answered(Ok(metadata(None, &[], &["s"])))).unwrap();
    assert_eq!(meta.scopes_supported, texts(&["s"]));
}

#[test]
fn failed_discovery_is_an_error() {
    assert!(matches!(
        fetch("https://u", None, Fetched::Failed("down".to_string())),
        Err(McpError::Discovery { .. })
    ));
    assert!(matches!(
        fetch(
            "https://u",
            None,
            Fetched::Refused {
                body: String::new(),
                status: 404,
                status_text: "404 Not Found".to_string(),
            },
        ),
        Err(McpError::DiscoveryStatus { status: 404, .. })
    ));
    assert!(resource_metadata(Fetched::Failed("down".to_string())).is_none());
}

#[test]
fn dots_become_underscores() {
    assert_eq!(sanitize_name("matrix.v1.messages.send_text"), "matrix_v1_messages_send_text");
}

#[test]
fn compliant_name_passes_through() {
    assert_eq!(sanitize_name("read_file"), "read_file");
    assert_eq!(sanitize_name("Some-Tool_42"), "Some-Tool_42");
}

#[test]
fn truncates_to_128_chars() {
    let long = "x".repeat(200);
    let out = sanitize_name(&long);
    assert_eq!(out.len(), 128);
}

#[test]
fn unicode_becomes_underscore() {
    assert_eq!(sanitize_name("h\u{e9}llo.w\u{f6}rld"), "h_llo_w_rld");
}

#[test]
fn collision_resolves_with_numeric_suffix() {
    let names = apply(&texts(&["matrix.send", "matrix_send", "matrix-send"]));
    assert_eq!(names, vec!["matrix_send", "matrix_send_2", "matrix-send"]);
}

#[test]
fn third_taker_gets_the_next_number() {
    let mut taken = texts(&["a", "a_2"]);
    assert_eq!(dedupe("a", &mut taken), "a_3");
    assert_eq!(taken, texts(&["a", "a_2", "a_3"]));
    assert_eq!(dedupe("b", &mut taken), "b");
}

#[test]
fn suffix_keeps_a_long_name_in_bounds() {
    let long = "x".repeat(130);
    let names = apply(&vec![long.clone(), long]);
    assert_eq!(names[0], "x".repeat(128));
    assert_eq!(names[1], format!("{}_2", "x".repeat(126)));
}

#[test]
fn a_tool_without_a_name_gets_one() {
    assert_eq!(apply(&texts(&["", "", "_"])), vec!["_", "__2", "__3"]);
}

#[test]
fn absolute_endpoint_url_round_trips() {
    let resolved = resolve_endpoint(
        "https://mcp.example.com/v1/sse",
        "https://mcp.example.com/v1/messages/abc",
    )
    .unwrap();
    assert_eq!(resolved, "https://mcp.example.com/v1/messages/abc");
}

#[test]
fn relative_endpoint_resolves_against_base() {
    let resolved =
        resolve_endpoint("https://mcp.example.com/v1/sse", "/v1/messages/abc?session=xyz").unwrap();
    assert_eq!(resolved, "https://mcp.example.com/v1/messages/abc?session=xyz");
}

#[test]
fn path_relative_endpoint_resolves() {
    let resolved = resolve_endpoint("https://mcp.example.com/v1/sse", "messages/abc").unwrap();
    assert_eq!(resolved, "https://mcp.example.com/v1/messages/abc");
}

#[test]
fn unparseable_base_url_errors() {
    let err = resolve_endpoint("not a url", "relative").unwrap_err();
    assert!(matches!(err, SseClientError::BadEndpointUrl { .. }));
}

fn event(name: &str, data: &str) -> Delivery {
    Delivery::Event { data: data.to_string(), event: name.to_string() }
}

#[test]
fn endpoint_event_is_awaited() {
    let url = "https://mcp.example.com/v1/sse";
    assert_eq!(await_endpoint(url, event("ping", "")).unwrap(), None);
    assert_eq!(
        await_endpoint(url, event("endpoint", " /m \n")).unwrap().as_deref(),
        Some("https://mcp.example.com/m")
    );
    assert!(matches!(
        await_endpoint(url, Delivery::Ended),
        Err(SseClientError::MissingEndpointEvent { .. })
    ));
    assert!(matches!(
        await_endpoint(url, Delivery::Failed("x".to_string())),
        Err(SseClientError::Stream(_))
    ));
}

#[test]
fn only_messages_reach_the_session() {
    assert!(matches!(run(event("message", " {} ")), Incoming::Message(m) if m == "{}"));
    assert!(matches!(run(event("", "{}")), Incoming::Message(_)));
    assert!(matches!(run(event("ping", "{}")), Incoming::Skip));
    assert!(matches!(run(event("message", "  ")), Incoming::Skip));
    assert!(matches!(run(Delivery::Ended), Incoming::TransportClosed));
    assert!(matches!(run(Delivery::Failed("x".to_string())), Incoming::Fatal(_)));
}

#[test]
fn statuses_of_the_stream_are_checked() {
    assert!(check_stream("u", 200).is_ok());
    assert!(matches!(
        check_stream("u", 401),
        Err(SseClientError::BadStatus { status: 401, .. })
    ));
    assert!(post_message("u", 202, String::new()).is_ok());
    assert!(matches!(
        post_message("u", 500, "b".to_string()),
        Err(SseClientError::PostStatus { status: 500, .. })
    ));
    assert_eq!(worker_name("https://u"), "sse-client:https://u");
}

#[test]
fn looks_like_auth_failure_matches_rmcp_variant_names() {
    let error = |source: &str| McpError::Connect {
        server: "x".to_string(),
        source: source.to_string(),
    };
    assert!(!error("connection refused").looks_like_auth_failure());
    assert!(error("Transport channel closed, when AuthRequired(AuthRequiredError { ... })")
        .looks_like_auth_failure());
    assert!(error("InsufficientScope(InsufficientScopeError { ... })").looks_like_auth_failure());
    assert!(error(
        "Transport channel closed, when UnexpectedServerResponse(\"HTTP 401 Unauthorized: Unauthorized\")"
    )
    .looks_like_auth_failure());
    assert!(error("UnexpectedServerResponse(\"HTTP 403 Forbidden\")").looks_like_auth_failure());
    assert!(looks_like_auth_failure("HTTP 401"));
}

#[test]
fn sentinel_placeholder_advertises_connect_name_and_description() {
    let tool = sentinel_placeholder("todoist");
    assert_eq!(tool.name, "connect_todoist");
    let desc = tool.description.expect("sentinel must carry a description");
    assert!(desc.contains("todoist"), "description: {desc}");
    assert!(
        desc.contains("authorize") || desc.contains("connect"),
        "description should point the LLM at the auth flow: {desc}"
    );
}

#[test]
fn named_placeholder_preserves_caller_supplied_name() {
    let tool = named_placeholder("create_task");
    assert_eq!(tool.name, "create_task");
}

fn http_server(url: &str) -> McpServerConfig {
    McpServerConfig {
        no_rewrite: false,
        oauth: Some(McpOAuthConfig::Discover { scopes: vec![] }),
        transport: McpTransport::Http { url: url.to_string() },
    }
}

fn signer() -> ConnectLinkSigner {
    let key = STANDARD.encode(b"test-hmac-key-32bytes-padding!!!");
    ConnectLinkSigner::new(&key, PublicBaseUrl::new("http://localhost:8421")).unwrap()
}

fn access(server: &str, only: Option<&[&str]>) -> McpToolAccess {
    McpToolAccess { only: only.map(texts), server: server.to_string() }
}

fn not_connected(server: &str) -> Option<Result<Vec<String>, McpError>> {
    Some(Err(McpError::NotConnected { server: server.to_string(), user_id: "u".to_string() }))
}

fn servers_with(name: &str) -> McpServers {
    let mut configs = NameMap::new();
    configs.insert(name.to_string(), http_server("https://example.com/mcp"));
    McpServers { configs, has_user_pool: true, servers: NameMap::new() }
}

#[test]
fn no_only_no_token_surfaces_one_sentinel_tool() {
    let servers = servers_with("todoist");
    assert!(servers.needs_session("todoist"));
    let tools = servers.tools_for_user(
        "pm",
        &vec![access("todoist", None)],
        vec![not_connected("todoist")],
        UserId(1),
        Some(&signer()),
        NOW,
    );
    assert_eq!(tools.names, vec!["connect_todoist"]);
    match &tools.sources[0] {
        ToolSource::NotConnected(tool) => assert!(
            tool.call().contains("http://localhost:8421/mcp/todoist/connect?token="),
            "{}",
            tool.call()
        ),
        _ => panic!("expected a tool that asks to connect"),
    }
}

#[test]
fn only_list_without_token_keeps_the_names() {
    let servers = servers_with("todoist");
    let tools = servers.tools_for_user(
        "pm",
        &vec![access("todoist", Some(&["create.task", "list"]))],
        vec![not_connected("todoist")],
        UserId(1),
        None,
        NOW,
    );
    assert_eq!(tools.names, vec!["create_task", "list"]);
    assert!(tools.sources.iter().all(|s| matches!(s, ToolSource::NotConnected(_))));
}

#[test]
fn missing_server_does_not_crash_the_agent() {
    let servers = servers_with("present");
    let tools = servers.tools_for_user(
        "pm",
        &vec![access("missing", None), access("present", None)],
        vec![None, not_connected("present")],
        UserId(1),
        Some(&signer()),
        NOW,
    );
    assert_eq!(tools.names.len(), 2, "got tool names: {:?}", tools.names);
    assert!(tools.names.iter().any(|n| n == "missing_unreachable"), "{:?}", tools.names);
    assert!(tools.names.iter().any(|n| n == "connect_present"), "{:?}", tools.names);
}

#[test]
fn live_session_offers_its_tools() {
    let servers = servers_with("s");
    let tools = servers.tools_for_user(
        "pm",
        &vec![access("s", Some(&["b"]))],
        vec![Some(Ok(texts(&["a", "b"])))],
        UserId(1),
        None,
        NOW,
    );
    assert_eq!(tools.names, vec!["b"]);
    assert!(matches!(&tools.sources[0], ToolSource::Live(t) if t.server == "s" && t.tool == "b"));
}

#[test]
fn shared_tools_are_picked_in_order() {
    let available = texts(&["a", "b", "c"]);
    assert_eq!(pick_tools("g", "s", &None, &available).unwrap(), available);
    assert_eq!(
        pick_tools("g", "s", &Some(texts(&["c", "a"])), &available).unwrap(),
        texts(&["c", "a"])
    );
    assert!(matches!(
        pick_tools("g", "s", &Some(texts(&["z"])), &available),
        Err(McpError::ToolNotFound { tool, .. }) if tool == "z"
    ));
    let servers = McpServers {
        configs: NameMap::new(),
        has_user_pool: false,
        servers: NameMap::new(),
    };
    assert!(matches!(
        servers.tools_for("g", &vec![access("s", None)]),
        Err(McpError::ServerNotConfigured { .. })
    ));
}

#[test]
fn server_that_fails_at_boot_is_left_out() {
    let mut configs = NameMap::new();
    for name in ["a", "b", "c"] {
        let mut config = http_server("https://example.com/mcp");
        if name != "c" {
            config.oauth = None;
        }
        configs.insert(name.to_string(), config);
    }
    let outcomes = vec![
        ("a".to_string(), Err("refused".to_string())),
        ("b".to_string(), Ok(texts(&["x"]))),
        ("c".to_string(), Ok(texts(&["y"]))),
        ("d".to_string(), Ok(texts(&["z"]))),
    ];
    let servers = McpServers::connect_with_vault(configs, outcomes, true);
    assert!(servers.has_user_pool);
    assert_eq!(servers.configs.len(), 3);
    assert_eq!(servers.servers.len(), 1);
    assert_eq!(servers.servers.get("b"), Some(&texts(&["x"])));
    let tools = servers.tools_for_user(
        "pm",
        &vec![access("a", None), access("b", None)],
        vec![None, None],
        UserId(1),
        None,
        NOW,
    );
    assert_eq!(tools.names, vec!["a_unreachable", "x"]);
    assert!(!McpServers::connect(NameMap::new(), vec![]).has_user_pool);
}

#[test]
fn agent_without_a_user_gets_the_connected_tools() {
    let mut configs = NameMap::new();
    let mut servers = NameMap::new();
    for name in ["a", "b"] {
        let mut config = http_server("https://example.com/mcp");
        config.oauth = None;
        configs.insert(name.to_string(), config);
    }
    servers.insert("a".to_string(), texts(&["x.y", "x_y"]));
    let servers = McpServers { configs, has_user_pool: false, servers };
    let tools = servers.tools_for("g", &vec![access("a", None)]).unwrap();
    assert_eq!(tools.names, vec!["x_y", "x_y_2"]);
    assert!(matches!(
        servers.tools_for("g", &vec![access("a", None), access("b", None)]),
        Err(McpError::ServerNotConfigured { server, .. }) if server == "b"
    ));
    assert!(matches!(
        servers.tools_for("g", &vec![access("a", Some(&["z"]))]),
        Err(McpError::ToolNotFound { tool, .. }) if tool == "z"
    ));
}

fn stored(expires_at: Option<i64>, refresh: Option<&str>) -> StoredToken {
    StoredToken {
        access_token: "tok".to_string(),
        expires_at,
        refresh_token: refresh.map(str::to_string),
    }
}

fn flow() -> SessionFlow {
    SessionFlow::new("github", "user-1")
}

#[test]
fn token_without_expiry_not_rejected_as_expired() {
    assert!(!is_refresh_due(None, 5));
    let mut f = flow();
    let a = f.get_or_spawn(Event::Looked { cached: false, configured: true }, 5);
    assert!(matches!(a, Action::ReadToken));
    let a = f.get_or_spawn(Event::TokenRead(Ok(Some(stored(None, None)))), 5);
    assert!(matches!(a, Action::Connect { access_token } if access_token == "tok"));
    let a = f.get_or_spawn(Event::Connected { outcome: Ok(()), refused: false }, 5);
    assert!(matches!(a, Action::UseConnected));
    assert!(matches!(f.phase, Phase::Ended));
}

#[test]
fn unconfigured_server_is_reported() {
    let mut f = flow();
    let a = f.get_or_spawn(Event::Looked { cached: false, configured: false }, 5);
    assert!(matches!(a, Action::Fail(McpError::ServerNotConfigured { .. })));
}

#[test]
fn cached_session_is_used() {
    let mut f = flow();
    let a = f.get_or_spawn(Event::Looked { cached: true, configured: true }, 5);
    assert!(matches!(a, Action::UseCached));
}

#[test]
fn expired_token_returns_not_connected() {
    let now = 1_700_000_000;
    let mut f = flow();
    f.get_or_spawn(Event::Looked { cached: false, configured: true }, now);
    let mut a = f.get_or_spawn(Event::TokenRead(Ok(Some(stored(Some(1), None)))), now);
    if matches!(a, Action::DeleteToken) {
        a = f.get_or_spawn(Event::Deleted(Ok(())), now);
    }
    assert!(matches!(a, Action::Fail(McpError::NotConnected { .. })));
}

#[test]
fn due_token_is_refreshed_first() {
    let now = 1_700_000_000;
    assert!(is_refresh_due(Some(1), now));
    let mut f = flow();
    f.get_or_spawn(Event::Looked { cached: false, configured: true }, now);
    let a = f.get_or_spawn(Event::TokenRead(Ok(Some(stored(Some(1), Some("r"))))), now);
    assert!(matches!(a, Action::Refresh { refresh_token } if refresh_token == "r"));
    let a = f.get_or_spawn(Event::Refreshed(Ok(stored(None, None))), now);
    assert!(matches!(a, Action::Connect { .. }));
}

#[test]
fn refused_token_is_refreshed_then_dropped() {
    let mut f = flow();
    f.get_or_spawn(Event::Looked { cached: false, configured: true }, 5);
    f.get_or_spawn(Event::TokenRead(Ok(Some(stored(None, Some("r"))))), 5);
    let refusal = || McpError::Connect { server: "github".to_string(), source: "AuthRequired".to_string() };
    let a = f.get_or_spawn(Event::Connected { outcome: Err(refusal()), refused: true }, 5);
    assert!(matches!(a, Action::Refresh { .. }));
    let a = f.get_or_spawn(Event::Refreshed(Ok(stored(None, Some("r2")))), 5);
    assert!(matches!(a, Action::Connect { .. }));
    let a = f.get_or_spawn(Event::Connected { outcome: Err(refusal()), refused: true }, 5);
    assert!(matches!(a, Action::DeleteToken));
    let a = f.get_or_spawn(Event::Deleted(Ok(())), 5);
    assert!(matches!(a, Action::Fail(McpError::NotConnected { .. })));
}

#[test]
fn missing_token_is_not_connected() {
    let mut f = flow();
    f.get_or_spawn(Event::Looked { cached: false, configured: true }, 5);
    let a = f.get_or_spawn(Event::TokenRead(Ok(None)), 5);
    assert!(matches!(
        a,
        Action::Fail(McpError::NotConnected { server, user_id })
            if server == "github" && user_id == "user-1"
    ));
}

fn client(secret: Option<&str>) -> StoredClient {
    StoredClient {
        client_id: "cid".to_string(),
        client_secret: secret.map(str::to_string),
        metadata_json: "{}".to_string(),
        redirect_uri: "http://localhost/cb".to_string(),
    }
}

#[test]
fn refresh_posts_the_grant() {
    let (endpoint, form) = refresh_request(
        "github",
        "user-1",
        Some(client(Some("sec"))),
        Ok(metadata(None, &[], &[])),
        "r",
    )
    .unwrap();
    assert_eq!(endpoint, "https://auth.example.com/token");
    let get = |key: &str| form.iter().find(|(k, _)| k == key).map(|(_, v)| v.as_str());
    assert_eq!(get("grant_type"), Some("refresh_token"));
    assert_eq!(get("refresh_token"), Some("r"));
    assert_eq!(get("client_id"), Some("cid"));
    assert_eq!(get("client_secret"), Some("sec"));
    let (_, form) =
        refresh_request("github", "u", Some(client(None)), Ok(metadata(None, &[], &[])), "r")
            .unwrap();
    assert!(form.iter().all(|(k, _)| k != "client_secret"));
}

#[test]
fn refresh_without_client_is_not_connected() {
    assert!(matches!(
        refresh_request("github", "u", None, Ok(metadata(None, &[], &[])), "r"),
        Err(McpError::NotConnected { .. })
    ));
    assert!(matches!(
        refresh_request("github", "u", Some(client(None)), Err("bad".to_string()), "r"),
        Err(McpError::Discovery { url, .. }) if url == "<cached metadata for github>"
    ));
}

#[test]
fn refreshed_pair_keeps_the_old_refresh_token() {
    let answer = TokenResponse {
        access_token: "new".to_string(),
        expires_in: Some(10),
        refresh_token: None,
    };
    let token = do_refresh("github", "e", "old", Fetched::Answered(Ok(answer)), 100).unwrap();
    assert_eq!(token.access_token, "new");
    assert_eq!(token.refresh_token.as_deref(), Some("old"));
    assert_eq!(token.expires_at, Some(110));
    assert!(matches!(
        do_refresh("github", "e", "old", Fetched::Failed("x".to_string()), 100),
        Err(McpError::TokenExchange { .. })
    ));
}

#[test]
fn sessions_are_launched_with_their_token() {
    let cfg = http_server("https://example.com/mcp");
    assert!(matches!(
        connect_user_session(&cfg, Some("tok")),
        Launch::Http { authorization: Some(a), url: "https://example.com/mcp" } if a.contains("tok")
    ));
    let cfg = McpServerConfig {
        no_rewrite: false,
        oauth: None,
        transport: McpTransport::Stdio {
            args: vec![],
            command: "uvx".to_string(),
            env: HashMap::new(),
        },
    };
    assert!(matches!(
        connect_user_session(&cfg, Some("tok")),
        Launch::Child { command: "uvx", token: Some(t), .. } if t == "tok"
    ));
    assert!(matches!(
        launch_error("s", LaunchFailure::Spawn("x".to_string())),
        McpError::Spawn { .. }
    ));
    assert!(matches!(
        launch_error("s", LaunchFailure::Connect("x".to_string())),
        McpError::Connect { .. }
    ));
    assert!(matches!(
        launch_error("s", LaunchFailure::ListTools("x".to_string())),
        McpError::ListTools { .. }
    ));
}

fn tool_info(description: Option<&str>) -> ToolInfo {
    ToolInfo {
        description: description.map(str::to_string),
        input_schema: "{}".to_string(),
        name: "do_thing".to_string(),
    }
}

#[test]
fn not_connected_tool_returns_message_with_connect_url() {
    let nct = NotConnectedTool::new(
        "github",
        tool_info(Some("does a thing")),
        UserId(1),
        Some(&signer()),
        NOW,
    );
    assert_eq!(nct.name(), "do_thing");
    let result = nct.call();
    assert!(result.contains("github"));
    assert!(
        result.contains("http://localhost:8421/mcp/github/connect?token="),
        "message missing connect URL: {result}"
    );
}

#[test]
fn not_connected_tool_without_signer_warns() {
    let nct = NotConnectedTool::new("github", tool_info(None), UserId(1), None, NOW);
    assert!(nct.call().contains("misconfigured"));
}

#[test]
fn unreachable_tool_tells_why() {
    let tool = UnreachableTool::new("github", "connection refused");
    assert_eq!(tool.name(), "github_unreachable");
    assert!(tool.call().contains("connection refused"), "{}", tool.call());
}

#[test]
fn session_cache_has_a_default_size() {
    assert_eq!(session_cache_size(Some(3)), 3);
    assert!(session_cache_size(None) > 0);
}

#[test]
fn errors_read_as_sentences() {
    let e = McpError::ServerNotConfigured { agent: "a".to_string(), server: "s".to_string() };
    assert!(e.to_text().contains("'s'") || e.to_text().contains("s"), "{}", e.to_text());
    assert!(McpError::StateExpired.to_text().contains("expired"));
}
