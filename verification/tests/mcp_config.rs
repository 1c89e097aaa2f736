//! How MCP servers are configured.
use std::collections::HashMap;

use coulisse::mcp::config::{
    is_mcp_remote_package, is_node_package_runner, url_path_includes_sse, McpOAuthConfig,
    McpServerConfig, McpTransport, OAuthMap, OAuthMode, OAuthSetting, RawMcpServer, StaticCredentials,
};
use serde_yaml::Value;

fn text_of(map: &Value, key: &str) -> Option<String> {
    map.get(key).and_then(Value::as_str).map(str::to_string)
}

fn list_of(value: &Value) -> Result<Vec<String>, String> {
    serde_yaml::from_value(value.clone()).map_err(|e| e.to_string())
}

fn credentials_of(map: &Value) -> Result<StaticCredentials, String> {
    let need = |key: &str| text_of(map, key).ok_or(format!("missing field `{key}`"));
    Ok(StaticCredentials {
        authorization_url: need("authorization_url")?,
        client_id: need("client_id")?,
        client_secret: need("client_secret")?,
        redirect_uri: need("redirect_uri")?,
        scopes: map.get("scopes").map_or(Ok(vec![]), list_of)?,
        token_url: need("token_url")?,
    })
}

fn setting_of(value: &Value) -> OAuthSetting {
    match value {
        Value::Bool(b) => OAuthSetting::Flag(*b),
        Value::String(s) => OAuthSetting::Text(s.clone()),
        Value::Mapping(_) => OAuthSetting::Fields(OAuthMap {
            credentials: credentials_of(value),
            mode: match value.get("mode") {
                None => OAuthMode::Absent,
                Some(Value::String(mode)) => OAuthMode::Text(mode.clone()),
                Some(other) => OAuthMode::Other(serde_json::to_string(other).unwrap()),
            },
            scopes: value.get("scopes").map(list_of),
        }),
        _ => OAuthSetting::Other,
    }
}

/// The server that a YAML entry describes.
fn parse(yaml: &str) -> Result<McpServerConfig, String> {
    let map: Value = serde_yaml::from_str(yaml).map_err(|e| e.to_string())?;
    McpServerConfig::from_raw(RawMcpServer {
        args: map.get("args").map_or(Ok(vec![]), list_of)?,
        command: text_of(&map, "command"),
        env: HashMap::new(),
        no_rewrite: map.get("no_rewrite").and_then(Value::as_bool).unwrap_or(false),
        oauth: map.get("oauth").map(setting_of),
        transport: text_of(&map, "transport"),
        url: text_of(&map, "url"),
        use_mcp_remote: map.get("use_mcp_remote").and_then(Value::as_bool).unwrap_or(false),
    })
}

fn stdio(command: &str, args: &[&str]) -> McpServerConfig {
    McpServerConfig {
        no_rewrite: false,
        oauth: None,
        transport: McpTransport::Stdio {
            args: args.iter().map(|s| (*s).to_string()).collect(),
            command: command.to_string(),
            env: HashMap::new(),
        },
    }
}

#[test]
fn use_mcp_remote_rewrites_url_to_stdio_shim() {
    let yaml = "url: https://ai.todoist.net/mcp\nuse_mcp_remote: true\n";
    let cfg = parse(yaml).unwrap();
    match &cfg.transport {
        McpTransport::Stdio { command, args, env } => {
            assert_eq!(command, "npx");
            assert_eq!(
                args,
                &["-y", "mcp-remote@latest", "https://ai.todoist.net/mcp"]
            );
            assert!(env.is_empty());
        }
        other => panic!("expected stdio after use_mcp_remote rewrite, got {other:?}"),
    }
    // OAuth must be cleared: mcp-remote runs its own flow.
    assert!(cfg.oauth.is_none());
    // no_rewrite must be set, so that normalize_mcp_remote_shim leaves the entry alone.
    assert!(cfg.no_rewrite);
}

#[test]
fn use_mcp_remote_on_stdio_is_rejected() {
    let yaml = "command: foo\nuse_mcp_remote: true\n";
    let err = parse(yaml).unwrap_err();
    assert!(
        format!("{err}").contains("only makes sense with `url:`"),
        "expected the url-only error, got: {err}"
    );
}

#[test]
fn url_only_defaults_to_oauth_discover() {
    let yaml = "url: https://ai.todoist.net/mcp\n";
    let cfg = parse(yaml).unwrap();
    match cfg.oauth {
        Some(McpOAuthConfig::Discover { scopes }) => assert!(scopes.is_empty()),
        other => panic!("expected default-discover, got {other:?}"),
    }
}

#[test]
fn stdio_only_stays_without_oauth() {
    let yaml = "command: uvx\nargs: [hello-mcp-server]\n";
    let cfg = parse(yaml).unwrap();
    assert!(cfg.oauth.is_none());
}

#[test]
fn oauth_false_opts_out_of_default_discover() {
    let yaml = "url: http://localhost:8080\noauth: false\n";
    let cfg = parse(yaml).unwrap();
    assert!(cfg.oauth.is_none());
}

#[test]
fn oauth_true_opts_into_discover() {
    let yaml = "url: https://example.com/mcp\noauth: true\n";
    let cfg = parse(yaml).unwrap();
    assert!(matches!(cfg.oauth, Some(McpOAuthConfig::Discover { .. })));
}

#[test]
fn oauth_string_shorthand_discover() {
    let yaml = "url: https://ai.todoist.net/mcp\noauth: discover\n";
    let cfg = parse(yaml).unwrap();
    assert!(matches!(cfg.oauth, Some(McpOAuthConfig::Discover { .. })));
}

#[test]
fn oauth_map_without_mode_defaults_to_discover() {
    let yaml = "url: https://ai.todoist.net/mcp\noauth:\n  scopes: [data:read_write]\n";
    let cfg = parse(yaml).unwrap();
    match cfg.oauth {
        Some(McpOAuthConfig::Discover { scopes }) => {
            assert_eq!(scopes, vec!["data:read_write".to_string()]);
        }
        other => panic!("expected discover with scopes, got {other:?}"),
    }
}

#[test]
fn oauth_explicit_mode_discover_still_accepted() {
    let yaml = "url: https://ai.todoist.net/mcp\noauth:\n  mode: discover\n";
    let cfg = parse(yaml).unwrap();
    assert!(matches!(cfg.oauth, Some(McpOAuthConfig::Discover { .. })));
}

#[test]
fn oauth_static_mode_with_credentials() {
    let yaml = r#"
url: https://example.com/mcp
oauth:
  mode: static
  authorization_url: https://auth.example.com/authorize
  token_url: https://auth.example.com/token
  client_id: my-client
  client_secret: my-secret
  redirect_uri: http://localhost:8423/cb
"#;
    let cfg = parse(yaml).unwrap();
    assert!(matches!(cfg.oauth, Some(McpOAuthConfig::Static { .. })));
}

#[test]
fn oauth_unknown_shorthand_errors_clearly() {
    let yaml = "url: https://example.com\noauth: magic\n";
    let err = parse(yaml).unwrap_err();
    assert!(
        format!("{err}").contains("unknown oauth shorthand"),
        "expected shorthand error, got: {err}"
    );
}

#[test]
fn oauth_unknown_mode_errors_clearly() {
    let yaml = "url: https://example.com\noauth:\n  mode: device\n";
    let err = parse(yaml).unwrap_err();
    assert!(
        format!("{err}").contains("unknown oauth mode"),
        "expected mode error, got: {err}"
    );
}

#[test]
fn url_only_yaml_infers_http_transport() {
    let yaml = "url: https://example.com/mcp\n";
    let cfg = parse(yaml).unwrap();
    match cfg.transport {
        McpTransport::Http { url } => assert_eq!(url, "https://example.com/mcp"),
        other => panic!("expected http, got {other:?}"),
    }
}

#[test]
fn url_with_sse_path_infers_sse_transport() {
    let yaml = "url: https://mcp.atlassian.com/v1/sse\n";
    let cfg = parse(yaml).unwrap();
    assert!(matches!(cfg.transport, McpTransport::Sse { .. }));
}

#[test]
fn url_plus_oauth_discover_works() {
    let yaml = "url: https://ai.todoist.net/mcp\noauth:\n  mode: discover\n";
    let cfg = parse(yaml).unwrap();
    assert!(matches!(cfg.transport, McpTransport::Http { .. }));
    assert!(matches!(cfg.oauth, Some(McpOAuthConfig::Discover { .. })));
}

#[test]
fn command_only_yaml_infers_stdio_transport() {
    let yaml = "command: uvx\nargs: [hello-mcp-server]\n";
    let cfg = parse(yaml).unwrap();
    match cfg.transport {
        McpTransport::Stdio { command, args, .. } => {
            assert_eq!(command, "uvx");
            assert_eq!(args, vec!["hello-mcp-server".to_string()]);
        }
        other => panic!("expected stdio, got {other:?}"),
    }
}

#[test]
fn explicit_transport_tag_still_accepted() {
    let yaml = "transport: http\nurl: https://example.com/mcp\n";
    let cfg = parse(yaml).unwrap();
    assert!(matches!(cfg.transport, McpTransport::Http { .. }));
}

#[test]
fn url_and_command_together_is_rejected() {
    let yaml = "url: https://example.com\ncommand: uvx\n";
    let err = parse(yaml).unwrap_err();
    assert!(
        format!("{err}").contains("specify either `url:`"),
        "expected url/command conflict message, got: {err}"
    );
}

#[test]
fn neither_url_nor_command_is_rejected() {
    let yaml = "oauth:\n  mode: discover\n";
    let err = parse(yaml).unwrap_err();
    assert!(
        format!("{err}").contains("`url:`") && format!("{err}").contains("`command:`"),
        "error should hint at the two valid forms, got: {err}"
    );
}

#[test]
fn unknown_explicit_transport_is_rejected() {
    let yaml = "transport: websocket\nurl: ws://example.com\n";
    let err = parse(yaml).unwrap_err();
    assert!(
        format!("{err}").contains("unknown transport"),
        "error should call out the bad tag, got: {err}"
    );
}

#[test]
fn no_rewrite_flag_skips_normalization() {
    let mut cfg = stdio(
        "npx",
        &["-y", "mcp-remote@latest", "https://ai.todoist.net/mcp"],
    );
    cfg.no_rewrite = true;
    assert!(cfg.normalize_mcp_remote_shim().is_none());
    // Transport must stay as stdio.
    assert!(matches!(cfg.transport, McpTransport::Stdio { .. }));
    assert!(cfg.oauth.is_none());
}

#[test]
fn rewrites_canonical_mcp_remote_shim() {
    let mut cfg = stdio(
        "npx",
        &["-y", "mcp-remote@latest", "https://example.com/mcp"],
    );
    let warning = cfg.normalize_mcp_remote_shim().expect("should rewrite");
    assert!(warning.contains("https://example.com/mcp"));
    match cfg.transport {
        McpTransport::Http { url } => assert_eq!(url, "https://example.com/mcp"),
        other => panic!("expected http transport, got {other:?}"),
    }
    assert!(matches!(cfg.oauth, Some(McpOAuthConfig::Discover { .. })));
}

#[test]
fn rewrites_without_version_pin() {
    let mut cfg = stdio("npx", &["-y", "mcp-remote", "https://example.com/mcp"]);
    cfg.normalize_mcp_remote_shim().expect("should rewrite");
    assert!(matches!(cfg.transport, McpTransport::Http { .. }));
}

#[test]
fn rewrites_pnpm_runner() {
    let mut cfg = stdio("pnpm", &["dlx", "mcp-remote", "https://example.com/mcp"]);
    cfg.normalize_mcp_remote_shim()
        .expect("pnpm should be detected");
}

#[test]
fn rewrites_absolute_path_runner() {
    let mut cfg = stdio(
        "/usr/local/bin/npx",
        &["-y", "mcp-remote", "https://example.com/mcp"],
    );
    cfg.normalize_mcp_remote_shim()
        .expect("basename match should work for absolute paths");
}

#[test]
fn preserves_existing_static_oauth() {
    let mut cfg = stdio("npx", &["-y", "mcp-remote", "https://example.com/mcp"]);
    cfg.oauth = Some(McpOAuthConfig::Static {
        authorization_url: "https://auth.example.com/authorize".into(),
        client_id: "id".into(),
        client_secret: "secret".into(),
        redirect_uri: "https://coulisse.example.com/mcp/x/oauth/callback".into(),
        scopes: vec![],
        token_url: "https://auth.example.com/token".into(),
    });
    cfg.normalize_mcp_remote_shim().expect("rewrites transport");
    // Transport is now http but the user-supplied oauth: static is untouched.
    assert!(matches!(cfg.transport, McpTransport::Http { .. }));
    assert!(matches!(cfg.oauth, Some(McpOAuthConfig::Static { .. })));
}

#[test]
fn does_not_touch_non_mcp_remote_stdio() {
    let mut cfg = stdio("python", &["-m", "my_mcp"]);
    assert!(cfg.normalize_mcp_remote_shim().is_none());

    let mut cfg = stdio("npx", &["-y", "some-other-package"]);
    assert!(cfg.normalize_mcp_remote_shim().is_none());

    let mut cfg = stdio("npx", &["-y", "not-mcp-remote", "https://example.com"]);
    assert!(cfg.normalize_mcp_remote_shim().is_none());
}

#[test]
fn does_not_touch_already_http_transport() {
    let mut cfg = McpServerConfig {
        no_rewrite: false,
        oauth: None,
        transport: McpTransport::Http {
            url: "https://example.com/mcp".to_string(),
        },
    };
    assert!(cfg.normalize_mcp_remote_shim().is_none());
}

#[test]
fn skips_shim_when_custom_env_is_present() {
    let mut cfg = McpServerConfig {
        no_rewrite: false,
        oauth: None,
        transport: McpTransport::Stdio {
            args: vec![
                "-y".into(),
                "mcp-remote".into(),
                "https://example.com/mcp".into(),
            ],
            command: "npx".into(),
            env: HashMap::from([("DEBUG".to_string(), "1".to_string())]),
        },
    };
    assert!(
        cfg.normalize_mcp_remote_shim().is_none(),
        "custom env vars mean we don't fully understand the shim — leave it alone"
    );
}

#[test]
fn detects_scoped_mcp_remote() {
    assert!(is_mcp_remote_package("mcp-remote"));
    assert!(is_mcp_remote_package("mcp-remote@latest"));
    assert!(is_mcp_remote_package("mcp-remote@1.2.3"));
    assert!(is_mcp_remote_package("@scope/mcp-remote"));
    assert!(is_mcp_remote_package("@scope/mcp-remote@1.0.0"));
    assert!(!is_mcp_remote_package("not-mcp-remote"));
    assert!(!is_mcp_remote_package("mcp-remoteX"));
    assert!(!is_mcp_remote_package("@scope/other"));
}

#[test]
fn sse_only_url_rewrites_to_sse_transport() {
    let mut cfg = stdio(
        "npx",
        &[
            "-y",
            "mcp-remote@latest",
            "https://mcp.atlassian.com/v1/sse",
        ],
    );
    let warning = cfg
        .normalize_mcp_remote_shim()
        .expect("should rewrite SSE-only URLs to native SSE transport");
    assert!(
        warning.contains("SSE transport"),
        "warning should mention the SSE rewrite: {warning}"
    );
    match &cfg.transport {
        McpTransport::Sse { url } => {
            assert_eq!(url, "https://mcp.atlassian.com/v1/sse");
        }
        other => panic!("expected SSE transport, got {other:?}"),
    }
    assert!(matches!(cfg.oauth, Some(McpOAuthConfig::Discover { .. })));
}

#[test]
fn non_sse_url_still_rewrites_normally() {
    let mut cfg = stdio(
        "npx",
        &["-y", "mcp-remote@latest", "https://ai.todoist.net/mcp"],
    );
    cfg.normalize_mcp_remote_shim().expect("should rewrite");
    assert!(matches!(cfg.transport, McpTransport::Http { .. }));
    assert!(matches!(cfg.oauth, Some(McpOAuthConfig::Discover { .. })));
}

#[test]
fn url_path_includes_sse_matches_path_segments_only() {
    assert!(url_path_includes_sse(
        "https://mcp.atlassian.com/v1/sse"
    ));
    assert!(url_path_includes_sse("https://example.com/sse"));
    assert!(url_path_includes_sse("https://example.com/sse/"));
    assert!(url_path_includes_sse(
        "https://example.com/sse/extra"
    ));
    // Case-insensitive on the segment.
    assert!(url_path_includes_sse("https://example.com/SSE"));
    // Host containing "sse" is not a path segment.
    assert!(!url_path_includes_sse("https://sse.example.com/mcp"));
    // Substring in another path segment doesn't count.
    assert!(!url_path_includes_sse("https://example.com/parsse"));
    assert!(!url_path_includes_sse(
        "https://example.com/ssegment"
    ));
    // Query / fragment shouldn't match.
    assert!(!url_path_includes_sse(
        "https://example.com/mcp?type=sse"
    ));
}

#[test]
fn discovered_or_configured_scopes_are_effective() {
    let none = McpOAuthConfig::Discover { scopes: vec![] };
    let found = vec!["read".to_string(), "write".to_string()];
    assert_eq!(none.effective_scopes("s", &found), found);
    let own = McpOAuthConfig::Discover { scopes: vec!["mine".to_string()] };
    assert_eq!(own.effective_scopes("s", &found), vec!["mine".to_string()]);
}

#[test]
fn normalizing_twice_changes_nothing_more() {
    let mut cfg = stdio("npx", &["-y", "mcp-remote", "https://example.com/mcp"]);
    assert!(cfg.normalize_mcp_remote_shim().is_some());
    assert!(cfg.normalize_mcp_remote_shim().is_none());
    assert!(matches!(cfg.transport, McpTransport::Http { .. }));
}

#[test]
fn runners_are_told_by_their_base_name() {
    assert!(is_node_package_runner("npx"));
    assert!(is_node_package_runner("/usr/bin/pnpm"));
    assert!(!is_node_package_runner("python"));
}

#[test]
fn static_mode_without_credentials_is_rejected() {
    let err = parse("url: https://example.com\noauth:\n  mode: static\n").unwrap_err();
    assert!(err.contains("missing field"), "{err}");
}

#[test]
fn oauth_of_another_type_is_rejected() {
    assert!(parse("url: https://example.com\noauth: 3\n").is_err());
}

#[test]
fn warning_spells_the_entry_to_write() {
    let mut cfg = stdio("npx", &["-y", "mcp-remote@latest", "https://example.com/mcp"]);
    let warning = cfg.normalize_mcp_remote_shim().unwrap();
    assert!(warning.contains("https://example.com/mcp"), "{warning}");
}

#[test]
fn shim_with_further_arguments_is_left_alone() {
    let mut cfg = stdio(
        "npx",
        &["-y", "mcp-remote", "https://example.com/mcp", "--header", "Authorization: Bearer x"],
    );
    assert!(cfg.normalize_mcp_remote_shim().is_none());
    match &cfg.transport {
        McpTransport::Stdio { args, .. } => assert_eq!(args.len(), 5),
        other => panic!("{other:?}"),
    }
}

#[test]
fn shim_is_the_package_and_then_the_url() {
    assert!(stdio("pnpm", &["dlx", "mcp-remote", "https://example.com/mcp"])
        .normalize_mcp_remote_shim()
        .is_some());
    assert!(stdio("npx", &["dlx", "mcp-remote", "https://example.com/mcp"])
        .normalize_mcp_remote_shim()
        .is_none());
    assert!(stdio("npx", &["https://example.com/mcp", "mcp-remote"])
        .normalize_mcp_remote_shim()
        .is_none());
}

#[test]
fn sse_in_a_query_or_fragment_is_no_path() {
    assert!(!url_path_includes_sse("https://example.com?next=/sse"));
    assert!(!url_path_includes_sse("https://example.com/mcp?next=/sse/"));
    assert!(!url_path_includes_sse("https://example.com/mcp#/sse"));
    assert!(url_path_includes_sse("https://example.com/sse?next=/mcp"));
}

#[test]
fn package_is_no_url_or_path() {
    assert!(!is_mcp_remote_package("https://example.com/mcp-remote"));
    assert!(!is_mcp_remote_package("example.com/mcp-remote"));
    assert!(!is_mcp_remote_package("@/mcp-remote"));
}

#[test]
fn mode_of_another_type_is_rejected() {
    let err = parse("url: https://example.com\noauth:\n  mode: 5\n").unwrap_err();
    assert!(err.contains('5'), "{err}");
    assert!(parse("url: https://example.com\noauth:\n  mode: [discover]\n").is_err());
}
