//! The routes that connect a user to an MCP server.
use base64::engine::general_purpose::STANDARD;
use base64::Engine;
use coulisse::ids::UserId;
use coulisse::mcp::config::{McpOAuthConfig, McpServerConfig, McpTransport};
use coulisse::mcp::dcr::ClientRegistration;
use coulisse::mcp::discovery::AuthMetadata;
use coulisse::mcp::error::McpError;
use coulisse::mcp::oauth::{
    ClientId, ClientSecret, CodeChallenge, CodeVerifier, RedirectUri, StateKey, StateToken,
    TokenResponse,
};
use coulisse::mcp::routes::{
    constant_time_eq, error_page, register_client, resolve, resolve_with_client, success_page,
    CallbackQuery, ConnectLinkQuery, ConnectLinkSigner, ConnectQuery, ConsumerSecret,
    OAuthRouterState, Pending, PublicBaseUrl, Reply, ResolveStep, ResolvedOAuth,
};
use coulisse::names::NameMap;

const HMAC_KEY: &[u8] = b"test-hmac-key-32bytes-padding!!!";
const SECRET: &str = "supersecret";
const NOW: u64 = 1_700_000_000;

fn key() -> StateKey {
    StateKey::from_base64(&STANDARD.encode(HMAC_KEY)).unwrap()
}

fn signer() -> ConnectLinkSigner {
    let key = STANDARD.encode(HMAC_KEY);
    ConnectLinkSigner::new(&key, PublicBaseUrl::new("http://localhost:8421")).unwrap()
}

fn static_oauth() -> McpOAuthConfig {
    McpOAuthConfig::Static {
        authorization_url: "https://provider.example.com/auth".into(),
        client_id: "client-id".into(),
        client_secret: "client-secret".into(),
        redirect_uri: "https://coulisse.example.com/mcp/github/oauth/callback".into(),
        scopes: vec!["repo".into()],
        token_url: "https://provider.example.com/token".into(),
    }
}

fn config(oauth: Option<McpOAuthConfig>) -> McpServerConfig {
    McpServerConfig {
        no_rewrite: false,
        oauth,
        transport: McpTransport::Http { url: "http://localhost:9999".into() },
    }
}

fn state() -> OAuthRouterState {
    let mut configs = NameMap::new();
    configs.insert("github".to_string(), config(Some(static_oauth())));
    configs.insert("plain".to_string(), config(None));
    OAuthRouterState {
        configs,
        consumer_secret: Some(ConsumerSecret::new(SECRET)),
        signer: signer(),
    }
}

fn resolved() -> ResolvedOAuth {
    match resolve("github", &config(Some(static_oauth()))) {
        Ok(ResolveStep::Done(r)) => r,
        _ => panic!("static credentials need nothing more"),
    }
}

fn link(server: &str, authorization: &str, user: Option<&str>) -> Result<String, Reply> {
    state().connect_link(
        server,
        authorization,
        ConnectLinkQuery { user_id: user.map(str::to_string) },
    )
}

fn status(reply: &Reply) -> u16 {
    match reply {
        Reply::Json(_) => 200,
        Reply::Page { status, .. } => *status,
        Reply::Redirect(_) => 303,
        Reply::Status(status) => *status,
        Reply::Text { status, .. } => *status,
    }
}

fn refused<T>(r: Result<T, Reply>) -> u16 {
    match r {
        Ok(_) => panic!("expected a refusal"),
        Err(reply) => status(&reply),
    }
}

#[test]
fn connect_link_wrong_secret_returns_401() {
    assert_eq!(refused(link("github", "Bearer wrongsecret", Some("u1"))), 401);
}

#[test]
fn connect_link_unknown_server_returns_404() {
    assert_eq!(refused(link("doesnotexist", &format!("Bearer {SECRET}"), Some("u1"))), 404);
}

#[test]
fn connect_link_server_without_oauth_returns_422() {
    assert_eq!(refused(link("plain", &format!("Bearer {SECRET}"), Some("u1"))), 422);
}

#[test]
fn connect_link_missing_user_id_returns_422() {
    assert_eq!(refused(link("github", &format!("Bearer {SECRET}"), None)), 422);
    assert_eq!(refused(link("github", &format!("Bearer {SECRET}"), Some(""))), 422);
}

fn link_url(user_id: UserId) -> String {
    let pending = Pending { server: "github".to_string(), user_id };
    match state().connect_link_resolved(pending, Ok(resolved()), NOW) {
        Reply::Json(body) => body.url,
        other => panic!("expected a link, got status {}", status(&other)),
    }
}

#[test]
fn connect_link_valid_request_returns_url() {
    match link("github", &format!("Bearer {SECRET}"), Some("user-42")) {
        Ok(user) => assert_eq!(user, "user-42"),
        Err(reply) => panic!("refused with {}", status(&reply)),
    }
    let url = link_url(UserId(42));
    assert!(url.contains("provider.example.com"), "url={url}");
    assert!(url.contains("client_id"), "url={url}");
    assert!(url.contains("scope="), "url should contain scope, url={url}");
    assert!(url.contains("state="), "url={url}");
    let scope_pos = url.find("scope=").unwrap();
    let state_pos = url.find("state=").unwrap();
    assert!(scope_pos < state_pos, "scope should precede state in url={url}");
}

#[test]
fn connect_link_user_isolation() {
    let alice_url = link_url(UserId(1));
    let bob_url = link_url(UserId(2));
    let alice_state = alice_url.split("state=").nth(1).unwrap();
    let bob_state = bob_url.split("state=").nth(1).unwrap();
    assert_ne!(alice_state, bob_state);
}

#[test]
fn connect_link_is_closed_without_a_secret() {
    let mut router = state();
    router.consumer_secret = None;
    let query = ConnectLinkQuery { user_id: Some("u".to_string()) };
    match router.connect_link("github", "Bearer ", query) {
        Err(Reply::Text { body, status: 503 }) => {
            assert!(body.contains("auth.mcp_consumer_secret"), "{body}")
        }
        _ => panic!("expected the route to be closed"),
    }
}

fn connect(server: &str, token: Option<&str>, now: u64) -> Result<Pending, Reply> {
    state().connect(server, ConnectQuery { token: token.map(str::to_string) }, now)
}

#[test]
fn connect_redirects_to_authorize_url() {
    let user_id = UserId::new();
    let url = signer().connect_url("github", user_id, NOW).unwrap();
    let token = url.strip_prefix("http://localhost:8421/mcp/github/connect?token=").unwrap();
    let token = percent_encoding::percent_decode_str(token).decode_utf8().unwrap().into_owned();
    let pending = match connect("github", Some(&token), NOW + 1) {
        Ok(p) => p,
        Err(reply) => panic!("refused with {}", status(&reply)),
    };
    assert_eq!(pending.user_id, user_id);
    match state().connect_resolved(pending, Ok(resolved()), NOW) {
        Reply::Redirect(location) => {
            assert!(location.contains("provider.example.com"), "loc={location}");
            assert!(location.contains("client_id"), "loc={location}");
            assert!(location.contains("state="), "loc={location}");
        }
        other => panic!("expected a redirect, got {}", status(&other)),
    }
}

#[test]
fn connect_with_missing_token_returns_400() {
    assert_eq!(refused(connect("github", None, NOW)), 400);
}

#[test]
fn connect_with_tampered_token_returns_400() {
    assert_eq!(refused(connect("github", Some("garbage.sig"), NOW)), 400);
}

fn token_for(server: &str, verifier: Option<&str>) -> String {
    StateToken {
        code_verifier: verifier.map(CodeVerifier::new),
        server: server.to_string(),
        user_id: UserId(9),
    }
    .encrypt(&key(), NOW)
    .unwrap()
}

#[test]
fn connect_token_for_different_server_rejected() {
    assert_eq!(refused(connect("github", Some(&token_for("plain", None)), NOW)), 400);
}

#[test]
fn connect_token_expires() {
    let token = token_for("github", None);
    assert!(connect("github", Some(&token), NOW + 600).is_ok());
    assert_eq!(refused(connect("github", Some(&token), NOW + 601)), 400);
}

#[test]
fn connect_needs_a_configured_server() {
    assert_eq!(refused(connect("nowhere", Some(&token_for("nowhere", None)), NOW)), 404);
    assert_eq!(refused(connect("plain", Some(&token_for("plain", None)), NOW)), 422);
    let pending = Pending { server: "github".to_string(), user_id: UserId(1) };
    let failed = Err(McpError::DcrUnsupported { server: "github".to_string() });
    assert_eq!(status(&state().connect_resolved(pending, failed, NOW)), 502);
}

fn query(code: Option<&str>, error: Option<&str>, state: Option<&str>) -> CallbackQuery {
    CallbackQuery {
        code: code.map(str::to_string),
        error: error.map(str::to_string),
        state: state.map(str::to_string),
    }
}

#[test]
fn callback_bad_state_returns_400() {
    let r = state().oauth_callback("github", query(Some("abc"), None, Some("invalid.sig")), NOW);
    assert_eq!(refused(r), 400);
}

#[test]
fn callback_provider_error_returns_400() {
    let r = state().oauth_callback("github", query(None, Some("access_denied"), None), NOW);
    match r {
        Err(Reply::Page { html, status: 400 }) => {
            assert!(html.contains("OAuth provider error: access_denied"), "{html}")
        }
        _ => panic!("expected a page"),
    }
}

#[test]
fn callback_needs_code_and_state() {
    assert_eq!(refused(state().oauth_callback("github", query(Some("c"), None, None), NOW)), 400);
    assert_eq!(refused(state().oauth_callback("github", query(None, None, Some("s")), NOW)), 400);
}

#[test]
fn callback_exchanges_the_code() {
    let token = token_for("github", Some("the-verifier"));
    let r = state().oauth_callback("github", query(Some("code"), None, Some(&token)), NOW);
    let pending = match r {
        Ok(p) => p,
        Err(reply) => panic!("refused with {}", status(&reply)),
    };
    assert_eq!(pending.state.user_id, UserId(9));
    let (endpoint, form) = match state().callback_resolved(&pending, Ok(resolved())) {
        Ok(x) => x,
        Err(reply) => panic!("refused with {}", status(&reply)),
    };
    assert_eq!(endpoint, "https://provider.example.com/token");
    let get = |key: &str| form.iter().find(|(k, _)| k == key).map(|(_, v)| v.as_str());
    assert_eq!(get("grant_type"), Some("authorization_code"));
    assert_eq!(get("code"), Some("code"));
    assert_eq!(get("code_verifier"), Some("the-verifier"));
    assert_eq!(get("client_id"), Some("client-id"));
    assert_eq!(get("client_secret"), Some("client-secret"));
    assert_eq!(
        get("redirect_uri"),
        Some("https://coulisse.example.com/mcp/github/oauth/callback")
    );
    let answer = TokenResponse {
        access_token: "a".to_string(),
        expires_in: Some(5),
        refresh_token: Some("r".to_string()),
    };
    match state().callback_exchanged(&pending, Ok(answer), NOW) {
        Ok(stored) => {
            assert_eq!(stored.server, "github");
            assert_eq!(stored.user_id, UserId(9));
            assert_eq!(stored.token.access_token, "a");
            assert_eq!(stored.token.expires_at, Some(1_700_000_005));
        }
        Err(reply) => panic!("refused with {}", status(&reply)),
    }
    assert_eq!(status(&state().callback_stored("github", Ok(()))), 200);
}

#[test]
fn callback_failures_have_their_statuses() {
    let token = token_for("other", None);
    let r = state().oauth_callback("other", query(Some("c"), None, Some(&token)), NOW);
    assert_eq!(refused(r), 404);
    let r = state().oauth_callback("github", query(Some("c"), None, Some(&token)), NOW);
    assert_eq!(refused(r), 400);
    let failure = || McpError::Database { source: "x".to_string() };
    let token = token_for("github", None);
    let r = state().oauth_callback("github", query(Some("c"), None, Some(&token)), NOW);
    let pending = match r {
        Ok(p) => p,
        Err(reply) => panic!("refused with {}", status(&reply)),
    };
    assert_eq!(refused(state().callback_exchanged(&pending, Err(failure()), NOW)), 400);
    assert_eq!(status(&state().callback_stored("github", Err(failure()))), 500);
}

fn resolved_for_test(resource: Option<&str>) -> ResolvedOAuth {
    ResolvedOAuth {
        authorization_endpoint: "https://example.com/authorize".to_string(),
        client_id: ClientId::new("client-1"),
        client_secret: None,
        redirect_uri: RedirectUri::new("https://coulisse.example.com/mcp/x/oauth/callback"),
        resource: resource.map(str::to_string),
        scopes: vec!["data:read_write".to_string()],
        token_endpoint: "https://example.com/token".to_string(),
    }
}

#[test]
fn authorize_url_includes_resource_when_present() {
    let resolved = resolved_for_test(Some("https://ai.todoist.net/mcp"));
    let url = resolved.authorize_url("STATE", &CodeChallenge::new("CHALLENGE"));
    assert!(
        url.contains("&resource=https%3A%2F%2Fai%2Etodoist%2Enet%2Fmcp"),
        "authorize URL missing url-encoded resource param: {url}"
    );
}

#[test]
fn authorize_url_omits_resource_when_absent() {
    let resolved = resolved_for_test(None);
    let url = resolved.authorize_url("STATE", &CodeChallenge::new("CHALLENGE"));
    assert!(
        !url.contains("&resource="),
        "authorize URL should not carry resource= when unset: {url}"
    );
}

#[test]
fn authorize_url_always_includes_pkce_challenge() {
    let resolved = resolved_for_test(Some("https://ai.todoist.net/mcp"));
    let url = resolved.authorize_url("STATE", &CodeChallenge::new("abc123XYZ"));
    assert!(
        url.contains("&code_challenge=abc123XYZ"),
        "authorize URL missing code_challenge: {url}"
    );
    assert!(
        url.contains("&code_challenge_method=S256"),
        "authorize URL missing code_challenge_method=S256: {url}"
    );
}

#[test]
fn yaml_scopes_override_discovered_ones() {
    let oauth = McpOAuthConfig::Discover { scopes: vec!["custom:scope".to_string()] };
    let discovered = vec!["data:read_write".to_string()];
    let effective = oauth.effective_scopes("server", &discovered);
    assert_eq!(effective, vec!["custom:scope".to_string()]);
}

#[test]
fn discovered_scopes_used_when_yaml_empty() {
    let oauth = McpOAuthConfig::Discover { scopes: vec![] };
    let discovered = vec!["data:read_write".to_string()];
    let effective = oauth.effective_scopes("server", &discovered);
    assert_eq!(effective, vec!["data:read_write".to_string()]);
}

#[test]
fn empty_yaml_and_empty_discovery_falls_back_to_oidc_defaults() {
    let oauth = McpOAuthConfig::Discover { scopes: vec![] };
    let effective = oauth.effective_scopes("server", &[]);
    assert_eq!(effective, vec!["openid", "email", "profile"]);
}

#[test]
fn discovering_server_needs_a_client() {
    let cfg = config(Some(McpOAuthConfig::Discover { scopes: vec![] }));
    match resolve("x", &cfg) {
        Ok(ResolveStep::NeedClient { mcp_url }) => assert_eq!(mcp_url, "http://localhost:9999"),
        _ => panic!("expected a registration to be needed"),
    }
    assert!(matches!(resolve("x", &config(None)), Err(McpError::OAuthNotConfigured { .. })));
}

#[test]
fn registered_client_gives_the_parameters() {
    let registered = register_client(
        AuthMetadata {
            authorization_endpoint: "https://a".to_string(),
            registration_endpoint: None,
            scopes_supported: vec![],
            token_endpoint: "https://t".to_string(),
            token_endpoint_auth_methods_supported: vec![],
        },
        ClientRegistration {
            client_id: "cid".to_string(),
            client_secret: Some("sec".to_string()),
            scopes: Some(vec!["granted".to_string()]),
        },
        &RedirectUri::new("http://localhost/cb"),
    );
    let oauth = McpOAuthConfig::Discover { scopes: vec![] };
    let r = resolve_with_client("x", &oauth, "https://mcp", registered);
    assert_eq!(r.authorization_endpoint, "https://a");
    assert_eq!(r.token_endpoint, "https://t");
    assert_eq!(r.client_id.as_str(), "cid");
    assert_eq!(r.client_secret.as_ref().map(ClientSecret::expose), Some("sec"));
    assert_eq!(r.redirect_uri.as_str(), "http://localhost/cb");
    assert_eq!(r.resource.as_deref(), Some("https://mcp"));
    assert_eq!(r.scopes, vec!["granted"]);
}

#[test]
fn links_name_their_server() {
    assert_eq!(
        signer().redirect_uri_for("x").as_str(),
        "http://localhost:8421/mcp/x/oauth/callback"
    );
    assert_eq!(
        signer().link_with("x", "t"),
        "http://localhost:8421/mcp/x/connect?token=t"
    );
}

#[test]
fn secrets_are_compared_byte_by_byte() {
    assert!(constant_time_eq(b"abc", b"abc"));
    assert!(!constant_time_eq(b"abc", b"abd"));
    assert!(!constant_time_eq(b"abc", b"ab"));
    assert!(constant_time_eq(b"", b""));
}

#[test]
fn pages_are_html() {
    assert!(success_page("github").contains("github"));
    assert!(error_page("it broke").contains("it broke"));
}
