//! The OAuth routes: connect links, the authorize redirect, and the callback.
//!
//! Each route is a decision, a request to the outside (the vault, the provider), and a
//! reply. The decisions and the replies are made here.
use vstd::prelude::*;

use crate::crypto;
use crate::ids::UserId;
use crate::mcp::config::{self, McpOAuthConfig, McpServerConfig, McpTransport};
use crate::mcp::dcr::ClientRegistration;
use crate::mcp::discovery::{AuthMetadata, MetadataView};
use crate::mcp::error::{is_encrypt_error, McpError};
use crate::mcp::oauth::{
    challenge_for, decrypted, is_token, opt_secret, token_content, ClientId, ClientSecret,
    CodeChallenge, CodeVerifier, PkcePair, RedirectUri, StateKey, StateToken, StateView,
    TokenRefusal, TokenResponse, STATE_TTL_SECS,
};
use crate::mcp::vault::StoredToken;
use crate::names::NameMap;
use crate::numbers;
use crate::text;
use crate::urls;

verus! {

/// Origin (scheme, host, port, perhaps a path prefix) at which browsers reach this
/// instance, without slashes at its end.
#[derive(Debug)]
pub struct PublicBaseUrl(String);

impl View for PublicBaseUrl {
    type V = Seq<char>;

    closed spec fn view(&self) -> Seq<char> {
        self.0@
    }
}

impl PublicBaseUrl {
    /// Drops slashes at the end, so that paths can be appended as they are.
    pub fn new(raw: &str) -> (r: Self)
        ensures
            r@ == text::trim_end_char_of(raw@, '/'),
    {
        PublicBaseUrl(text::trim_end_char(raw, '/'))
    }

    pub fn as_str(&self) -> (r: &str)
        ensures
            r@ == self@,
    {
        self.0.as_str()
    }
}

/// Bearer secret of admin calls for a connect link.
pub struct ConsumerSecret(String);

impl View for ConsumerSecret {
    type V = Seq<char>;

    closed spec fn view(&self) -> Seq<char> {
        self.0@
    }
}

impl ConsumerSecret {
    pub fn new(raw: &str) -> (r: Self)
        ensures
            r@ == raw@,
    {
        ConsumerSecret(raw.to_owned())
    }

    pub fn expose(&self) -> (r: &str)
        ensures
            r@ == self@,
    {
        self.0.as_str()
    }
}

/// What it takes to mint a connect URL for a user.
pub struct ConnectLinkSigner {
    key: StateKey,
    public_base_url: PublicBaseUrl,
}

/// Model of `ConnectLinkSigner`.
pub struct SignerView {
    pub base_url: Seq<char>,
    pub key: Seq<u8>,
}

impl View for ConnectLinkSigner {
    type V = SignerView;

    closed spec fn view(&self) -> SignerView {
        SignerView { base_url: self.public_base_url@, key: self.key@ }
    }
}

/// The URL of a server's connect route with a token.
pub open spec fn connect_link(base_url: Seq<char>, server: Seq<char>, token: Seq<char>) -> Seq<
    char,
> {
    base_url + "/mcp/"@ + urls::url_encoded(server) + "/connect?token="@ + urls::url_encoded(token)
}

/// The URL of a server's callback route.
pub open spec fn callback_uri(base_url: Seq<char>, server: Seq<char>) -> Seq<char> {
    base_url + "/mcp/"@ + urls::url_encoded(server) + "/oauth/callback"@
}

/// `url` is a connect link for `user_id` at `server`, made at `now`: its token holds the
/// two, without a verifier, for as long as a token lives.
pub open spec fn is_connect_url(
    signer: SignerView,
    server: Seq<char>,
    user_id: UserId,
    now: u64,
    url: Seq<char>,
) -> bool {
    exists|token: Seq<char>|
        {
            &&& url == connect_link(signer.base_url, server, token)
            &&& #[trigger] is_token(
                signer.key,
                StateView { code_verifier: None, server, user_id },
                (now + STATE_TTL_SECS) as u64,
                token,
            )
        }
}

impl ConnectLinkSigner {
    /// Builds the signer from a base64-encoded key of 32 bytes and the public origin.
    pub fn new(hmac_key_b64: &str, public_base_url: PublicBaseUrl) -> (r: Result<Self, McpError>)
        ensures
            match r {
                Ok(s) => crate::mcp::oauth::key_from_base64(hmac_key_b64@) == Some(s@.key)
                    && s@.base_url == public_base_url@,
                Err(e) => crate::mcp::oauth::key_from_base64(hmac_key_b64@) is None
                    && crate::mcp::oauth::is_key_error(e, hmac_key_b64@),
            },
    {
        match StateKey::from_base64(hmac_key_b64) {
            Ok(key) => Ok(ConnectLinkSigner { key, public_base_url }),
            Err(e) => Err(e),
        }
    }

    /// The URL that, when followed in a browser, starts the user's authorization at the
    /// server's provider.
    pub fn connect_url(&self, server: &str, user_id: UserId, now: u64) -> (r: Result<
        String,
        McpError,
    >)
        requires
            now + STATE_TTL_SECS <= u64::MAX,
        ensures
            match r {
                Ok(url) => is_connect_url(self@, server@, user_id, now, url@),
                Err(e) => is_encrypt_error(e, server@),
            },
            r is Ok <==> crate::mcp::oauth::can_seal(
                StateView { code_verifier: None, server: server@, user_id },
                (now + STATE_TTL_SECS) as u64,
            ),
            server@.len() <= 0x1_0000_0000 ==> r is Ok,
    {
        let state = StateToken { code_verifier: None, server: server.to_owned(), user_id };
        let token = match state.encrypt(&self.key, now) {
            Ok(t) => t,
            Err(e) => {
                return Err(e);
            },
        };
        let url = self.link_with(server, token.as_str());
        assert(is_token(
            self@.key,
            StateView { code_verifier: None, server: server@, user_id },
            (now + STATE_TTL_SECS) as u64,
            token@,
        ));
        Ok(url)
    }

    /// The URL of the server's connect route with a token.
    pub fn link_with(&self, server: &str, token: &str) -> (r: String)
        ensures
            r@ == connect_link(self@.base_url, server@, token@),
    {
        let mut url = String::from_str(self.public_base_url.as_str());
        url.append("/mcp/");
        url.append(urls::urlencode(server).as_str());
        url.append("/connect?token=");
        url.append(urls::urlencode(token).as_str());
        url
    }

    /// The callback of a server, as it is registered with the provider.
    pub fn redirect_uri_for(&self, server: &str) -> (r: RedirectUri)
        ensures
            r@ == callback_uri(self@.base_url, server@),
    {
        let mut uri = String::from_str(self.public_base_url.as_str());
        uri.append("/mcp/");
        uri.append(urls::urlencode(server).as_str());
        uri.append("/oauth/callback");
        RedirectUri::new(uri.as_str())
    }
}

/// Query of the connect-link route.
pub struct ConnectLinkQuery {
    pub user_id: Option<String>,
}

/// Reply of the connect-link route.
#[derive(Debug)]
pub struct ConnectLinkResponse {
    pub url: String,
}

/// Query of the connect route.
pub struct ConnectQuery {
    pub token: Option<String>,
}

/// Query of the callback route.
pub struct CallbackQuery {
    pub code: Option<String>,
    pub error: Option<String>,
    pub state: Option<String>,
}

/// Reply of a route.
#[derive(Debug)]
pub enum Reply {
    Json(ConnectLinkResponse),
    Page { html: String, status: u16 },
    Redirect(String),
    Status(u16),
    Text { body: String, status: u16 },
}

/// Model of `Reply`.
pub enum ReplyView {
    Json(Seq<char>),
    Page { html: Seq<char>, status: u16 },
    Redirect(Seq<char>),
    Status(u16),
    Text { body: Seq<char>, status: u16 },
}

impl View for Reply {
    type V = ReplyView;

    open spec fn view(&self) -> ReplyView {
        match self {
            Reply::Json(r) => ReplyView::Json(r.url@),
            Reply::Page { html, status } => ReplyView::Page { html: html@, status: *status },
            Reply::Redirect(url) => ReplyView::Redirect(url@),
            Reply::Status(status) => ReplyView::Status(*status),
            Reply::Text { body, status } => ReplyView::Text { body: body@, status: *status },
        }
    }
}

/// The page that reports a connected account.
pub open spec fn success_html(server: Seq<char>) -> Seq<char> {
    "<!DOCTYPE html>\n<html lang=\"en\">\n<head><meta charset=\"UTF-8\"><title>Connected</title>\n<style>body{font-family:system-ui,sans-serif;max-width:600px;margin:4rem auto;padding:0 1rem;text-align:center}\nh1{color:#16a34a}</style></head>\n<body>\n<h1>✓ Connected</h1>\n<p>Your <strong>"@
        + server
        + "</strong> account is now connected.</p>\n<p>You can close this window.</p>\n</body></html>"@
}

/// The page that reports a failure.
pub open spec fn error_html(msg: Seq<char>) -> Seq<char> {
    "<!DOCTYPE html>\n<html lang=\"en\">\n<head><meta charset=\"UTF-8\"><title>Error</title>\n<style>body{font-family:system-ui,sans-serif;max-width:600px;margin:4rem auto;padding:0 1rem;text-align:center}\nh1{color:#dc2626}</style></head>\n<body>\n<h1>Authorization failed</h1>\n<p>"@
        + msg + "</p>\n</body></html>"@
}

/// The page that reports a connected account.
pub fn success_page(server: &str) -> (r: String)
    ensures
        r@ == success_html(server@),
{
    let mut s = String::from_str(
        "<!DOCTYPE html>\n<html lang=\"en\">\n<head><meta charset=\"UTF-8\"><title>Connected</title>\n<style>body{font-family:system-ui,sans-serif;max-width:600px;margin:4rem auto;padding:0 1rem;text-align:center}\nh1{color:#16a34a}</style></head>\n<body>\n<h1>✓ Connected</h1>\n<p>Your <strong>",
    );
    s.append(server);
    s.append(
        "</strong> account is now connected.</p>\n<p>You can close this window.</p>\n</body></html>",
    );
    s
}

/// The page that reports a failure.
pub fn error_page(msg: &str) -> (r: String)
    ensures
        r@ == error_html(msg@),
{
    let mut s = String::from_str(
        "<!DOCTYPE html>\n<html lang=\"en\">\n<head><meta charset=\"UTF-8\"><title>Error</title>\n<style>body{font-family:system-ui,sans-serif;max-width:600px;margin:4rem auto;padding:0 1rem;text-align:center}\nh1{color:#dc2626}</style></head>\n<body>\n<h1>Authorization failed</h1>\n<p>",
    );
    s.append(msg);
    s.append("</p>\n</body></html>");
    s
}

/// A failure page with a status.
pub open spec fn failure(status: u16, msg: Seq<char>) -> ReplyView {
    ReplyView::Page { html: error_html(msg), status }
}

/// A failure page with a status.
fn fail(status: u16, msg: &str) -> (r: Reply)
    ensures
        r@ == failure(status, msg@),
{
    Reply::Page { html: error_page(msg), status }
}

/// Compares two byte strings in a time that depends on their lengths alone.
pub fn constant_time_eq(a: &[u8], b: &[u8]) -> (r: bool)
    ensures
        r == (a@ == b@),
{
    if a.len() != b.len() {
        return false;
    }
    let mut diff: u8 = 0;
    let mut i: usize = 0;
    assert(a@.take(0) =~= b@.take(0));
    while i < a.len()
        invariant
            i <= a.len(),
            a.len() == b.len(),
            diff == 0 <==> a@.take(i as int) == b@.take(i as int),
        decreases a.len() - i,
    {
        let x: u8 = a[i];
        let y: u8 = b[i];
        let before: u8 = diff;
        diff = before | (x ^ y);
        assert(diff == 0 <==> before == 0 && x == y) by (bit_vector)
            requires
                diff == before | (x ^ y),
        ;
        proof {
            let p = a@.take(i + 1);
            let q = b@.take(i + 1);
            assert(p.drop_last() =~= a@.take(i as int));
            assert(q.drop_last() =~= b@.take(i as int));
            if p == q {
                assert(p[i as int] == q[i as int]);
            } else if a@.take(i as int) == b@.take(i as int) && x == y {
                assert(p =~= q);
            }
        }
        i = i + 1;
    }
    assert(a@.take(a@.len() as int) =~= a@);
    assert(b@.take(b@.len() as int) =~= b@);
    diff == 0
}

/// Two texts are the same exactly when their UTF-8 forms are.
proof fn lemma_utf8_injective(a: Seq<char>, b: Seq<char>)
    ensures
        vstd::utf8::encode_utf8(a) == vstd::utf8::encode_utf8(b) <==> a == b,
{
    crypto::lemma_utf8_round_trip(a);
    crypto::lemma_utf8_round_trip(b);
}

/// The parameters of an authorization at one server, read from the configuration or
/// from the cached registration.
pub struct ResolvedOAuth {
    pub authorization_endpoint: String,
    pub client_id: ClientId,
    pub client_secret: Option<ClientSecret>,
    pub redirect_uri: RedirectUri,
    /// The MCP endpoint that tokens must be bound to (RFC 8707); configurations with
    /// static credentials have none.
    pub resource: Option<String>,
    pub scopes: Vec<String>,
    pub token_endpoint: String,
}

/// Model of `ResolvedOAuth`.
pub struct ResolvedView {
    pub authorization_endpoint: Seq<char>,
    pub client_id: Seq<char>,
    pub client_secret: Option<Seq<char>>,
    pub redirect_uri: Seq<char>,
    pub resource: Option<Seq<char>>,
    pub scopes: Seq<Seq<char>>,
    pub token_endpoint: Seq<char>,
}

impl View for ResolvedOAuth {
    type V = ResolvedView;

    open spec fn view(&self) -> ResolvedView {
        ResolvedView {
            authorization_endpoint: self.authorization_endpoint@,
            client_id: self.client_id@,
            client_secret: opt_secret(self.client_secret),
            redirect_uri: self.redirect_uri@,
            resource: text::opt_text(self.resource),
            scopes: text::texts(self.scopes@),
            token_endpoint: self.token_endpoint@,
        }
    }
}

impl ResolvedView {
    /// The URL that sends a browser to the provider: client, redirect and response type,
    /// then scopes and resource where there are any, the PKCE challenge, and the state.
    pub open spec fn authorize_url(self, state_token: Seq<char>, challenge: Seq<char>) -> Seq<char> {
        let url = self.authorization_endpoint + "?client_id="@ + urls::url_encoded(self.client_id)
            + "&redirect_uri="@ + urls::url_encoded(self.redirect_uri) + "&response_type=code"@;
        let scopes = text::joined(self.scopes, " "@);
        let url = if scopes.len() > 0 {
            url + "&scope="@ + urls::url_encoded(scopes)
        } else {
            url
        };
        let url = match self.resource {
            Some(r) => url + "&resource="@ + urls::url_encoded(r),
            None => url,
        };
        url + "&code_challenge="@ + urls::url_encoded(challenge) + "&code_challenge_method=S256"@
            + "&state="@ + urls::url_encoded(state_token)
    }

    /// The form that exchanges a code for tokens: client, code, grant and redirect, then
    /// secret, resource and verifier where there are any.
    pub open spec fn exchange_params(self, code: Seq<char>, verifier: Option<Seq<char>>) -> Seq<
        (Seq<char>, Seq<char>),
    > {
        let params = seq![
            ("client_id"@, self.client_id),
            ("code"@, code),
            ("grant_type"@, "authorization_code"@),
            ("redirect_uri"@, self.redirect_uri),
        ];
        let params = match self.client_secret {
            Some(s) => params.push(("client_secret"@, s)),
            None => params,
        };
        let params = match self.resource {
            Some(r) => params.push(("resource"@, r)),
            None => params,
        };
        match verifier {
            Some(v) => params.push(("code_verifier"@, v)),
            None => params,
        }
    }
}

/// Appends a form field.
fn push_param(params: &mut Vec<(String, String)>, name: &str, value: &str)
    ensures
        text::pairs(final(params)@) == text::pairs(old(params)@).push((name@, value@)),
{
    let p = (String::from_str(name), String::from_str(value));
    proof {
        text::lemma_pairs_push(params@, p);
    }
    params.push(p);
}

impl ResolvedOAuth {
    /// The URL that sends a browser to the provider. The PKCE challenge is always
    /// there.
    pub fn authorize_url(&self, state_token: &str, code_challenge: &CodeChallenge) -> (r: String)
        ensures
            r@ == self@.authorize_url(state_token@, code_challenge@),
    {
        let mut url = String::from_str(self.authorization_endpoint.as_str());
        url.append("?client_id=");
        url.append(urls::urlencode(self.client_id.as_str()).as_str());
        url.append("&redirect_uri=");
        url.append(urls::urlencode(self.redirect_uri.as_str()).as_str());
        url.append("&response_type=code");
        let scopes = text::join(&self.scopes, " ");
        if !scopes.as_str().is_empty() {
            url.append("&scope=");
            url.append(urls::urlencode(scopes.as_str()).as_str());
        }
        if let Some(resource) = &self.resource {
            url.append("&resource=");
            url.append(urls::urlencode(resource.as_str()).as_str());
        }
        url.append("&code_challenge=");
        url.append(urls::urlencode(code_challenge.as_str()).as_str());
        url.append("&code_challenge_method=S256");
        url.append("&state=");
        url.append(urls::urlencode(state_token).as_str());
        url
    }

    /// The form to post to the token endpoint for a code.
    pub fn exchange_code(&self, code: &str, code_verifier: Option<&CodeVerifier>) -> (r: Vec<
        (String, String),
    >)
        ensures
            text::pairs(r@) == self@.exchange_params(
                code@,
                match code_verifier {
                    Some(v) => Some(v@),
                    None => None,
                },
            ),
    {
        let mut params: Vec<(String, String)> = Vec::new();
        push_param(&mut params, "client_id", self.client_id.as_str());
        push_param(&mut params, "code", code);
        push_param(&mut params, "grant_type", "authorization_code");
        push_param(&mut params, "redirect_uri", self.redirect_uri.as_str());
        assert(text::pairs(params@) =~= seq![
            ("client_id"@, self@.client_id),
            ("code"@, code@),
            ("grant_type"@, "authorization_code"@),
            ("redirect_uri"@, self@.redirect_uri),
        ]);
        if let Some(secret) = &self.client_secret {
            push_param(&mut params, "client_secret", secret.expose());
        }
        if let Some(resource) = &self.resource {
            push_param(&mut params, "resource", resource.as_str());
        }
        if let Some(verifier) = code_verifier {
            push_param(&mut params, "code_verifier", verifier.expose());
        }
        params
    }
}

/// A client registration with its server's metadata read.
pub struct RegisteredClient {
    pub client_id: String,
    pub client_secret: Option<String>,
    pub metadata: AuthMetadata,
    pub redirect_uri: String,
}

/// What is needed to resolve a server's parameters.
pub enum ResolveStep {
    /// Nothing more: the parameters.
    Done(ResolvedOAuth),
    /// The cached registration for the server, or discovery at its URL and a fresh
    /// registration.
    NeedClient { mcp_url: String },
}

/// The parameters that static credentials give.
pub open spec fn static_params(oauth: config::OAuthView) -> ResolvedView
    recommends
        oauth is Static,
{
    ResolvedView {
        authorization_endpoint: oauth->authorization_url,
        client_id: oauth->client_id,
        client_secret: Some(oauth->client_secret),
        redirect_uri: oauth->redirect_uri,
        resource: None,
        scopes: oauth->Static_scopes,
        token_endpoint: oauth->token_url,
    }
}

/// The parameters that a registered client gives at the MCP endpoint `mcp_url`.
pub open spec fn client_params(
    oauth: config::OAuthView,
    client: RegisteredClient,
    mcp_url: Seq<char>,
) -> ResolvedView {
    ResolvedView {
        authorization_endpoint: client.metadata@.authorization_endpoint,
        client_id: client.client_id@,
        client_secret: text::opt_text(client.client_secret),
        redirect_uri: client.redirect_uri@,
        resource: Some(mcp_url),
        scopes: config::effective_scopes(oauth.scopes(), client.metadata@.scopes_supported),
        token_endpoint: client.metadata@.token_endpoint,
    }
}

/// Starts to resolve a server's parameters.
pub fn resolve(server: &str, cfg: &McpServerConfig) -> (r: Result<ResolveStep, McpError>)
    ensures
        match cfg@.oauth {
            None => r is Err && r->Err_0 is OAuthNotConfigured
                && r->Err_0->OAuthNotConfigured_server@ == server@,
            Some(oauth) => match oauth {
                config::OAuthView::Static { .. } => match r {
                    Ok(ResolveStep::Done(p)) => p@ == static_params(oauth),
                    _ => false,
                },
                config::OAuthView::Discover { .. } => match cfg@.transport {
                    config::TransportView::Http { url } => match r {
                        Ok(ResolveStep::NeedClient { mcp_url }) => mcp_url@ == url,
                        _ => false,
                    },
                    config::TransportView::Sse { url } => match r {
                        Ok(ResolveStep::NeedClient { mcp_url }) => mcp_url@ == url,
                        _ => false,
                    },
                    config::TransportView::Stdio { .. } => {
                        &&& r is Err && r->Err_0 is Discovery
                        &&& r->Err_0->Discovery_url@ == "<"@ + server@ + ">"@
                        &&& r->Err_0->Discovery_source@
                            == "oauth: discover requires transport: http or sse (stdio servers have no URL to discover from)"@
                    },
                },
            },
        },
{
    let oauth = match &cfg.oauth {
        Some(o) => o,
        None => {
            return Err(McpError::OAuthNotConfigured { server: server.to_owned() });
        },
    };
    match oauth {
        McpOAuthConfig::Static {
            authorization_url,
            client_id,
            client_secret,
            redirect_uri,
            scopes,
            token_url,
        } => Ok(
            ResolveStep::Done(
                ResolvedOAuth {
                    authorization_endpoint: authorization_url.clone(),
                    client_id: ClientId::new(client_id.as_str()),
                    client_secret: Some(ClientSecret::new(client_secret.as_str())),
                    redirect_uri: RedirectUri::new(redirect_uri.as_str()),
                    resource: None,
                    scopes: text::clone_list(scopes),
                    token_endpoint: token_url.clone(),
                },
            ),
        ),
        McpOAuthConfig::Discover { .. } => match &cfg.transport {
            McpTransport::Http { url } => Ok(ResolveStep::NeedClient { mcp_url: url.clone() }),
            McpTransport::Sse { url } => Ok(ResolveStep::NeedClient { mcp_url: url.clone() }),
            McpTransport::Stdio { .. } => {
                let mut place = String::from_str("<");
                place.append(server);
                place.append(">");
                Err(
                    McpError::Discovery {
                        source: String::from_str(
                            "oauth: discover requires transport: http or sse (stdio servers have no URL to discover from)",
                        ),
                        url: place,
                    },
                )
            },
        },
    }
}

/// The parameters of a server whose client is registered.
pub fn resolve_with_client(
    server: &str,
    oauth: &McpOAuthConfig,
    mcp_url: &str,
    client: RegisteredClient,
) -> (r: ResolvedOAuth)
    ensures
        r@ == client_params(oauth@, client, mcp_url@),
{
    let scopes = oauth.effective_scopes(server, client.metadata.scopes_supported.as_slice());
    let client_secret = match &client.client_secret {
        Some(s) => Some(ClientSecret::new(s.as_str())),
        None => None,
    };
    ResolvedOAuth {
        authorization_endpoint: client.metadata.authorization_endpoint,
        client_id: ClientId::new(client.client_id.as_str()),
        client_secret,
        redirect_uri: RedirectUri::new(client.redirect_uri.as_str()),
        resource: Some(mcp_url.to_owned()),
        scopes,
        token_endpoint: client.metadata.token_endpoint,
    }
}

/// The metadata to cache with a registration: the scopes of the registration take the
/// place of the server's where the server advertises none.
pub open spec fn with_registered_scopes(
    metadata: MetadataView,
    scopes: Option<Seq<Seq<char>>>,
) -> MetadataView {
    match scopes {
        Some(s) => if metadata.scopes_supported.len() == 0 && s.len() > 0 {
            MetadataView { scopes_supported: s, ..metadata }
        } else {
            metadata
        },
        None => metadata,
    }
}

/// Model of optional scopes.
pub open spec fn opt_scopes(o: Option<Vec<String>>) -> Option<Seq<Seq<char>>> {
    match o {
        Some(v) => Some(text::texts(v@)),
        None => None,
    }
}

/// The client that a fresh registration gives, to be cached for every later user.
pub fn register_client(
    metadata: AuthMetadata,
    registration: ClientRegistration,
    redirect_uri: &RedirectUri,
) -> (r: RegisteredClient)
    ensures
        r.client_id == registration.client_id,
        r.client_secret == registration.client_secret,
        r.metadata@ == with_registered_scopes(metadata@, opt_scopes(registration.scopes)),
        r.redirect_uri@ == redirect_uri@,
{
    let mut metadata = metadata;
    if let Some(scopes) = registration.scopes {
        assert(text::texts(scopes@).len() == scopes@.len());
        assert(text::texts(metadata.scopes_supported@).len() == metadata.scopes_supported@.len());
        if metadata.scopes_supported.len() == 0 && scopes.len() > 0 {
            metadata.scopes_supported = scopes;
        }
    }
    RegisteredClient {
        client_id: registration.client_id,
        client_secret: registration.client_secret,
        metadata,
        redirect_uri: redirect_uri.as_str().to_owned(),
    }
}

/// What the routes work with: the configured servers, the secret of the admin route,
/// and the signer.
pub struct OAuthRouterState {
    pub configs: NameMap<McpServerConfig>,
    pub consumer_secret: Option<ConsumerSecret>,
    pub signer: ConnectLinkSigner,
}

/// Model of `OAuthRouterState`.
pub struct RouterView {
    pub configs: Map<Seq<char>, McpServerConfig>,
    pub consumer_secret: Option<Seq<char>>,
    pub signer: SignerView,
}

impl View for OAuthRouterState {
    type V = RouterView;

    open spec fn view(&self) -> RouterView {
        RouterView {
            configs: self.configs@,
            consumer_secret: match self.consumer_secret {
                Some(s) => Some(s@),
                None => None,
            },
            signer: self.signer@,
        }
    }
}

impl RouterView {
    /// The server is configured with OAuth.
    pub open spec fn has_oauth(self, server: Seq<char>) -> bool {
        self.configs.contains_key(server) && self.configs[server].oauth is Some
    }

    /// What the connect route makes of a request: the user to authorize, or the reply.
    pub open spec fn connect(self, server: Seq<char>, token: Option<Seq<char>>, now: u64) -> Result<
        UserId,
        ReplyView,
    > {
        match token {
            None => Err(failure(400, "Missing token parameter."@)),
            Some(token) => match token_content(self.signer.key, token) {
                None => Err(failure(400, "Invalid connect link."@)),
                Some((state, exp)) => if now > exp {
                    Err(
                        failure(
                            400,
                            "Connect link has expired. Ask the assistant for a new one."@,
                        ),
                    )
                } else if state.server != server {
                    Err(failure(400, "Connect link does not match this server."@))
                } else if self.has_oauth(server) {
                    Ok(state.user_id)
                } else if self.configs.contains_key(server) {
                    Err(
                        failure(
                            422,
                            "MCP server '"@ + server + "' has no oauth block configured."@,
                        ),
                    )
                } else {
                    Err(failure(404, "Unknown server."@))
                },
            },
        }
    }

    /// What the connect-link route makes of a request: the user's key, or the reply.
    pub open spec fn connect_link(
        self,
        server: Seq<char>,
        authorization: Seq<char>,
        user_id: Option<Seq<char>>,
    ) -> Result<Seq<char>, ReplyView> {
        match self.consumer_secret {
            Some(secret) => if secret.len() == 0 {
                Err(ReplyView::Text { body: disabled_text(), status: 503 })
            } else if authorization != "Bearer "@ + secret {
                Err(ReplyView::Status(401))
            } else if user_id is None || user_id->0.len() == 0 {
                Err(ReplyView::Status(422))
            } else if self.has_oauth(server) {
                Ok(user_id->0)
            } else if self.configs.contains_key(server) {
                Err(ReplyView::Status(422))
            } else {
                Err(ReplyView::Status(404))
            },
            None => Err(ReplyView::Text { body: disabled_text(), status: 503 }),
        }
    }

    /// What the callback route makes of a request: the code and what the state held, or
    /// the reply.
    pub open spec fn oauth_callback(
        self,
        server: Seq<char>,
        code: Option<Seq<char>>,
        error: Option<Seq<char>>,
        raw_state: Option<Seq<char>>,
        now: u64,
    ) -> Result<(Seq<char>, StateView), ReplyView> {
        if error is Some {
            Err(failure(400, "OAuth provider error: "@ + error->0))
        } else if code is None || raw_state is None {
            Err(failure(400, "Missing code or state parameter"@))
        } else {
            match token_content(self.signer.key, raw_state->0) {
                None => Err(failure(400, "Invalid state token."@)),
                Some((state, exp)) => if now > exp {
                    Err(
                        failure(
                            400,
                            "Authorization link has expired. Please request a new one."@,
                        ),
                    )
                } else if state.server != server {
                    Err(failure(400, "Server mismatch"@))
                } else if self.has_oauth(server) {
                    Ok((code->0, state))
                } else {
                    Err(failure(404, "Unknown server"@))
                },
            }
        }
    }
}

/// Why the connect-link route is closed where no secret is set.
pub open spec fn disabled_text() -> Seq<char> {
    "POST /mcp/{server}/connect-link is disabled because auth.mcp_consumer_secret is not set in coulisse.yaml. The per-user GET /mcp/{server}/connect flow (used by NotConnectedTool) does not require this secret."@
}

/// `url` sends `user_id` to the provider of `server`: its challenge belongs to a
/// verifier, and its state holds the verifier, the server and the user for as long as
/// a token lives.
pub open spec fn is_authorize_url(
    key: Seq<u8>,
    params: ResolvedView,
    server: Seq<char>,
    user_id: UserId,
    now: u64,
    url: Seq<char>,
) -> bool {
    exists|verifier: Seq<char>, token: Seq<char>|
        {
            &&& url == params.authorize_url(token, challenge_for(verifier))
            &&& #[trigger] is_token(
                key,
                StateView { code_verifier: Some(verifier), server, user_id },
                (now + STATE_TTL_SECS) as u64,
                token,
            )
        }
}

/// An authorization that waits for the server's parameters.
pub struct Pending {
    pub server: String,
    pub user_id: UserId,
}

/// A callback that waits for the server's parameters.
pub struct CallbackPending {
    pub code: String,
    pub server: String,
    pub state: StateToken,
}

/// A token pair that is to be stored, and for whom.
pub struct TokenToStore {
    pub server: String,
    pub token: StoredToken,
    pub user_id: UserId,
}

impl OAuthRouterState {
    /// Whether the server is configured, and with OAuth.
    fn oauth_config(&self, server: &str) -> (r: Option<bool>)
        ensures
            r == if self@.configs.contains_key(server@) {
                Some(self@.has_oauth(server@))
            } else {
                None
            },
    {
        match self.configs.get(server) {
            Some(c) => Some(c.oauth.is_some()),
            None => None,
        }
    }

    /// `GET /mcp/{server}/connect`: checks the link's token and names the user to
    /// authorize.
    pub fn connect(&self, server: &str, query: ConnectQuery, now: u64) -> (r: Result<
        Pending,
        Reply,
    >)
        ensures
            match r {
                Ok(p) => self@.connect(server@, text::opt_text(query.token), now) == Ok::<
                    _,
                    ReplyView,
                >(p.user_id) && p.server@ == server@,
                Err(e) => self@.connect(server@, text::opt_text(query.token), now) == Err::<
                    UserId,
                    _,
                >(e@),
            },
    {
        let token = match query.token {
            Some(t) => t,
            None => {
                return Err(fail(400, "Missing token parameter."));
            },
        };
        let state = match StateToken::decrypt(&self.signer.key, token.as_str(), now) {
            Ok(s) => s,
            Err(McpError::StateExpired) => {
                return Err(
                    fail(400, "Connect link has expired. Ask the assistant for a new one."),
                );
            },
            Err(_) => {
                return Err(fail(400, "Invalid connect link."));
            },
        };
        if !text::str_eq(state.server.as_str(), server) {
            return Err(fail(400, "Connect link does not match this server."));
        }
        match self.oauth_config(server) {
            Some(true) => Ok(Pending { server: server.to_owned(), user_id: state.user_id }),
            Some(false) => {
                let mut m = String::from_str("MCP server '");
                m.append(server);
                m.append("' has no oauth block configured.");
                Err(fail(422, m.as_str()))
            },
            None => Err(fail(404, "Unknown server.")),
        }
    }

    /// Seals a fresh state for the user and composes the provider's URL.
    pub fn authorize(&self, server: &str, user_id: UserId, params: &ResolvedOAuth, now: u64) -> (r:
        Result<String, McpError>)
        requires
            now + STATE_TTL_SECS <= u64::MAX,
        ensures
            match r {
                Ok(url) => is_authorize_url(self@.signer.key, params@, server@, user_id, now, url@),
                Err(e) => is_encrypt_error(e, server@),
            },
            server@.len() + 43 <= 0x1_0000_0000 ==> r is Ok,
    {
        let pkce = PkcePair::generate();
        let challenge = pkce.challenge;
        let ghost verifier = pkce.verifier@;
        let state = StateToken {
            code_verifier: Some(pkce.verifier),
            server: server.to_owned(),
            user_id,
        };
        match state.encrypt(&self.signer.key, now) {
            Ok(token) => {
                assert(is_token(
                    self@.signer.key,
                    StateView { code_verifier: Some(verifier), server: server@, user_id },
                    (now + STATE_TTL_SECS) as u64,
                    token@,
                ));
                Ok(params.authorize_url(token.as_str(), &challenge))
            },
            Err(e) => Err(e),
        }
    }

    /// Answers a connect request once the server's parameters are known, or could not
    /// be had.
    pub fn connect_resolved(
        &self,
        pending: Pending,
        params: Result<ResolvedOAuth, McpError>,
        now: u64,
    ) -> (r: Reply)
        requires
            now + STATE_TTL_SECS <= u64::MAX,
        ensures
            match params {
                Ok(p) => match r@ {
                    ReplyView::Redirect(url) => is_authorize_url(
                        self@.signer.key,
                        p@,
                        pending.server@,
                        pending.user_id,
                        now,
                        url,
                    ),
                    _ => pending.server@.len() + 43 > 0x1_0000_0000 && r@ == failure(
                        500,
                        "Failed to prepare authorization. Check Coulisse logs."@,
                    ),
                },
                Err(_) => r@ == failure(
                    502,
                    "Failed to prepare authorization for '"@ + pending.server@
                        + "'. Check Coulisse logs."@,
                ),
            },
    {
        let params = match params {
            Ok(p) => p,
            Err(_) => {
                let mut m = String::from_str("Failed to prepare authorization for '");
                m.append(pending.server.as_str());
                m.append("'. Check Coulisse logs.");
                return fail(502, m.as_str());
            },
        };
        match self.authorize(pending.server.as_str(), pending.user_id, &params, now) {
            Ok(url) => Reply::Redirect(url),
            Err(_) => fail(500, "Failed to prepare authorization. Check Coulisse logs."),
        }
    }

    /// `POST /mcp/{server}/connect-link`: checks the admin's bearer secret and names the
    /// user to make a link for. Without a configured secret the route is closed.
    pub fn connect_link(&self, server: &str, authorization: &str, query: ConnectLinkQuery) -> (r:
        Result<String, Reply>)
        ensures
            match r {
                Ok(u) => self@.connect_link(
                    server@,
                    authorization@,
                    text::opt_text(query.user_id),
                ) == Ok::<_, ReplyView>(u@),
                Err(e) => self@.connect_link(
                    server@,
                    authorization@,
                    text::opt_text(query.user_id),
                ) == Err::<Seq<char>, _>(e@),
            },
    {
        let expected = match &self.consumer_secret {
            Some(s) if !s.expose().is_empty() => {
                let mut e = String::from_str("Bearer ");
                e.append(s.expose());
                e
            },
            _ => {
                return Err(
                    Reply::Text {
                        body: String::from_str(
                            "POST /mcp/{server}/connect-link is disabled because auth.mcp_consumer_secret is not set in coulisse.yaml. The per-user GET /mcp/{server}/connect flow (used by NotConnectedTool) does not require this secret.",
                        ),
                        status: 503,
                    },
                );
            },
        };
        proof {
            lemma_utf8_injective(authorization@, expected@);
        }
        if !constant_time_eq(authorization.as_bytes(), expected.as_str().as_bytes()) {
            return Err(Reply::Status(401));
        }
        let user = match query.user_id {
            Some(u) if !u.as_str().is_empty() => u,
            _ => {
                return Err(Reply::Status(422));
            },
        };
        match self.oauth_config(server) {
            Some(true) => Ok(user),
            Some(false) => Err(Reply::Status(422)),
            None => Err(Reply::Status(404)),
        }
    }

    /// Answers a connect-link request once the server's parameters are known, or could
    /// not be had.
    pub fn connect_link_resolved(
        &self,
        pending: Pending,
        params: Result<ResolvedOAuth, McpError>,
        now: u64,
    ) -> (r: Reply)
        requires
            now + STATE_TTL_SECS <= u64::MAX,
        ensures
            match params {
                Ok(p) => match r@ {
                    ReplyView::Json(url) => is_authorize_url(
                        self@.signer.key,
                        p@,
                        pending.server@,
                        pending.user_id,
                        now,
                        url,
                    ),
                    _ => pending.server@.len() + 43 > 0x1_0000_0000 && r@ == ReplyView::Status(500),
                },
                Err(e) => r@ == (ReplyView::Text { body: e.message(), status: 502 }),
            },
    {
        let params = match params {
            Ok(p) => p,
            Err(e) => {
                return Reply::Text { body: e.to_text(), status: 502 };
            },
        };
        match self.authorize(pending.server.as_str(), pending.user_id, &params, now) {
            Ok(url) => Reply::Json(ConnectLinkResponse { url }),
            Err(_) => Reply::Status(500),
        }
    }

    /// `GET /mcp/{server}/oauth/callback`: checks what the provider sent back and opens
    /// the state.
    pub fn oauth_callback(&self, server: &str, query: CallbackQuery, now: u64) -> (r: Result<
        CallbackPending,
        Reply,
    >)
        ensures
            match r {
                Ok(p) => self@.oauth_callback(
                    server@,
                    text::opt_text(query.code),
                    text::opt_text(query.error),
                    text::opt_text(query.state),
                    now,
                ) == Ok::<_, ReplyView>((p.code@, p.state@)) && p.server@ == server@,
                Err(e) => self@.oauth_callback(
                    server@,
                    text::opt_text(query.code),
                    text::opt_text(query.error),
                    text::opt_text(query.state),
                    now,
                ) == Err::<(Seq<char>, StateView), _>(e@),
            },
    {
        if let Some(err) = query.error {
            let mut m = String::from_str("OAuth provider error: ");
            m.append(err.as_str());
            return Err(fail(400, m.as_str()));
        }
        let (code, raw_state) = match (query.code, query.state) {
            (Some(c), Some(s)) => (c, s),
            _ => {
                return Err(fail(400, "Missing code or state parameter"));
            },
        };
        let state = match StateToken::decrypt(&self.signer.key, raw_state.as_str(), now) {
            Ok(s) => s,
            Err(McpError::StateExpired) => {
                return Err(fail(400, "Authorization link has expired. Please request a new one."));
            },
            Err(_) => {
                return Err(fail(400, "Invalid state token."));
            },
        };
        if !text::str_eq(state.server.as_str(), server) {
            return Err(fail(400, "Server mismatch"));
        }
        match self.oauth_config(server) {
            Some(true) => Ok(CallbackPending { code, server: server.to_owned(), state }),
            _ => Err(fail(404, "Unknown server")),
        }
    }

    /// The token endpoint and the form to post there, once the server's parameters are
    /// known, or could not be had.
    pub fn callback_resolved(
        &self,
        pending: &CallbackPending,
        params: Result<ResolvedOAuth, McpError>,
    ) -> (r: Result<(String, Vec<(String, String)>), Reply>)
        ensures
            match params {
                Ok(p) => match r {
                    Ok((endpoint, form)) => endpoint@ == p@.token_endpoint && text::pairs(form@)
                        == p@.exchange_params(pending.code@, pending.state@.code_verifier),
                    Err(_) => false,
                },
                Err(_) => match r {
                    Ok(_) => false,
                    Err(e) => e@ == failure(502, "Failed to load OAuth parameters."@),
                },
            },
    {
        match params {
            Ok(p) => {
                let form = p.exchange_code(
                    pending.code.as_str(),
                    pending.state.code_verifier.as_ref(),
                );
                Ok((p.token_endpoint, form))
            },
            Err(_) => Err(fail(502, "Failed to load OAuth parameters.")),
        }
    }

    /// The token pair to store, once the provider has answered the exchange. It belongs to
    /// the server of the route and to the user in the opened state, and to nobody else.
    pub fn callback_exchanged(
        &self,
        pending: &CallbackPending,
        answer: Result<TokenResponse, McpError>,
        now: u64,
    ) -> (r: Result<TokenToStore, Reply>)
        requires
            answer is Ok && answer->Ok_0.expires_in is Some ==> now + answer->Ok_0.expires_in->0
                <= u64::MAX,
        ensures
            match answer {
                Ok(t) => match r {
                    Ok(s) => {
                        &&& s.server@ == pending.server@
                        &&& s.user_id == pending.state.user_id
                        &&& s.token.access_token == t.access_token
                        &&& s.token.expires_at == match t.expires_in {
                            Some(secs) => Some(numbers::clamped_i64(now + secs)),
                            None => None,
                        }
                        &&& s.token.refresh_token == t.refresh_token
                    },
                    Err(_) => false,
                },
                Err(_) => match r {
                    Ok(_) => false,
                    Err(e) => e@ == failure(400, "Token exchange failed. Please try again."@),
                },
            },
    {
        match answer {
            Ok(t) => Ok(
                TokenToStore {
                    server: pending.server.clone(),
                    token: t.into_stored_token(None, now),
                    user_id: pending.state.user_id,
                },
            ),
            Err(_) => Err(fail(400, "Token exchange failed. Please try again.")),
        }
    }

    /// Answers the callback once the token pair is stored, or could not be.
    pub fn callback_stored(&self, server: &str, stored: Result<(), McpError>) -> (r: Reply)
        ensures
            r@ == match stored {
                Ok(_) => ReplyView::Page { html: success_html(server@), status: 200 },
                Err(_) => failure(500, "Failed to store token. Please try again."@),
            },
    {
        match stored {
            Ok(_) => Reply::Page { html: success_page(server), status: 200 },
            Err(_) => fail(500, "Failed to store token. Please try again."),
        }
    }
}

/// A connect link that was minted for a user at a configured server leads to that user
/// for as long as it lives, and to nobody after that.
pub proof fn law_connect_link_is_honoured(
    router: RouterView,
    server: Seq<char>,
    user_id: UserId,
    made: u64,
    token: Seq<char>,
    now: u64,
)
    requires
        made + STATE_TTL_SECS <= u64::MAX,
        is_token(
            router.signer.key,
            StateView { code_verifier: None, server, user_id },
            (made + STATE_TTL_SECS) as u64,
            token,
        ),
        router.has_oauth(server),
    ensures
        now <= made + STATE_TTL_SECS ==> router.connect(server, Some(token), now) == Ok::<
            _,
            ReplyView,
        >(user_id),
        now > made + STATE_TTL_SECS ==> router.connect(server, Some(token), now) is Err,
{
}

/// A link for one server is refused at every other.
pub proof fn law_link_is_bound_to_its_server(
    router: RouterView,
    server: Seq<char>,
    other: Seq<char>,
    token: Seq<char>,
    now: u64,
)
    requires
        token_content(router.signer.key, token) matches Some((state, _)) && state.server == server,
        other != server,
    ensures
        router.connect(other, Some(token), now) is Err,
        forall|code: Option<Seq<char>>, error: Option<Seq<char>>|
            #[trigger] router.oauth_callback(other, code, error, Some(token), now) is Err,
{
}

/// The state of an authorize redirect comes back to the callback with the user, the
/// server and the verifier that it was made with.
pub proof fn law_callback_recovers_verifier(
    router: RouterView,
    server: Seq<char>,
    user_id: UserId,
    verifier: Seq<char>,
    made: u64,
    token: Seq<char>,
    code: Seq<char>,
    now: u64,
)
    requires
        made + STATE_TTL_SECS <= u64::MAX,
        is_token(
            router.signer.key,
            StateView { code_verifier: Some(verifier), server, user_id },
            (made + STATE_TTL_SECS) as u64,
            token,
        ),
        router.has_oauth(server),
        now <= made + STATE_TTL_SECS,
    ensures
        router.oauth_callback(server, Some(code), None, Some(token), now) == Ok::<_, ReplyView>(
            (code, StateView { code_verifier: Some(verifier), server, user_id }),
        ),
{
}

/// A callback that is let through is that of a user of this server whose state has not
/// expired: the provider's answer is stored for that user and this server.
pub proof fn law_callback_is_for_its_user(
    router: RouterView,
    server: Seq<char>,
    code: Option<Seq<char>>,
    error: Option<Seq<char>>,
    raw_state: Option<Seq<char>>,
    now: u64,
)
    requires
        router.oauth_callback(server, code, error, raw_state, now) is Ok,
    ensures
        error is None,
        raw_state is Some,
        code == Some(router.oauth_callback(server, code, error, raw_state, now)->Ok_0.0),
        decrypted(router.signer.key, raw_state->0, now) == Ok::<_, TokenRefusal>(
            router.oauth_callback(server, code, error, raw_state, now)->Ok_0.1,
        ),
        router.oauth_callback(server, code, error, raw_state, now)->Ok_0.1.server == server,
        router.has_oauth(server),
{
}

/// Without the right bearer secret no link is made, whatever else the request says.
pub proof fn law_connect_link_needs_secret(
    router: RouterView,
    server: Seq<char>,
    authorization: Seq<char>,
    user_id: Option<Seq<char>>,
)
    requires
        router.consumer_secret is None || router.consumer_secret->0.len() == 0 || authorization
            != "Bearer "@ + router.consumer_secret->0,
    ensures
        router.connect_link(server, authorization, user_id) is Err,
{
}

/// Every authorize URL carries its PKCE challenge and declares its method.
pub proof fn law_authorize_url_has_challenge(
    params: ResolvedView,
    state_token: Seq<char>,
    challenge: Seq<char>,
)
    ensures
        text::contains_text(
            params.authorize_url(state_token, challenge),
            "&code_challenge="@ + urls::url_encoded(challenge) + "&code_challenge_method=S256"@,
        ),
{
    let url = params.authorize_url(state_token, challenge);
    let part = "&code_challenge="@ + urls::url_encoded(challenge) + "&code_challenge_method=S256"@;
    let tail = "&state="@ + urls::url_encoded(state_token);
    let start = url.len() - tail.len() - part.len();
    assert(url.subrange(start, start + part.len()) =~= part);
    assert(text::stands_at(url, part, start));
}

/// Every authorize URL starts at the provider's endpoint and carries the client, where the
/// browser comes back to, and the state; and the scopes and the resource where there are
/// any.
pub proof fn law_authorize_url_carries_its_parameters(
    params: ResolvedView,
    state_token: Seq<char>,
    challenge: Seq<char>,
)
    ensures
        ({
            let url = params.authorize_url(state_token, challenge);
            &&& text::starts_with_text(url, params.authorization_endpoint)
            &&& text::contains_text(url, "?client_id="@ + urls::url_encoded(params.client_id))
            &&& text::contains_text(
                url,
                "&redirect_uri="@ + urls::url_encoded(params.redirect_uri),
            )
            &&& text::contains_text(url, "&response_type=code"@)
            &&& text::ends_with_text(url, "&state="@ + urls::url_encoded(state_token))
            &&& text::joined(params.scopes, " "@).len() > 0 ==> text::contains_text(
                url,
                "&scope="@ + urls::url_encoded(text::joined(params.scopes, " "@)),
            )
            &&& params.resource matches Some(r) ==> text::contains_text(
                url,
                "&resource="@ + urls::url_encoded(r),
            )
        }),
{
    let start = params.authorization_endpoint;
    let client = start + "?client_id="@ + urls::url_encoded(params.client_id);
    let redirect = client + "&redirect_uri="@ + urls::url_encoded(params.redirect_uri);
    let kind = redirect + "&response_type=code"@;
    let scopes = text::joined(params.scopes, " "@);
    let scope = if scopes.len() > 0 {
        kind + "&scope="@ + urls::url_encoded(scopes)
    } else {
        kind
    };
    let resource = match params.resource {
        Some(r) => scope + "&resource="@ + urls::url_encoded(r),
        None => scope,
    };
    let challenged = resource + "&code_challenge="@ + urls::url_encoded(challenge);
    let method = challenged + "&code_challenge_method=S256"@;
    let none = Seq::<char>::empty();
    assert(start.take(start.len() as int) =~= start);
    assert(text::starts_with_text(start, start));
    lemma_parameter_added(start, "?client_id="@, urls::url_encoded(params.client_id));
    lemma_parameter_added(client, "&redirect_uri="@, urls::url_encoded(params.redirect_uri));
    lemma_parameter_added(redirect, "&response_type=code"@, none);
    assert(redirect + "&response_type=code"@ + none =~= kind);
    assert("&response_type=code"@ + none =~= "&response_type=code"@);
    if scopes.len() > 0 {
        lemma_parameter_added(kind, "&scope="@, urls::url_encoded(scopes));
    }
    if params.resource is Some {
        lemma_parameter_added(scope, "&resource="@, urls::url_encoded(params.resource->0));
    }
    lemma_parameter_added(resource, "&code_challenge="@, urls::url_encoded(challenge));
    lemma_parameter_added(challenged, "&code_challenge_method=S256"@, none);
    assert(challenged + "&code_challenge_method=S256"@ + none =~= method);
    lemma_parameter_added(method, "&state="@, urls::url_encoded(state_token));
}

/// A parameter that is added to a URL stands at its end, and what was in the URL before
/// still is.
proof fn lemma_parameter_added(url: Seq<char>, name: Seq<char>, value: Seq<char>)
    ensures
        text::contains_text(url + name + value, name + value),
        text::ends_with_text(url + name + value, name + value),
        forall|p: Seq<char>| #[trigger]
            text::contains_text(url, p) ==> text::contains_text(url + name + value, p),
        forall|p: Seq<char>| #[trigger]
            text::starts_with_text(url, p) ==> text::starts_with_text(url + name + value, p),
{
    let more = url + name + value;
    let added = name + value;
    assert(more.skip(url.len() as int) =~= added);
    assert(more.subrange(url.len() as int, url.len() as int + added.len()) =~= added);
    assert(text::stands_at(more, added, url.len() as int));
    assert forall|p: Seq<char>| #[trigger] text::contains_text(url, p) implies text::contains_text(
        more,
        p,
    ) by {
        let i = choose|i: int| text::stands_at(url, p, i);
        assert(more.subrange(i, i + p.len()) =~= url.subrange(i, i + p.len()));
        assert(text::stands_at(more, p, i));
    }
    assert forall|p: Seq<char>| #[trigger]
        text::starts_with_text(url, p) implies text::starts_with_text(more, p) by {
        assert(more.take(p.len() as int) =~= url.take(p.len() as int));
    }
}

/// The form that exchanges a code holds the client, the code, the grant and the redirect,
/// and the secret, the resource and the verifier exactly where there are any; it holds
/// nothing else.
pub proof fn law_exchange_form_is_complete(
    params: ResolvedView,
    code: Seq<char>,
    verifier: Option<Seq<char>>,
    name: Seq<char>,
    value: Seq<char>,
)
    ensures
        params.exchange_params(code, verifier).contains((name, value)) <==> {
            ||| name == "client_id"@ && value == params.client_id
            ||| name == "code"@ && value == code
            ||| name == "grant_type"@ && value == "authorization_code"@
            ||| name == "redirect_uri"@ && value == params.redirect_uri
            ||| name == "client_secret"@ && params.client_secret == Some(value)
            ||| name == "resource"@ && params.resource == Some(value)
            ||| name == "code_verifier"@ && verifier == Some(value)
        },
{
    let form = params.exchange_params(code, verifier);
    assert(form[0] == ("client_id"@, params.client_id));
    assert(form[1] == ("code"@, code));
    assert(form[2] == ("grant_type"@, "authorization_code"@));
    assert(form[3] == ("redirect_uri"@, params.redirect_uri));
    let a: int = if params.client_secret is Some {
        1
    } else {
        0
    };
    let b: int = if params.resource is Some {
        1
    } else {
        0
    };
    if params.client_secret is Some {
        assert(form[4] == ("client_secret"@, params.client_secret->0));
    }
    if params.resource is Some {
        assert(form[4 + a] == ("resource"@, params.resource->0));
    }
    if verifier is Some {
        assert(form[4 + a + b] == ("code_verifier"@, verifier->0));
    }
}

/// With the right bearer secret, a user and a server that authorizes users, a link is made
/// for that user; what is wrong otherwise is told by the status.
pub proof fn law_connect_link_is_made(
    router: RouterView,
    server: Seq<char>,
    authorization: Seq<char>,
    user_id: Option<Seq<char>>,
)
    ensures
        ({
            let open = router.consumer_secret is Some && router.consumer_secret->0.len() > 0;
            let allowed = open && authorization == "Bearer "@ + router.consumer_secret->0;
            let named = user_id is Some && user_id->0.len() > 0;
            let known = router.configs.contains_key(server);
            match router.connect_link(server, authorization, user_id) {
                Ok(user) => allowed && named && known && router.configs[server].oauth is Some
                    && user_id == Some(user),
                Err(ReplyView::Text { status, .. }) => !open && status == 503,
                Err(ReplyView::Status(status)) => open && (!allowed ==> status == 401) && (allowed
                    && !named ==> status == 422) && (allowed && named && !known ==> status == 404)
                    && (allowed && named && known ==> router.configs[server].oauth is None
                    && status == 422),
                Err(_) => false,
            }
        }),
{
}

/// What the connect route refuses is told by the status: a server that is not there, one
/// that authorizes nobody, and a link that is missing, invalid, expired or another's.
pub proof fn law_refused_connect_tells_why(
    router: RouterView,
    server: Seq<char>,
    token: Option<Seq<char>>,
    now: u64,
)
    ensures
        ({
            let good = token matches Some(t) && (decrypted(router.signer.key, t, now) matches Ok(
                state,
            ) && state.server == server);
            match router.connect(server, token, now) {
                Ok(user) => good && router.has_oauth(server) && (decrypted(
                    router.signer.key,
                    token->0,
                    now,
                ) matches Ok(state) && state.user_id == user),
                Err(ReplyView::Page { status, .. }) => {
                    &&& !good ==> status == 400
                    &&& good && !router.configs.contains_key(server) ==> status == 404
                    &&& good && router.configs.contains_key(server)
                        ==> router.configs[server].oauth is None && status == 422
                },
                Err(_) => false,
            }
        }),
{
}

/// A callback is let through wherever the provider reports no error, sends a code, and
/// sends back a state of this server that has not expired; what is refused gets a page
/// that says so.
pub proof fn law_callback_is_let_through(
    router: RouterView,
    server: Seq<char>,
    code: Option<Seq<char>>,
    error: Option<Seq<char>>,
    raw_state: Option<Seq<char>>,
    now: u64,
)
    ensures
        router.oauth_callback(server, code, error, raw_state, now) is Ok <==> {
            &&& error is None
            &&& code is Some
            &&& raw_state matches Some(t) && (decrypted(router.signer.key, t, now) matches Ok(
                state,
            ) && state.server == server)
            &&& router.has_oauth(server)
        },
        router.oauth_callback(server, code, error, raw_state, now) matches Err(reply) ==> {
            &&& reply matches ReplyView::Page { html, status } && (status == 400 || status == 404)
            &&& error matches Some(e) ==> text::contains_text(reply->html, e) && reply->Page_status
                == 400
        },
{
    if error is Some {
        let e = error->0;
        let said = "OAuth provider error: "@ + e;
        lemma_error_page_says(said);
        let html = error_html(said);
        let at = choose|at: int| text::stands_at(html, said, at);
        let from = at + "OAuth provider error: "@.len();
        assert(html.subrange(from, from + e.len()) =~= html.subrange(at, at + said.len()).skip(
            "OAuth provider error: "@.len() as int,
        ));
        assert(said.skip("OAuth provider error: "@.len() as int) =~= e);
        assert(text::stands_at(html, e, from));
    }
}

proof fn lemma_error_page_says(msg: Seq<char>)
    ensures
        text::contains_text(error_html(msg), msg),
{
    let html = error_html(msg);
    let behind = "</p>\n</body></html>"@;
    let front = html.take(html.len() - behind.len() - msg.len());
    assert(html =~= front + msg + behind);
    text::lemma_middle_stands(front, msg, behind);
}

/// The pages say what they report: the server that was connected, or what went wrong.
pub proof fn law_pages_say_what_they_report(said: Seq<char>)
    ensures
        text::contains_text(success_html(said), said),
        text::contains_text(error_html(said), said),
{
    lemma_error_page_says(said);
    let html = success_html(said);
    let behind =
        "</strong> account is now connected.</p>\n<p>You can close this window.</p>\n</body></html>"@;
    let front = html.take(html.len() - behind.len() - said.len());
    assert(html =~= front + said + behind);
    text::lemma_middle_stands(front, said, behind);
}

/// Static credentials are used as they are configured.
pub proof fn law_static_credentials_are_used(
    authorization_url: Seq<char>,
    client_id: Seq<char>,
    client_secret: Seq<char>,
    redirect_uri: Seq<char>,
    scopes: Seq<Seq<char>>,
    token_url: Seq<char>,
)
    ensures
        ({
            let params = static_params(
                config::OAuthView::Static {
                    authorization_url,
                    client_id,
                    client_secret,
                    redirect_uri,
                    scopes,
                    token_url,
                },
            );
            &&& params.authorization_endpoint == authorization_url
            &&& params.client_id == client_id
            &&& params.client_secret == Some(client_secret)
            &&& params.redirect_uri == redirect_uri
            &&& params.scopes == scopes
            &&& params.token_endpoint == token_url
            &&& params.resource is None
        }),
{
}

/// A registered client is used with its own identifier, secret and redirect, at the
/// endpoints of its server, and for tokens of the MCP endpoint alone.
pub proof fn law_registered_client_is_used(
    oauth: config::OAuthView,
    client: RegisteredClient,
    mcp_url: Seq<char>,
)
    ensures
        ({
            let params = client_params(oauth, client, mcp_url);
            &&& params.authorization_endpoint == client.metadata@.authorization_endpoint
            &&& params.token_endpoint == client.metadata@.token_endpoint
            &&& params.client_id == client.client_id@
            &&& params.client_secret == text::opt_text(client.client_secret)
            &&& params.redirect_uri == client.redirect_uri@
            &&& params.resource == Some(mcp_url)
        }),
{
}

/// The scopes of a registration are taken only where the server names none; nothing else
/// of the metadata changes.
pub proof fn law_registered_scopes_fill_in(
    metadata: MetadataView,
    scopes: Option<Seq<Seq<char>>>,
)
    ensures
        ({
            let after = with_registered_scopes(metadata, scopes);
            &&& after == (MetadataView { scopes_supported: after.scopes_supported, ..metadata })
            &&& metadata.scopes_supported.len() > 0 ==> after.scopes_supported
                == metadata.scopes_supported
            &&& metadata.scopes_supported.len() == 0 ==> (match scopes {
                Some(s) => after.scopes_supported =~= s,
                None => after.scopes_supported == metadata.scopes_supported,
            })
        }),
{
}

/// A connect link leads to this instance, names the server and carries the token; the
/// callback of a server leads to this instance and names it too.
pub proof fn law_links_lead_here(base_url: Seq<char>, server: Seq<char>, token: Seq<char>)
    ensures
        text::starts_with_text(
            connect_link(base_url, server, token),
            base_url + "/mcp/"@ + urls::url_encoded(server) + "/"@,
        ),
        text::ends_with_text(connect_link(base_url, server, token), "token="@ + urls::url_encoded(token)),
        text::starts_with_text(
            callback_uri(base_url, server),
            base_url + "/mcp/"@ + urls::url_encoded(server) + "/"@,
        ),
{
    reveal_strlit("/");
    reveal_strlit("token=");
    reveal_strlit("/connect?token=");
    reveal_strlit("/oauth/callback");
    let front = base_url + "/mcp/"@ + urls::url_encoded(server) + "/"@;
    let link = connect_link(base_url, server, token);
    let back = callback_uri(base_url, server);
    let tail = "token="@ + urls::url_encoded(token);
    assert(link.take(front.len() as int) =~= front);
    assert(back.take(front.len() as int) =~= front);
    assert(link.skip(link.len() - tail.len()) =~= tail);
}

/// A minted link leads to this instance and carries a token by which the connect route
/// knows the user, at that server, for as long as the link lives.
pub proof fn law_minted_link_leads_to_its_user(
    router: RouterView,
    server: Seq<char>,
    user_id: UserId,
    made: u64,
    url: Seq<char>,
)
    requires
        made + STATE_TTL_SECS <= u64::MAX,
        is_connect_url(router.signer, server, user_id, made, url),
        router.has_oauth(server),
    ensures
        text::starts_with_text(url, router.signer.base_url),
        exists|token: Seq<char>|
            text::ends_with_text(url, "token="@ + urls::url_encoded(token)) && forall|now: u64|
                now <= made + STATE_TTL_SECS ==> #[trigger] router.connect(server, Some(token), now)
                    == Ok::<_, ReplyView>(user_id),
{
    let token = choose|token: Seq<char>|
        {
            &&& url == connect_link(router.signer.base_url, server, token)
            &&& #[trigger] is_token(
                router.signer.key,
                StateView { code_verifier: None, server, user_id },
                (made + STATE_TTL_SECS) as u64,
                token,
            )
        };
    law_links_lead_here(router.signer.base_url, server, token);
    let base = router.signer.base_url;
    assert(url.take(base.len() as int) =~= base);
    assert(text::ends_with_text(url, "token="@ + urls::url_encoded(token)));
    assert forall|now: u64| now <= made + STATE_TTL_SECS implies #[trigger] router.connect(
        server,
        Some(token),
        now,
    ) == Ok::<_, ReplyView>(user_id) by {
        law_connect_link_is_honoured(router, server, user_id, made, token, now);
    }
}

/// A browser that is sent to the provider carries the challenge of a verifier, and comes
/// back with a state from which the callback has that verifier, the server and the user,
/// for as long as the state lives.
pub proof fn law_authorized_browser_comes_back(
    router: RouterView,
    params: ResolvedView,
    server: Seq<char>,
    user_id: UserId,
    made: u64,
    url: Seq<char>,
)
    requires
        made + STATE_TTL_SECS <= u64::MAX,
        is_authorize_url(router.signer.key, params, server, user_id, made, url),
        router.has_oauth(server),
    ensures
        text::starts_with_text(url, params.authorization_endpoint),
        exists|verifier: Seq<char>, token: Seq<char>|
            #![trigger challenge_for(verifier), urls::url_encoded(token)]
            text::contains_text(
                url,
                "&code_challenge="@ + urls::url_encoded(challenge_for(verifier))
                    + "&code_challenge_method=S256"@,
            ) && text::ends_with_text(url, "&state="@ + urls::url_encoded(token)) && forall|
                code: Seq<char>,
                now: u64,
            |
                now <= made + STATE_TTL_SECS ==> #[trigger] router.oauth_callback(
                    server,
                    Some(code),
                    None,
                    Some(token),
                    now,
                ) == Ok::<_, ReplyView>(
                    (code, StateView { code_verifier: Some(verifier), server, user_id }),
                ),
{
    let (verifier, token) = choose|verifier: Seq<char>, token: Seq<char>|
        {
            &&& url == params.authorize_url(token, challenge_for(verifier))
            &&& #[trigger] is_token(
                router.signer.key,
                StateView { code_verifier: Some(verifier), server, user_id },
                (made + STATE_TTL_SECS) as u64,
                token,
            )
        };
    law_authorize_url_has_challenge(params, token, challenge_for(verifier));
    law_authorize_url_carries_its_parameters(params, token, challenge_for(verifier));
    assert forall|code: Seq<char>, now: u64| now <= made + STATE_TTL_SECS implies
        #[trigger] router.oauth_callback(server, Some(code), None, Some(token), now) == Ok::<
        _,
        ReplyView,
    >((code, StateView { code_verifier: Some(verifier), server, user_id })) by {
        law_callback_recovers_verifier(
            router,
            server,
            user_id,
            verifier,
            made,
            token,
            code,
            now,
        );
    }
    assert(text::ends_with_text(url, "&state="@ + urls::url_encoded(token)));
}

/// Scopes that a registration gives are seen one by one.
pub proof fn law_given_scopes_are_seen(scopes: Vec<String>, i: int)
    ensures
        opt_scopes(None) is None,
        opt_scopes(Some(scopes)) matches Some(seen) && seen.len() == scopes@.len() && (0 <= i
            < scopes@.len() ==> seen[i] == scopes@[i]@),
{
}

} // verus!
