//! Per-user sessions: when to use, refresh or give up a stored token, and what an
//! agent is offered in place of a server that cannot be used.
use std::collections::HashMap;

use vstd::prelude::*;

use crate::ids::UserId;
use crate::mcp::config::{McpServerConfig, McpTransport};
use crate::mcp::discovery::{AuthMetadata, Fetched};
use crate::mcp::error::McpError;
use crate::mcp::oauth::{TokenResponse, STATE_TTL_SECS};
use crate::mcp::routes::{is_connect_url, ConnectLinkSigner, SignerView};
use crate::mcp::vault::{StoredClient, StoredToken};
use crate::numbers;
use crate::text;

verus! {

/// How many sessions are cached where the configuration does not say.
pub const DEFAULT_SESSION_CACHE_SIZE: u64 = 256;

/// How long an unused session is kept, in seconds.
pub const SESSION_IDLE_SECS: u64 = 1800;

/// How long before its expiry a token is refreshed, in seconds.
pub const REFRESH_MARGIN_SECS: i64 = 60;

/// How many sessions are cached.
pub fn session_cache_size(configured: Option<u64>) -> (r: u64)
    ensures
        r == match configured {
            Some(n) => n,
            None => DEFAULT_SESSION_CACHE_SIZE,
        },
{
    match configured {
        Some(n) => n,
        None => DEFAULT_SESSION_CACHE_SIZE,
    }
}

/// A token with this expiry is due for a refresh: it has expired, or will within the
/// margin. A token without an expiry never is.
pub open spec fn refresh_due(expires_at: Option<i64>, now: i64) -> bool {
    match expires_at {
        Some(exp) => now >= exp - REFRESH_MARGIN_SECS,
        None => false,
    }
}

/// Whether a token with this expiry is due for a refresh.
pub fn is_refresh_due(expires_at: Option<i64>, now: i64) -> (r: bool)
    ensures
        r == refresh_due(expires_at, now),
{
    match expires_at {
        Some(exp) => match exp.checked_sub(REFRESH_MARGIN_SECS) {
            Some(limit) => now >= limit,
            None => true,
        },
        None => false,
    }
}

/// Where a session stands.
#[derive(Debug)]
pub enum Phase {
    /// Nothing has been looked up.
    Start,
    /// The stored token is being read.
    AwaitToken,
    /// The token was due; it is being refreshed before its first use.
    AwaitRefresh,
    /// The server is being connected to with the stored token.
    AwaitConnect { stored: StoredToken },
    /// The server refused the token; it is being refreshed.
    AwaitReactiveRefresh,
    /// The server is being connected to with the refreshed token.
    AwaitReconnect,
    /// The token is being deleted.
    AwaitDelete,
    /// The session is there, or will not be.
    Ended,
}

/// What was found out.
#[derive(Debug)]
pub enum Event {
    /// Whether a session is cached, and whether the server is configured.
    Looked { cached: bool, configured: bool },
    /// The stored token, where there is one.
    TokenRead(Result<Option<StoredToken>, McpError>),
    /// The refreshed token.
    Refreshed(Result<StoredToken, McpError>),
    /// The server accepted the connection, or failed; `refused` where it refused the
    /// token.
    Connected { outcome: Result<(), McpError>, refused: bool },
    /// The token is deleted.
    Deleted(Result<(), McpError>),
}

/// What to do next.
#[derive(Debug)]
pub enum Action {
    /// Use the cached session.
    UseCached,
    /// Read the stored token.
    ReadToken,
    /// Exchange the refresh token for a fresh pair, and store it.
    Refresh { refresh_token: String },
    /// Connect with the access token.
    Connect { access_token: String },
    /// Delete the stored token.
    DeleteToken,
    /// Cache the connected session and use it.
    UseConnected,
    /// Give up.
    Fail(McpError),
}

/// The error of a user who has to authorize.
pub open spec fn is_not_connected(e: McpError, server: Seq<char>, user_id: Seq<char>) -> bool {
    e is NotConnected && e->NotConnected_server@ == server && e->NotConnected_user_id@ == user_id
}

/// `action` and `after` start to refresh `stored`: by its refresh token where it has
/// one, else by deleting it.
pub open spec fn starts_refresh(
    stored: StoredToken,
    reactive: bool,
    after: Phase,
    action: Action,
) -> bool {
    match stored.refresh_token {
        Some(t) => {
            &&& action == (Action::Refresh { refresh_token: t })
            &&& if reactive {
                after is AwaitReactiveRefresh
            } else {
                after is AwaitRefresh
            }
        },
        None => action is DeleteToken && after is AwaitDelete,
    }
}

/// A session goes from `before` by `event` to `after`, and asks for `action`.
pub open spec fn is_step(
    server: Seq<char>,
    user_id: Seq<char>,
    now: i64,
    before: Phase,
    event: Event,
    after: Phase,
    action: Action,
) -> bool {
    match (before, event) {
        (Phase::Start, Event::Looked { cached, configured }) => if cached {
            action is UseCached && after is Ended
        } else if configured {
            action is ReadToken && after is AwaitToken
        } else {
            &&& action is Fail && after is Ended
            &&& action->Fail_0 is ServerNotConfigured
            &&& action->Fail_0->ServerNotConfigured_agent@ == "<pool>"@
            &&& action->Fail_0->ServerNotConfigured_server@ == server
        },
        (Phase::AwaitToken, Event::TokenRead(Ok(Some(stored)))) => if refresh_due(
            stored.expires_at,
            now,
        ) {
            starts_refresh(stored, false, after, action)
        } else {
            &&& action == (Action::Connect { access_token: stored.access_token })
            &&& after == (Phase::AwaitConnect { stored })
        },
        (Phase::AwaitToken, Event::TokenRead(Ok(None))) => {
            action is Fail && after is Ended && is_not_connected(action->Fail_0, server, user_id)
        },
        (Phase::AwaitToken, Event::TokenRead(Err(e))) => action == Action::Fail(e)
            && after is Ended,
        (Phase::AwaitRefresh, Event::Refreshed(Ok(stored))) => {
            &&& action == (Action::Connect { access_token: stored.access_token })
            &&& after == (Phase::AwaitConnect { stored })
        },
        (Phase::AwaitReactiveRefresh, Event::Refreshed(Ok(stored))) => {
            &&& action == (Action::Connect { access_token: stored.access_token })
            &&& after is AwaitReconnect
        },
        (Phase::AwaitRefresh, Event::Refreshed(Err(_))) => action is DeleteToken
            && after is AwaitDelete,
        (Phase::AwaitReactiveRefresh, Event::Refreshed(Err(_))) => action is DeleteToken
            && after is AwaitDelete,
        (Phase::AwaitConnect { stored }, Event::Connected { outcome, refused }) => match outcome {
            Ok(_) => action is UseConnected && after is Ended,
            Err(e) => if refused {
                starts_refresh(stored, true, after, action)
            } else {
                action == Action::Fail(e) && after is Ended
            },
        },
        (Phase::AwaitReconnect, Event::Connected { outcome, .. }) => match outcome {
            Ok(_) => action is UseConnected && after is Ended,
            Err(_) => action is DeleteToken && after is AwaitDelete,
        },
        (Phase::AwaitDelete, Event::Deleted(Ok(_))) => {
            action is Fail && after is Ended && is_not_connected(action->Fail_0, server, user_id)
        },
        (Phase::AwaitDelete, Event::Deleted(Err(e))) => action == Action::Fail(e)
            && after is Ended,
        _ => false,
    }
}

/// The event answers what the phase waits for.
pub open spec fn answers(phase: Phase, event: Event) -> bool {
    match phase {
        Phase::Start => event is Looked,
        Phase::AwaitToken => event is TokenRead,
        Phase::AwaitRefresh | Phase::AwaitReactiveRefresh => event is Refreshed,
        Phase::AwaitConnect { .. } | Phase::AwaitReconnect => event is Connected,
        Phase::AwaitDelete => event is Deleted,
        Phase::Ended => false,
    }
}

/// A session of one user at one server.
#[derive(Debug)]
pub struct SessionFlow {
    pub phase: Phase,
    pub server: String,
    pub user_id: String,
}

impl SessionFlow {
    /// A session that nothing is known of.
    pub fn new(server: &str, user_id: &str) -> (r: Self)
        ensures
            r.phase is Start,
            r.server@ == server@,
            r.user_id@ == user_id@,
    {
        SessionFlow {
            phase: Phase::Start,
            server: server.to_owned(),
            user_id: user_id.to_owned(),
        }
    }

    /// The error of a user who has to authorize.
    fn not_connected(&self) -> (r: McpError)
        ensures
            is_not_connected(r, self.server@, self.user_id@),
    {
        McpError::NotConnected { server: self.server.clone(), user_id: self.user_id.clone() }
    }

    /// Starts to refresh a token.
    fn refresh(&mut self, stored: StoredToken, reactive: bool) -> (r: Action)
        ensures
            starts_refresh(stored, reactive, final(self).phase, r),
            final(self).server == old(self).server,
            final(self).user_id == old(self).user_id,
    {
        match stored.refresh_token {
            Some(refresh_token) => {
                self.phase = if reactive {
                    Phase::AwaitReactiveRefresh
                } else {
                    Phase::AwaitRefresh
                };
                Action::Refresh { refresh_token }
            },
            None => {
                self.phase = Phase::AwaitDelete;
                Action::DeleteToken
            },
        }
    }

    /// Takes what was found out and says what to do next.
    ///
    /// A token that is due is refreshed before use; one that the server refuses is
    /// refreshed once more. A token that cannot be refreshed, or is refused again, is
    /// deleted, and the user has to authorize.
    pub fn get_or_spawn(&mut self, event: Event, now: i64) -> (r: Action)
        requires
            answers(old(self).phase, event),
        ensures
            is_step(
                old(self).server@,
                old(self).user_id@,
                now,
                old(self).phase,
                event,
                final(self).phase,
                r,
            ),
            final(self).server == old(self).server,
            final(self).user_id == old(self).user_id,
    {
        let mut phase = Phase::Ended;
        std::mem::swap(&mut phase, &mut self.phase);
        match (phase, event) {
            (Phase::Start, Event::Looked { cached, configured }) => {
                if cached {
                    Action::UseCached
                } else if configured {
                    self.phase = Phase::AwaitToken;
                    Action::ReadToken
                } else {
                    Action::Fail(
                        McpError::ServerNotConfigured {
                            agent: String::from_str("<pool>"),
                            server: self.server.clone(),
                        },
                    )
                }
            },
            (Phase::AwaitToken, Event::TokenRead(read)) => match read {
                Ok(Some(stored)) => {
                    if is_refresh_due(stored.expires_at, now) {
                        self.refresh(stored, false)
                    } else {
                        let access_token = stored.access_token.clone();
                        self.phase = Phase::AwaitConnect { stored };
                        Action::Connect { access_token }
                    }
                },
                Ok(None) => Action::Fail(self.not_connected()),
                Err(e) => Action::Fail(e),
            },
            (Phase::AwaitRefresh, Event::Refreshed(refreshed)) => match refreshed {
                Ok(stored) => {
                    let access_token = stored.access_token.clone();
                    self.phase = Phase::AwaitConnect { stored };
                    Action::Connect { access_token }
                },
                Err(_) => {
                    self.phase = Phase::AwaitDelete;
                    Action::DeleteToken
                },
            },
            (Phase::AwaitReactiveRefresh, Event::Refreshed(refreshed)) => match refreshed {
                Ok(stored) => {
                    self.phase = Phase::AwaitReconnect;
                    Action::Connect { access_token: stored.access_token }
                },
                Err(_) => {
                    self.phase = Phase::AwaitDelete;
                    Action::DeleteToken
                },
            },
            (Phase::AwaitConnect { stored }, Event::Connected { outcome, refused }) => {
                match outcome {
                    Ok(_) => Action::UseConnected,
                    Err(e) => if refused {
                        self.refresh(stored, true)
                    } else {
                        Action::Fail(e)
                    },
                }
            },
            (Phase::AwaitReconnect, Event::Connected { outcome, .. }) => match outcome {
                Ok(_) => Action::UseConnected,
                Err(_) => {
                    self.phase = Phase::AwaitDelete;
                    Action::DeleteToken
                },
            },
            (Phase::AwaitDelete, Event::Deleted(deleted)) => match deleted {
                Ok(_) => Action::Fail(self.not_connected()),
                Err(e) => Action::Fail(e),
            },
            _ => Action::UseCached,
        }
    }
}

/// How many more answers a session may wait for.
pub open spec fn steps_left(phase: Phase) -> nat {
    match phase {
        Phase::Start => 7,
        Phase::AwaitToken => 6,
        Phase::AwaitRefresh => 5,
        Phase::AwaitConnect { .. } => 4,
        Phase::AwaitReactiveRefresh => 3,
        Phase::AwaitReconnect => 2,
        Phase::AwaitDelete => 1,
        Phase::Ended => 0,
    }
}

/// Every step brings a session closer to its end, so it ends after seven answers at
/// most, and refreshes a refused token at most once.
pub proof fn law_session_terminates(
    server: Seq<char>,
    user_id: Seq<char>,
    now: i64,
    before: Phase,
    event: Event,
    after: Phase,
    action: Action,
)
    requires
        is_step(server, user_id, now, before, event, after, action),
    ensures
        steps_left(after) < steps_left(before),
        after is AwaitReactiveRefresh ==> before is AwaitConnect,
{
}

/// A user is asked to authorize only where no token is stored: none was found, or it
/// has just been deleted.
pub proof fn law_not_connected_means_no_token(
    server: Seq<char>,
    user_id: Seq<char>,
    now: i64,
    before: Phase,
    event: Event,
    after: Phase,
    action: Action,
)
    requires
        is_step(server, user_id, now, before, event, after, action),
        action is Fail,
        action->Fail_0 is NotConnected,
    ensures
        ({
            ||| event == Event::TokenRead(Ok(None))
            ||| before is AwaitDelete && event is Deleted && event->Deleted_0 is Ok
            ||| event == Event::TokenRead(Err(action->Fail_0))
            ||| event == Event::Deleted(Err(action->Fail_0))
            ||| event is Connected && event->outcome == Err::<(), _>(action->Fail_0)
        }),
{
}

/// A token without an expiry is used as it is.
pub proof fn law_token_without_expiry_is_used(
    server: Seq<char>,
    user_id: Seq<char>,
    now: i64,
    stored: StoredToken,
    after: Phase,
    action: Action,
)
    requires
        stored.expires_at is None,
        is_step(
            server,
            user_id,
            now,
            Phase::AwaitToken,
            Event::TokenRead(Ok(Some(stored))),
            after,
            action,
        ),
    ensures
        action == (Action::Connect { access_token: stored.access_token }),
{
}

/// The form that exchanges a refresh token: client, grant and token, then the secret
/// of a confidential client.
pub open spec fn refresh_params(
    client_id: Seq<char>,
    refresh_token: Seq<char>,
    client_secret: Option<Seq<char>>,
) -> Seq<(Seq<char>, Seq<char>)> {
    let params = seq![
        ("client_id"@, client_id),
        ("grant_type"@, "refresh_token"@),
        ("refresh_token"@, refresh_token),
    ];
    match client_secret {
        Some(s) => params.push(("client_secret"@, s)),
        None => params,
    }
}

/// The token endpoint and the form to post there for a refresh: from the cached
/// registration and its metadata as it was read.
pub fn refresh_request(
    server: &str,
    user_id: &str,
    client: Option<StoredClient>,
    metadata: Result<AuthMetadata, String>,
    refresh_token: &str,
) -> (r: Result<(String, Vec<(String, String)>), McpError>)
    ensures
        match client {
            None => r is Err && is_not_connected(r->Err_0, server@, user_id@),
            Some(c) => match metadata {
                Err(e) => {
                    &&& r is Err && r->Err_0 is Discovery
                    &&& r->Err_0->Discovery_source == e
                    &&& r->Err_0->Discovery_url@ == "<cached metadata for "@ + server@ + ">"@
                },
                Ok(m) => match r {
                    Ok((endpoint, form)) => endpoint == m.token_endpoint && text::pairs(form@)
                        == refresh_params(
                        c.client_id@,
                        refresh_token@,
                        text::opt_text(c.client_secret),
                    ),
                    Err(_) => false,
                },
            },
        },
{
    let client = match client {
        Some(c) => c,
        None => {
            return Err(
                McpError::NotConnected { server: server.to_owned(), user_id: user_id.to_owned() },
            );
        },
    };
    let metadata = match metadata {
        Ok(m) => m,
        Err(source) => {
            let mut url = String::from_str("<cached metadata for ");
            url.append(server);
            url.append(">");
            return Err(McpError::Discovery { source, url });
        },
    };
    let mut form: Vec<(String, String)> = Vec::new();
    form.push((String::from_str("client_id"), client.client_id));
    form.push((String::from_str("grant_type"), String::from_str("refresh_token")));
    form.push((String::from_str("refresh_token"), String::from_str(refresh_token)));
    assert(text::pairs(form@) =~= refresh_params(client.client_id@, refresh_token@, None));
    if let Some(secret) = client.client_secret {
        let p = (String::from_str("client_secret"), secret);
        proof {
            text::lemma_pairs_push(form@, p);
        }
        form.push(p);
    }
    Ok((metadata.token_endpoint, form))
}

/// The token pair to store after a refresh. A refresh token in the reply replaces the
/// one that was used; without one, that one is kept.
pub fn do_refresh(
    server: &str,
    endpoint: &str,
    refresh_token: &str,
    reply: Fetched<TokenResponse>,
    now: u64,
) -> (r: Result<StoredToken, McpError>)
    requires
        reply matches Fetched::Answered(Ok(t)) ==> t.expires_in is Some ==> now + t.expires_in->0
            <= u64::MAX,
    ensures
        match reply {
            Fetched::Answered(Ok(t)) => match r {
                Ok(stored) => {
                    &&& stored.access_token == t.access_token
                    &&& stored.expires_at == match t.expires_in {
                        Some(secs) => Some(numbers::clamped_i64(now + secs)),
                        None => None,
                    }
                    &&& stored.refresh_token is Some
                    &&& stored.refresh_token->0@ == match t.refresh_token {
                        Some(rotated) => rotated@,
                        None => refresh_token@,
                    }
                },
                Err(_) => false,
            },
            Fetched::Refused { body, status, .. } => {
                &&& r is Err && r->Err_0 is Discovery
                &&& r->Err_0->Discovery_url@ == endpoint@
                &&& r->Err_0->Discovery_source@ == "refresh failed: HTTP "@ + text::decimal(
                    status as nat,
                ) + ": "@ + body@
            },
            Fetched::Failed(e) => r is Err && r->Err_0 is TokenExchange
                && r->Err_0->TokenExchange_server@ == server@ && r->Err_0->TokenExchange_source
                == e,
            Fetched::Answered(Err(e)) => r is Err && r->Err_0 is TokenExchange
                && r->Err_0->TokenExchange_server@ == server@ && r->Err_0->TokenExchange_source
                == e,
        },
{
    match reply {
        Fetched::Answered(Ok(t)) => Ok(
            t.into_stored_token(Some(refresh_token.to_owned()), now),
        ),
        Fetched::Refused { body, status, .. } => {
            let mut source = String::from_str("refresh failed: HTTP ");
            source.append(text::format_u64(status as u64).as_str());
            source.append(": ");
            source.append(body.as_str());
            Err(McpError::Discovery { source, url: endpoint.to_owned() })
        },
        Fetched::Failed(source) | Fetched::Answered(Err(source)) => Err(
            McpError::TokenExchange { server: server.to_owned(), source },
        ),
    }
}

/// How to open a server: where to connect, and with which credentials.
pub enum Launch<'a> {
    Http { authorization: Option<String>, url: &'a str },
    Sse { authorization: Option<String>, url: &'a str },
    /// A child process; `token` goes into its environment as `MCP_OAUTH_TOKEN`, over
    /// whatever `env` holds.
    Child {
        args: &'a Vec<String>,
        command: &'a str,
        env: &'a HashMap<String, String>,
        token: Option<String>,
    },
}

/// The value of an `Authorization` header for an access token.
pub open spec fn bearer(access_token: Option<Seq<char>>) -> Option<Seq<char>> {
    match access_token {
        Some(t) => Some("Bearer "@ + t),
        None => None,
    }
}

/// How to open a server for a user with an access token, or for everybody without one.
pub fn connect_user_session<'a>(config: &'a McpServerConfig, access_token: Option<&str>) -> (r:
    Launch<'a>)
    ensures
        match config.transport {
            McpTransport::Http { url } => match r {
                Launch::Http { authorization, url: to } => to@ == url@ && text::opt_text(
                    authorization,
                ) == bearer(text::opt_str(access_token)),
                _ => false,
            },
            McpTransport::Sse { url } => match r {
                Launch::Sse { authorization, url: to } => to@ == url@ && text::opt_text(
                    authorization,
                ) == bearer(text::opt_str(access_token)),
                _ => false,
            },
            McpTransport::Stdio { args, command, env } => match r {
                Launch::Child { args: a, command: c, env: e, token } => *a == args && c@ == command@
                    && *e == env && text::opt_text(token) == text::opt_str(access_token),
                _ => false,
            },
        },
{
    let authorization = match access_token {
        Some(t) => {
            let mut h = String::from_str("Bearer ");
            h.append(t);
            Some(h)
        },
        None => None,
    };
    match &config.transport {
        McpTransport::Http { url } => Launch::Http { authorization, url: url.as_str() },
        McpTransport::Sse { url } => Launch::Sse { authorization, url: url.as_str() },
        McpTransport::Stdio { args, command, env } => Launch::Child {
            args,
            command: command.as_str(),
            env,
            token: match access_token {
                Some(t) => Some(t.to_owned()),
                None => None,
            },
        },
    }
}

/// Where opening a server failed; the text of the underlying error.
pub enum LaunchFailure {
    Spawn(String),
    Connect(String),
    ListTools(String),
}

/// The error of a server that could not be opened.
pub fn launch_error(server: &str, failure: LaunchFailure) -> (r: McpError)
    ensures
        match failure {
            LaunchFailure::Spawn(e) => r is Spawn && r->Spawn_server@ == server@
                && r->Spawn_source == e,
            LaunchFailure::Connect(e) => r is Connect && r->Connect_server@ == server@
                && r->Connect_source == e,
            LaunchFailure::ListTools(e) => r is ListTools && r->ListTools_server@ == server@
                && r->ListTools_source == e,
        },
{
    let server = server.to_owned();
    match failure {
        LaunchFailure::Spawn(source) => McpError::Spawn { server, source },
        LaunchFailure::Connect(source) => McpError::Connect { server, source },
        LaunchFailure::ListTools(source) => McpError::ListTools { server, source },
    }
}

/// A tool as a server describes it; `input_schema` is the text of a JSON schema.
#[derive(Debug)]
pub struct ToolInfo {
    pub description: Option<String>,
    pub input_schema: String,
    pub name: String,
}

/// A tool as a model sees it.
#[derive(Debug)]
pub struct ToolDefinition {
    pub description: String,
    pub name: String,
    /// The text of a JSON schema.
    pub parameters: String,
}

/// Model of `ToolDefinition`.
pub struct DefinitionView {
    pub description: Seq<char>,
    pub name: Seq<char>,
    pub parameters: Seq<char>,
}

impl View for ToolDefinition {
    type V = DefinitionView;

    open spec fn view(&self) -> DefinitionView {
        DefinitionView {
            description: self.description@,
            name: self.name@,
            parameters: self.parameters@,
        }
    }
}

/// Placeholder for a tool of a server that the user has not connected: it answers every
/// call with the way to connect.
#[derive(Debug)]
pub struct NotConnectedTool {
    pub definition: ToolDefinition,
    pub message: String,
}

/// The answer of a placeholder with a connect link.
pub open spec fn not_connected_text(server: Seq<char>, url: Seq<char>) -> Seq<char> {
    "Not connected: the user has not authorized access to the '"@ + server
        + "' MCP server. Show them this link verbatim and ask them to open it to link their account — the link is single-use and tied to their identity. Do not share it with anyone else, and do not edit, regenerate, or invent any part of it (the URL is HMAC-signed; any modification makes it invalid). If a previous link expired, call this tool again to get a fresh one — never hand-roll a new URL. URL: "@
        + url
}

/// The answer of a placeholder where no link can be made.
pub open spec fn misconfigured_text(server: Seq<char>) -> Seq<char> {
    "Not connected: the user has not authorized access to the '"@ + server
        + "' MCP server, and Coulisse is misconfigured (missing public_base_url or hmac_key). Ask an administrator to check the server logs."@
}

/// `message` holds a connect link of `user_id`, made at `now`.
pub open spec fn is_link_message(
    signer: SignerView,
    server: Seq<char>,
    user_id: UserId,
    now: u64,
    message: Seq<char>,
) -> bool {
    exists|url: Seq<char>|
        message == not_connected_text(server, url) && #[trigger] is_connect_url(
            signer,
            server,
            user_id,
            now,
            url,
        )
}

/// `message` tells `user_id` how to connect to `server`: with a link that is theirs, or,
/// without a signer, that none can be made.
pub open spec fn is_connect_message(
    server: Seq<char>,
    user_id: UserId,
    signer: Option<SignerView>,
    now: u64,
    message: Seq<char>,
) -> bool {
    match signer {
        Some(s) => is_link_message(s, server, user_id, now, message),
        None => message == misconfigured_text(server),
    }
}

/// Model of an optional signer.
pub open spec fn opt_signer(signer: Option<&ConnectLinkSigner>) -> Option<SignerView> {
    match signer {
        Some(s) => Some(s@),
        None => None,
    }
}

/// What a placeholder says of the tool that it stands for.
pub open spec fn placeholder_definition(tool: ToolInfo) -> DefinitionView {
    DefinitionView {
        description: match tool.description {
            Some(d) => d@,
            None => Seq::empty(),
        },
        name: tool.name@,
        parameters: tool.input_schema@,
    }
}

impl NotConnectedTool {
    /// The placeholder for `tool`, with a fresh connect link for the user.
    pub fn new(
        server: &str,
        tool: ToolInfo,
        user_id: UserId,
        signer: Option<&ConnectLinkSigner>,
        now: u64,
    ) -> (r: Self)
        requires
            server@.len() <= 0x1_0000_0000,
            now + STATE_TTL_SECS <= u64::MAX,
        ensures
            r.definition@ == placeholder_definition(tool),
            is_connect_message(server@, user_id, opt_signer(signer), now, r.message@),
    {
        let mut message = String::from_str(
            "Not connected: the user has not authorized access to the '",
        );
        message.append(server);
        match signer {
            Some(s) => {
                let url = s.connect_url(server, user_id, now).unwrap();
                message.append(
                    "' MCP server. Show them this link verbatim and ask them to open it to link their account — the link is single-use and tied to their identity. Do not share it with anyone else, and do not edit, regenerate, or invent any part of it (the URL is HMAC-signed; any modification makes it invalid). If a previous link expired, call this tool again to get a fresh one — never hand-roll a new URL. URL: ",
                );
                message.append(url.as_str());
                assert(is_connect_url(s@, server@, user_id, now, url@));
                assert(message@ == not_connected_text(server@, url@));
                assert(is_link_message(s@, server@, user_id, now, message@));
            },
            None => {
                message.append(
                    "' MCP server, and Coulisse is misconfigured (missing public_base_url or hmac_key). Ask an administrator to check the server logs.",
                );
            },
        }
        let description = match tool.description {
            Some(d) => d,
            None => String::new(),
        };
        NotConnectedTool {
            definition: ToolDefinition {
                description,
                name: tool.name,
                parameters: tool.input_schema,
            },
            message,
        }
    }

    /// The answer to every call.
    pub fn call(&self) -> (r: String)
        ensures
            r == self.message,
    {
        self.message.clone()
    }

    /// The name that the model sees.
    pub fn name(&self) -> (r: String)
        ensures
            r == self.definition.name,
    {
        self.definition.name.clone()
    }
}

/// Placeholder for a server that cannot be used for another reason: it tells the model
/// so, and keeps one broken server from taking the others down.
#[derive(Debug)]
pub struct UnreachableTool {
    pub definition: ToolDefinition,
    pub message: String,
}

/// JSON schema of a tool that takes no arguments.
pub open spec fn empty_schema_text() -> Seq<char> {
    "{\"type\":\"object\",\"properties\":{}}"@
}

/// JSON schema of a tool that takes no arguments: an object without properties.
pub fn empty_object_schema() -> (r: String)
    ensures
        r@ == empty_schema_text(),
{
    String::from_str("{\"type\":\"object\",\"properties\":{}}")
}

/// What the placeholder for an unreachable server says of itself.
pub open spec fn unreachable_definition(server: Seq<char>) -> DefinitionView {
    DefinitionView {
        description: "The '"@ + server
            + "' MCP server is currently unreachable. Calling tools on this server will fail. Tell the user that '"@
            + server
            + "' is temporarily unavailable and proceed with whatever else you can help them with."@,
        name: server + "_unreachable"@,
        parameters: empty_schema_text(),
    }
}

/// The answer of the placeholder for an unreachable server.
pub open spec fn unreachable_text(server: Seq<char>, summary: Seq<char>) -> Seq<char> {
    "MCP server '"@ + server + "' is unreachable: "@ + summary
        + ". The admin should check Coulisse logs for the full error chain."@
}

impl UnreachableTool {
    /// The placeholder for `server`, which failed as `error_summary` says.
    pub fn new(server: &str, error_summary: &str) -> (r: Self)
        ensures
            r.definition@ == unreachable_definition(server@),
            r.message@ == unreachable_text(server@, error_summary@),
    {
        let mut description = String::from_str("The '");
        description.append(server);
        description.append(
            "' MCP server is currently unreachable. Calling tools on this server will fail. Tell the user that '",
        );
        description.append(server);
        description.append(
            "' is temporarily unavailable and proceed with whatever else you can help them with.",
        );
        let mut name = String::from_str(server);
        name.append("_unreachable");
        let mut message = String::from_str("MCP server '");
        message.append(server);
        message.append("' is unreachable: ");
        message.append(error_summary);
        message.append(". The admin should check Coulisse logs for the full error chain.");
        UnreachableTool {
            definition: ToolDefinition { description, name, parameters: empty_object_schema() },
            message,
        }
    }

    /// The answer to every call.
    pub fn call(&self) -> (r: String)
        ensures
            r == self.message,
    {
        self.message.clone()
    }

    /// The name that the model sees.
    pub fn name(&self) -> (r: String)
        ensures
            r == self.definition.name,
    {
        self.definition.name.clone()
    }
}

/// A token is refreshed from a minute before it expires, and then ever after; one without
/// an expiry never is.
pub proof fn law_refresh_is_due_before_expiry(expires_at: i64, now: i64, later: i64)
    ensures
        refresh_due(Some(expires_at), now) <==> now + 60 >= expires_at,
        refresh_due(Some(expires_at), now) && now <= later ==> refresh_due(
            Some(expires_at),
            later,
        ),
        !refresh_due(None, now),
{
}

/// A cached session is used, a server that is configured is asked for its token, and one
/// that is not is reported by its name.
pub proof fn law_session_starts_with_a_look(
    server: Seq<char>,
    user_id: Seq<char>,
    now: i64,
    cached: bool,
    configured: bool,
    after: Phase,
    action: Action,
)
    requires
        is_step(
            server,
            user_id,
            now,
            Phase::Start,
            Event::Looked { cached, configured },
            after,
            action,
        ),
    ensures
        action is UseCached <==> cached,
        action is ReadToken <==> !cached && configured,
        !cached && !configured ==> (action matches Action::Fail(
            McpError::ServerNotConfigured { server: s, .. },
        ) && s@ == server),
{
}

/// A stored token that will not expire within a minute is used as it is. One that will is
/// never used: it is refreshed by its refresh token, or deleted where it has none.
pub proof fn law_only_fresh_tokens_are_used(
    server: Seq<char>,
    user_id: Seq<char>,
    now: i64,
    stored: StoredToken,
    after: Phase,
    action: Action,
)
    requires
        is_step(
            server,
            user_id,
            now,
            Phase::AwaitToken,
            Event::TokenRead(Ok(Some(stored))),
            after,
            action,
        ),
    ensures
        (stored.expires_at matches Some(exp) ==> now + 60 < exp) ==> action == (Action::Connect {
            access_token: stored.access_token,
        }),
        (stored.expires_at matches Some(exp) && now + 60 >= exp) ==> match stored.refresh_token {
            Some(t) => action == (Action::Refresh { refresh_token: t }),
            None => action is DeleteToken,
        },
{
}

/// A token that was refreshed is connected with. One that could not be is deleted.
pub proof fn law_refreshed_token_is_used(
    server: Seq<char>,
    user_id: Seq<char>,
    now: i64,
    before: Phase,
    refreshed: Result<StoredToken, McpError>,
    after: Phase,
    action: Action,
)
    requires
        is_step(server, user_id, now, before, Event::Refreshed(refreshed), after, action),
    ensures
        match refreshed {
            Ok(stored) => action == (Action::Connect { access_token: stored.access_token }),
            Err(_) => action is DeleteToken,
        },
        refreshed is Ok ==> (before is AwaitReactiveRefresh <==> after is AwaitReconnect),
{
}

/// A connection that was accepted is used, whenever it was made. A token that is refused is
/// refreshed by its refresh token, and deleted where it has none or was refreshed before;
/// any other failure is reported as it is.
pub proof fn law_refused_token_is_refreshed_once(
    server: Seq<char>,
    user_id: Seq<char>,
    now: i64,
    before: Phase,
    outcome: Result<(), McpError>,
    refused: bool,
    after: Phase,
    action: Action,
)
    requires
        is_step(
            server,
            user_id,
            now,
            before,
            Event::Connected { outcome, refused },
            after,
            action,
        ),
    ensures
        action is UseConnected <==> outcome is Ok,
        outcome is Err && before is AwaitReconnect ==> action is DeleteToken,
        (before matches Phase::AwaitConnect { stored } && outcome is Err && refused) ==> match before->stored.refresh_token {
            Some(t) => action == (Action::Refresh { refresh_token: t })
                && after is AwaitReactiveRefresh,
            None => action is DeleteToken,
        },
        before is AwaitConnect && !refused ==> (outcome matches Err(e) ==> action == Action::Fail(
            e,
        )),
{
}

/// A session ends exactly with a connection to use or a failure, and a user who has to
/// authorize is told at which server.
pub proof fn law_session_ends_with_an_outcome(
    server: Seq<char>,
    user_id: Seq<char>,
    now: i64,
    before: Phase,
    event: Event,
    after: Phase,
    action: Action,
)
    requires
        is_step(server, user_id, now, before, event, after, action),
    ensures
        after is Ended <==> action is UseCached || action is UseConnected || action is Fail,
        event == Event::TokenRead(Ok(None)) || event == Event::Deleted(Ok(())) ==> (
        action matches Action::Fail(McpError::NotConnected { server: s, user_id: u }) && s@
            == server && u@ == user_id),
        event matches Event::TokenRead(Err(e)) ==> action == Action::Fail(e),
        event matches Event::Deleted(Err(e)) ==> action == Action::Fail(e),
{
}

/// The form that refreshes a token holds the client, the grant and the refresh token, and
/// the secret exactly where there is one; it holds nothing else.
pub proof fn law_refresh_form_is_complete(
    client_id: Seq<char>,
    refresh_token: Seq<char>,
    client_secret: Option<Seq<char>>,
    name: Seq<char>,
    value: Seq<char>,
)
    ensures
        refresh_params(client_id, refresh_token, client_secret).contains((name, value)) <==> {
            ||| name == "client_id"@ && value == client_id
            ||| name == "grant_type"@ && value == "refresh_token"@
            ||| name == "refresh_token"@ && value == refresh_token
            ||| name == "client_secret"@ && client_secret == Some(value)
        },
{
    let form = refresh_params(client_id, refresh_token, client_secret);
    assert(form[0] == ("client_id"@, client_id));
    assert(form[1] == ("grant_type"@, "refresh_token"@));
    assert(form[2] == ("refresh_token"@, refresh_token));
    if client_secret is Some {
        assert(form[3] == ("client_secret"@, client_secret->0));
    }
}

/// A token is shown as a bearer's, and nothing is shown where there is none.
pub proof fn law_bearer_shows_the_token(token: Seq<char>)
    ensures
        bearer(None) is None,
        bearer(Some(token)) matches Some(header) && text::starts_with_text(header, "Bearer "@)
            && text::ends_with_text(header, token),
{
    let header = "Bearer "@ + token;
    assert(header.take("Bearer "@.len() as int) =~= "Bearer "@);
    assert(header.skip(header.len() - token.len()) =~= token);
}

/// What a placeholder answers names its server, and carries the link or the reason that it
/// was given.
pub proof fn law_placeholders_say_why(server: Seq<char>, said: Seq<char>)
    ensures
        text::contains_text(not_connected_text(server, said), server),
        text::ends_with_text(not_connected_text(server, said), said),
        text::contains_text(misconfigured_text(server), server),
        text::contains_text(unreachable_text(server, said), server),
        text::contains_text(unreachable_text(server, said), said),
        text::contains_text(unreachable_definition(server).description, server),
        text::starts_with_text(unreachable_definition(server).name, server),
{
    let lead = "Not connected: the user has not authorized access to the '"@;
    let link = not_connected_text(server, said);
    text::lemma_middle_stands(lead, server, link.skip((lead + server).len() as int));
    assert(link =~= lead + server + link.skip((lead + server).len() as int));
    assert(link.skip(link.len() - said.len()) =~= said);
    let none = misconfigured_text(server);
    text::lemma_middle_stands(lead, server, none.skip((lead + server).len() as int));
    assert(none =~= lead + server + none.skip((lead + server).len() as int));
    let first = "MCP server '"@;
    let second = "' is unreachable: "@;
    let broken = unreachable_text(server, said);
    text::lemma_middle_stands(first, server, broken.skip((first + server).len() as int));
    assert(broken =~= first + server + broken.skip((first + server).len() as int));
    let front = first + server + second;
    text::lemma_middle_stands(front, said, broken.skip((front + said).len() as int));
    assert(broken =~= front + said + broken.skip((front + said).len() as int));
    let told = unreachable_definition(server).description;
    let the = "The '"@;
    text::lemma_middle_stands(the, server, told.skip((the + server).len() as int));
    assert(told =~= the + server + told.skip((the + server).len() as int));
    let name = unreachable_definition(server).name;
    assert(name.take(server.len() as int) =~= server);
}

/// A placeholder goes by the name of the tool that it stands for, and is described as it
/// is.
pub proof fn law_placeholder_stands_for_its_tool(tool: ToolInfo)
    ensures
        placeholder_definition(tool).name == tool.name@,
        placeholder_definition(tool).parameters == tool.input_schema@,
        tool.description matches Some(d) ==> placeholder_definition(tool).description == d@,
        tool.description is None ==> placeholder_definition(tool).description.len() == 0,
{
}

/// A user who is told to connect is given a link that is theirs, or is told that there is
/// none.
pub proof fn law_connect_message_carries_the_link(
    server: Seq<char>,
    user_id: UserId,
    signer: Option<SignerView>,
    now: u64,
    message: Seq<char>,
)
    requires
        is_connect_message(server, user_id, signer, now, message),
    ensures
        text::contains_text(message, server),
        signer matches Some(s) ==> exists|url: Seq<char>|
            text::ends_with_text(message, url) && #[trigger] is_connect_url(
                s,
                server,
                user_id,
                now,
                url,
            ),
{
    match signer {
        Some(s) => {
            let url = choose|url: Seq<char>|
                message == not_connected_text(server, url) && #[trigger] is_connect_url(
                    s,
                    server,
                    user_id,
                    now,
                    url,
                );
            law_placeholders_say_why(server, url);
        },
        None => {
            law_placeholders_say_why(server, Seq::empty());
        },
    }
}

} // verus!
