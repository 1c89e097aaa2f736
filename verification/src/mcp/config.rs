//! Configuration of MCP servers.
use std::collections::HashMap;

use vstd::prelude::*;

use crate::text;

verus! {

/// OAuth configuration for an MCP server: `Static` holds credentials that were
/// registered beforehand; `Discover` finds the provider's endpoints and registers
/// the client on first use.
#[derive(Debug)]
pub enum McpOAuthConfig {
    Discover { scopes: Vec<String> },
    Static {
        authorization_url: String,
        client_id: String,
        client_secret: String,
        redirect_uri: String,
        scopes: Vec<String>,
        token_url: String,
    },
}

/// Model of `McpOAuthConfig`.
pub enum OAuthView {
    Discover { scopes: Seq<Seq<char>> },
    Static {
        authorization_url: Seq<char>,
        client_id: Seq<char>,
        client_secret: Seq<char>,
        redirect_uri: Seq<char>,
        scopes: Seq<Seq<char>>,
        token_url: Seq<char>,
    },
}

impl View for McpOAuthConfig {
    type V = OAuthView;

    open spec fn view(&self) -> OAuthView {
        match self {
            McpOAuthConfig::Discover { scopes } => OAuthView::Discover {
                scopes: text::texts(scopes@),
            },
            McpOAuthConfig::Static {
                authorization_url,
                client_id,
                client_secret,
                redirect_uri,
                scopes,
                token_url,
            } => OAuthView::Static {
                authorization_url: authorization_url@,
                client_id: client_id@,
                client_secret: client_secret@,
                redirect_uri: redirect_uri@,
                scopes: text::texts(scopes@),
                token_url: token_url@,
            },
        }
    }
}

impl Clone for McpOAuthConfig {
    fn clone(&self) -> (r: Self)
        ensures
            r@ == self@,
    {
        match self {
            McpOAuthConfig::Discover { scopes } => McpOAuthConfig::Discover {
                scopes: text::clone_list(scopes),
            },
            McpOAuthConfig::Static {
                authorization_url,
                client_id,
                client_secret,
                redirect_uri,
                scopes,
                token_url,
            } => McpOAuthConfig::Static {
                authorization_url: authorization_url.clone(),
                client_id: client_id.clone(),
                client_secret: client_secret.clone(),
                redirect_uri: redirect_uri.clone(),
                scopes: text::clone_list(scopes),
                token_url: token_url.clone(),
            },
        }
    }
}

impl OAuthView {
    /// The scopes listed in the configuration.
    pub open spec fn scopes(self) -> Seq<Seq<char>> {
        match self {
            OAuthView::Discover { scopes } => scopes,
            OAuthView::Static { scopes, .. } => scopes,
        }
    }

    /// Discovery without a scope of its own.
    pub open spec fn discover() -> OAuthView {
        OAuthView::Discover { scopes: Seq::empty() }
    }
}

/// Credentials of a client that was registered beforehand.
#[derive(Debug)]
pub struct StaticCredentials {
    pub authorization_url: String,
    pub client_id: String,
    pub client_secret: String,
    pub redirect_uri: String,
    pub scopes: Vec<String>,
    pub token_url: String,
}

/// The `mode` key of an `oauth:` map. A value that is no string is given by its JSON text.
#[derive(Debug)]
pub enum OAuthMode {
    Absent,
    Other(String),
    Text(String),
}

/// An `oauth:` map as it was read.
///
/// `mode` is the `mode` key; `scopes` is the `scopes` key
/// where there is one, read as a list of strings; `credentials` is the whole map
/// read as credentials. Where reading failed, the reader's message stands in place.
#[derive(Debug)]
pub struct OAuthMap {
    pub credentials: Result<StaticCredentials, String>,
    pub mode: OAuthMode,
    pub scopes: Option<Result<Vec<String>, String>>,
}

/// The value of an `oauth:` key.
#[derive(Debug)]
pub enum OAuthSetting {
    Flag(bool),
    Fields(OAuthMap),
    Other,
    Text(String),
}

/// Why a configuration was refused, or what it came to.
pub type Resolved<T> = Result<T, Seq<char>>;

/// Why a mode is refused.
pub open spec fn unknown_mode(mode: Seq<char>) -> Seq<char> {
    "unknown oauth mode `"@ + mode + "` (expected `discover` or `static`)"@
}

impl OAuthMap {
    /// What the map configures. Only a map without a mode falls back to discovery.
    pub open spec fn resolved(self) -> Resolved<OAuthView> {
        match self.mode {
            OAuthMode::Absent => self.discovered(),
            OAuthMode::Other(m) => Err(unknown_mode(m@)),
            OAuthMode::Text(m) => if m@ == "discover"@ {
                self.discovered()
            } else if m@ == "static"@ {
                self.registered()
            } else {
                Err(unknown_mode(m@))
            },
        }
    }

    /// What the map configures in the mode `discover`.
    pub open spec fn discovered(self) -> Resolved<OAuthView> {
        match self.scopes {
            None => Ok(OAuthView::discover()),
            Some(Ok(scopes)) => Ok(OAuthView::Discover { scopes: text::texts(scopes@) }),
            Some(Err(e)) => Err(e@),
        }
    }

    /// What the map configures in the mode `static`.
    pub open spec fn registered(self) -> Resolved<OAuthView> {
        match self.credentials {
            Ok(c) => Ok(
                OAuthView::Static {
                    authorization_url: c.authorization_url@,
                    client_id: c.client_id@,
                    client_secret: c.client_secret@,
                    redirect_uri: c.redirect_uri@,
                    scopes: text::texts(c.scopes@),
                    token_url: c.token_url@,
                },
            ),
            Err(e) => Err(e@),
        }
    }
}

impl OAuthSetting {
    /// What the value configures, where it is read as an OAuth configuration.
    pub open spec fn resolved(self) -> Resolved<OAuthView> {
        match self {
            OAuthSetting::Text(s) => if s@ == "discover"@ {
                Ok(OAuthView::discover())
            } else {
                Err(
                    "unknown oauth shorthand `"@ + s@
                        + "` (use `discover`, or a full `oauth: { mode: static, ... }` block)"@,
                )
            },
            OAuthSetting::Fields(m) => m.resolved(),
            OAuthSetting::Flag(_) | OAuthSetting::Other => Err(
                "oauth: must be either the shorthand `discover` or a map with `mode:`/`scopes:`"@,
            ),
        }
    }
}

/// The scopes to request: the configured ones, else the discovered ones, else the
/// OpenID defaults.
pub open spec fn effective_scopes(
    configured: Seq<Seq<char>>,
    discovered: Seq<Seq<char>>,
) -> Seq<Seq<char>> {
    if configured.len() > 0 {
        configured
    } else if discovered.len() > 0 {
        discovered
    } else {
        seq!["openid"@, "email"@, "profile"@]
    }
}

impl McpOAuthConfig {
    /// Scopes the user is asked to grant.
    pub fn scopes(&self) -> (r: &[String])
        ensures
            text::texts(r@) == self@.scopes(),
    {
        match self {
            McpOAuthConfig::Discover { scopes } => scopes.as_slice(),
            McpOAuthConfig::Static { scopes, .. } => scopes.as_slice(),
        }
    }

    /// Discovery without a scope of its own.
    pub fn discover() -> (r: Self)
        ensures
            r@ == OAuthView::discover(),
    {
        let r = McpOAuthConfig::Discover { scopes: Vec::new() };
        assert(r@->Discover_scopes =~= Seq::empty());
        r
    }

    /// Scopes to request at a server that advertises `discovered`: those of the
    /// configuration, else the advertised ones, else the OpenID defaults.
    pub fn effective_scopes(&self, _server: &str, discovered: &[String]) -> (r: Vec<String>)
        ensures
            text::texts(r@) == effective_scopes(self@.scopes(), text::texts(discovered@)),
    {
        let own = self.scopes();
        assert(text::texts(own@).len() == own@.len());
        assert(text::texts(discovered@).len() == discovered@.len());
        if own.len() > 0 {
            return text::clone_slice(own);
        }
        if discovered.len() > 0 {
            return text::clone_slice(discovered);
        }
        let mut r: Vec<String> = Vec::new();
        r.push(String::from_str("openid"));
        r.push(String::from_str("email"));
        r.push(String::from_str("profile"));
        assert(text::texts(r@) =~= seq!["openid"@, "email"@, "profile"@]);
        r
    }

    /// Resolves an `oauth:` value: the shorthand `discover`, a map with scopes, or
    /// a map with `mode: static` and credentials.
    pub fn from_setting(setting: OAuthSetting) -> (r: Result<Self, String>)
        ensures
            match r {
                Ok(c) => setting.resolved() == Ok::<_, Seq<char>>(c@),
                Err(e) => setting.resolved() == Err::<OAuthView, _>(e@),
            },
    {
        match setting {
            OAuthSetting::Text(s) => {
                if text::str_eq(s.as_str(), "discover") {
                    return Ok(Self::discover());
                }
                let mut m = String::from_str("unknown oauth shorthand `");
                m.append(s.as_str());
                m.append("` (use `discover`, or a full `oauth: { mode: static, ... }` block)");
                Err(m)
            },
            OAuthSetting::Fields(map) => Self::from_map(map),
            _ => Err(
                String::from_str(
                    "oauth: must be either the shorthand `discover` or a map with `mode:`/`scopes:`",
                ),
            ),
        }
    }

    /// Resolves an `oauth:` map; a map without a mode asks for discovery.
    fn from_map(map: OAuthMap) -> (r: Result<Self, String>)
        ensures
            match r {
                Ok(c) => map.resolved() == Ok::<_, Seq<char>>(c@),
                Err(e) => map.resolved() == Err::<OAuthView, _>(e@),
            },
    {
        let mode: String = match map.mode {
            OAuthMode::Absent => String::from_str("discover"),
            OAuthMode::Other(m) => {
                return Err(Self::refuse_mode(m.as_str()));
            },
            OAuthMode::Text(m) => m,
        };
        if text::str_eq(mode.as_str(), "discover") {
            return match map.scopes {
                None => Ok(Self::discover()),
                Some(Ok(scopes)) => Ok(McpOAuthConfig::Discover { scopes }),
                Some(Err(e)) => Err(e),
            };
        }
        proof {
            reveal_strlit("discover");
            reveal_strlit("static");
        }
        if text::str_eq(mode.as_str(), "static") {
            return match map.credentials {
                Ok(c) => Ok(
                    McpOAuthConfig::Static {
                        authorization_url: c.authorization_url,
                        client_id: c.client_id,
                        client_secret: c.client_secret,
                        redirect_uri: c.redirect_uri,
                        scopes: c.scopes,
                        token_url: c.token_url,
                    },
                ),
                Err(e) => Err(e),
            };
        }
        Err(Self::refuse_mode(mode.as_str()))
    }

    /// Why a mode is refused.
    fn refuse_mode(mode: &str) -> (r: String)
        ensures
            r@ == unknown_mode(mode@),
    {
        let mut m = String::from_str("unknown oauth mode `");
        m.append(mode);
        m.append("` (expected `discover` or `static`)");
        m
    }
}

/// How an MCP server is reached. `Sse` is the older protocol revision: a long-lived
/// event stream whose first event announces where messages are posted.
#[derive(Clone, Debug)]
pub enum McpTransport {
    Http { url: String },
    Sse { url: String },
    Stdio { args: Vec<String>, command: String, env: HashMap<String, String> },
}

/// Model of `McpTransport`.
pub enum TransportView {
    Http { url: Seq<char> },
    Sse { url: Seq<char> },
    Stdio { args: Seq<Seq<char>>, command: Seq<char>, env: Map<String, String> },
}

impl View for McpTransport {
    type V = TransportView;

    open spec fn view(&self) -> TransportView {
        match self {
            McpTransport::Http { url } => TransportView::Http { url: url@ },
            McpTransport::Sse { url } => TransportView::Sse { url: url@ },
            McpTransport::Stdio { args, command, env } => TransportView::Stdio {
                args: text::texts(args@),
                command: command@,
                env: env@,
            },
        }
    }
}

impl TransportView {
    /// The server is reached by URL.
    pub open spec fn is_url(self) -> bool {
        self is Http || self is Sse
    }

    /// The native transport for a URL.
    pub open spec fn native(url: Seq<char>) -> TransportView {
        if sse_path(url) {
            TransportView::Sse { url }
        } else {
            TransportView::Http { url }
        }
    }
}

/// Which tools of a server an agent may use: all, or those named in `only`.
#[derive(Clone, Debug)]
pub struct McpToolAccess {
    pub only: Option<Vec<String>>,
    pub server: String,
}

/// Configuration of one MCP server.
#[derive(Clone, Debug)]
pub struct McpServerConfig {
    /// When `true`, an `npx mcp-remote <URL>` entry is left as it is.
    pub no_rewrite: bool,
    pub oauth: Option<McpOAuthConfig>,
    pub transport: McpTransport,
}

/// Model of `McpServerConfig`.
pub struct ServerView {
    pub no_rewrite: bool,
    pub oauth: Option<OAuthView>,
    pub transport: TransportView,
}

/// Model of an optional OAuth configuration.
pub open spec fn oauth_view(o: Option<McpOAuthConfig>) -> Option<OAuthView> {
    match o {
        Some(c) => Some(c@),
        None => None,
    }
}

impl View for McpServerConfig {
    type V = ServerView;

    open spec fn view(&self) -> ServerView {
        ServerView {
            no_rewrite: self.no_rewrite,
            oauth: oauth_view(self.oauth),
            transport: self.transport@,
        }
    }
}

/// An MCP server entry as it was read, before its transport is settled.
#[derive(Debug)]
pub struct RawMcpServer {
    pub args: Vec<String>,
    pub command: Option<String>,
    pub env: HashMap<String, String>,
    pub no_rewrite: bool,
    pub oauth: Option<OAuthSetting>,
    pub transport: Option<String>,
    pub url: Option<String>,
    /// Route a URL through `npx mcp-remote` as a child process.
    pub use_mcp_remote: bool,
}

impl RawMcpServer {
    /// The entry's command line.
    pub open spec fn stdio(self, command: Seq<char>) -> TransportView {
        TransportView::Stdio { args: text::texts(self.args@), command, env: self.env@ }
    }

    /// The transport that the entry declares: the one it names, else the one that
    /// its fields imply.
    pub open spec fn declared_transport(self) -> Resolved<TransportView> {
        let url = text::opt_text(self.url);
        let command = text::opt_text(self.command);
        match self.transport {
            Some(tag) => if tag@ == "http"@ && url is Some && command is None {
                Ok(TransportView::Http { url: url->0 })
            } else if tag@ == "sse"@ && url is Some && command is None {
                Ok(TransportView::Sse { url: url->0 })
            } else if tag@ == "stdio"@ && url is None && command is Some {
                Ok(self.stdio(command->0))
            } else if (tag@ == "http"@ || tag@ == "sse"@) && url is None {
                Err("transport `http`/`sse` requires `url:`"@)
            } else if tag@ == "stdio"@ && url is Some {
                Err("transport `stdio` requires `command:`, not `url:`"@)
            } else {
                Err("unknown transport `"@ + tag@ + "` (expected one of: http, sse, stdio)"@)
            },
            None => match (url, command) {
                (Some(u), None) => Ok(TransportView::native(u)),
                (None, Some(c)) => Ok(self.stdio(c)),
                (Some(_), Some(_)) => Err(
                    "specify either `url:` (http/sse) or `command:` (stdio), not both"@,
                ),
                (None, None) => Err(
                    "MCP server config needs either `url:` (remote http/sse) or `command:` (local stdio)"@,
                ),
            },
        }
    }

    /// The OAuth configuration of an entry that is not routed through `mcp-remote`:
    /// servers reached by URL get discovery unless the entry opts out.
    pub open spec fn declared_oauth(self, transport: TransportView) -> Resolved<Option<OAuthView>> {
        match self.oauth {
            Some(OAuthSetting::Flag(false)) => Ok(None),
            Some(OAuthSetting::Flag(true)) => Ok(Some(OAuthView::discover())),
            Some(v) => match v.resolved() {
                Ok(c) => Ok(Some(c)),
                Err(e) => Err(e),
            },
            None => Ok(
                if transport.is_url() {
                    Some(OAuthView::discover())
                } else {
                    None
                },
            ),
        }
    }

    /// What the entry comes to.
    pub open spec fn resolved(self) -> Resolved<ServerView> {
        match self.declared_transport() {
            Err(e) => Err(e),
            Ok(transport) => if self.use_mcp_remote {
                match transport {
                    TransportView::Http { url } | TransportView::Sse { url } => Ok(
                        ServerView {
                            no_rewrite: true,
                            oauth: None,
                            transport: mcp_remote_shim(url),
                        },
                    ),
                    TransportView::Stdio { .. } => Err(
                        "use_mcp_remote: true only makes sense with `url:` — got a stdio config"@,
                    ),
                }
            } else {
                match self.declared_oauth(transport) {
                    Ok(oauth) => Ok(ServerView { no_rewrite: self.no_rewrite, oauth, transport }),
                    Err(e) => Err(e),
                }
            },
        }
    }
}

/// The child process that stands in for a URL.
pub open spec fn mcp_remote_shim(url: Seq<char>) -> TransportView {
    TransportView::Stdio {
        args: seq!["-y"@, "mcp-remote@latest"@, url],
        command: "npx"@,
        env: Map::empty(),
    }
}

/// The path of a URL: what stands behind the first slash after the scheme, without query
/// and fragment.
pub open spec fn url_path(url: Seq<char>) -> Seq<char> {
    let bare = text::before(text::before(url, '?'), '#');
    text::after(text::after_text(bare, "://"@), '/')
}

/// The path of the URL has a segment `sse`, in whatever case.
pub open spec fn sse_path(url: Seq<char>) -> bool {
    let segments = text::split_at_char(url_path(url), '/');
    exists|i: int|
        0 <= i < segments.len() && text::same_ignoring_case(#[trigger] segments[i], "sse"@)
}

/// The command, without its directory, runs Node packages.
pub open spec fn node_package_runner(command: Seq<char>) -> bool {
    let name = text::after_last(command, '/');
    name == "bunx"@ || name == "npx"@ || name == "pnpm"@ || name == "yarn"@
}

/// The argument names the package `mcp-remote`, perhaps with a scope before it and a
/// version behind it.
pub open spec fn mcp_remote_package(arg: Seq<char>) -> bool {
    ||| text::before(arg, '@') == "mcp-remote"@
    ||| {
        &&& arg.len() > 0 && arg[0] == '@' && text::before(arg, '/') != "@"@
        &&& text::before(text::after(arg, '/'), '@') == "mcp-remote"@
    }
}

/// The text is an `http` or `https` URL.
pub open spec fn web_url(arg: Seq<char>) -> bool {
    text::starts_with_text(arg, "http://"@) || text::starts_with_text(arg, "https://"@)
}

/// The runner takes its subcommand `dlx` before the package.
pub open spec fn takes_dlx(command: Seq<char>) -> bool {
    let name = text::after_last(command, '/');
    name == "pnpm"@ || name == "yarn"@
}

/// The arguments without a first one that is `word`.
pub open spec fn without_first(args: Seq<Seq<char>>, word: Seq<char>) -> Seq<Seq<char>> {
    if args.len() > 0 && args[0] == word {
        args.drop_first()
    } else {
        args
    }
}

/// The URL of a command line that runs `mcp-remote` on a URL and asks nothing else of it:
/// perhaps `dlx`, perhaps `-y`, the package and the URL, in this order.
pub open spec fn plain_shim_url(command: Seq<char>, args: Seq<Seq<char>>) -> Option<Seq<char>> {
    let behind_dlx = if takes_dlx(command) {
        without_first(args, "dlx"@)
    } else {
        args
    };
    let rest = without_first(behind_dlx, "-y"@);
    if node_package_runner(command) && rest.len() == 2 && mcp_remote_package(rest[0]) && web_url(
        rest[1],
    ) {
        Some(rest[1])
    } else {
        None
    }
}

impl ServerView {
    /// The URL of an entry that is the plain `npx mcp-remote <URL>` command line
    /// and may be rewritten.
    pub open spec fn shim_url(self) -> Option<Seq<char>> {
        match self.transport {
            TransportView::Stdio { args, command, env } => if !self.no_rewrite && env.is_empty() {
                plain_shim_url(command, args)
            } else {
                None
            },
            _ => None,
        }
    }

    /// The entry after the rewrite.
    pub open spec fn normalized(self) -> ServerView {
        match self.shim_url() {
            Some(url) => ServerView {
                no_rewrite: self.no_rewrite,
                oauth: match self.oauth {
                    Some(c) => Some(c),
                    None => Some(OAuthView::discover()),
                },
                transport: TransportView::native(url),
            },
            None => self,
        }
    }
}

/// The warning that goes with a rewrite.
pub open spec fn shim_warning(url: Seq<char>) -> Seq<char> {
    if sse_path(url) {
        "MCP server uses the `npx mcp-remote "@ + url
            + "` shim; rewritten to native SSE transport + oauth: discover so Coulisse can mint per-user tokens and skip the Node process. To silence this warning, write the equivalent explicitly:\n\n  transport: sse\n  url: "@
            + url + "\n  oauth:\n    mode: discover\n"@
    } else {
        "MCP server uses the `npx mcp-remote "@ + url
            + "` shim; rewritten to native HTTP transport + oauth: discover so Coulisse can mint per-user tokens instead of letting mcp-remote run its own browser-based OAuth flow at boot. To silence this warning, write the equivalent explicitly:\n\n  transport: http\n  url: "@
            + url + "\n  oauth:\n    mode: discover\n"@
    }
}

/// Whether the URL's path has a segment `sse` (in whatever case), like
/// `https://mcp.atlassian.com/v1/sse`.
pub fn url_path_includes_sse(url: &str) -> (r: bool)
    ensures
        r == sse_path(url@),
{
    let no_query = text::text_before(url, '?');
    let bare = text::text_before(no_query.as_str(), '#');
    let after_scheme = text::after_pattern(bare.as_str(), "://");
    let path = text::text_after(after_scheme.as_str(), '/');
    let segments = text::split(path.as_str(), '/');
    let mut i: usize = 0;
    while i < segments.len()
        invariant
            i <= segments.len(),
            text::texts(segments@) == text::split_at_char(path@, '/'),
            path@ == url_path(url@),
            forall|j: int|
                0 <= j < i ==> !text::same_ignoring_case(
                    #[trigger] text::texts(segments@)[j],
                    "sse"@,
                ),
        decreases segments.len() - i,
    {
        if text::eq_ignore_case(segments[i].as_str(), "sse") {
            assert(text::texts(segments@)[i as int] == segments@[i as int]@);
            return true;
        }
        i = i + 1;
    }
    false
}

/// Whether the command, without its directory, runs Node packages.
pub fn is_node_package_runner(command: &str) -> (r: bool)
    ensures
        r == node_package_runner(command@),
{
    let name = text::text_after_last(command, '/');
    let n: &str = name.as_str();
    text::str_eq(n, "bunx") || text::str_eq(n, "npx") || text::str_eq(n, "pnpm") || text::str_eq(
        n,
        "yarn",
    )
}

/// Whether the argument names `mcp-remote`, `mcp-remote@1.2.3` or a scoped variant
/// (`@scope/mcp-remote@…`); `not-mcp-remote` is none of these.
pub fn is_mcp_remote_package(arg: &str) -> (r: bool)
    ensures
        r == mcp_remote_package(arg@),
{
    let bare = text::text_before(arg, '@');
    if text::str_eq(bare.as_str(), "mcp-remote") {
        return true;
    }
    let scope = text::text_before(arg, '/');
    if !text::begins_with_char(arg, '@') || text::str_eq(scope.as_str(), "@") {
        return false;
    }
    let rest = text::text_after(arg, '/');
    let package = text::text_before(rest.as_str(), '@');
    text::str_eq(package.as_str(), "mcp-remote")
}

/// The URL of a command line that runs `mcp-remote` on a URL and asks nothing else of it.
fn find_plain_url(command: &str, args: &Vec<String>) -> (r: Option<String>)
    ensures
        text::opt_text(r) == plain_shim_url(command@, text::texts(args@)),
{
    let ghost all = text::texts(args@);
    let name = text::text_after_last(command, '/');
    let mut k: usize = 0;
    if (text::str_eq(name.as_str(), "pnpm") || text::str_eq(name.as_str(), "yarn")) && args.len()
        > 0 && text::str_eq(args[0].as_str(), "dlx") {
        k = 1;
    }
    let ghost behind_dlx = if takes_dlx(command@) {
        without_first(all, "dlx"@)
    } else {
        all
    };
    assert(behind_dlx =~= all.skip(k as int)) by {
        if all.len() > 0 {
            assert(all[0] == args@[0]@);
        }
    }
    if k < args.len() && text::str_eq(args[k].as_str(), "-y") {
        assert(behind_dlx[0] == "-y"@);
        k = k + 1;
    }
    let ghost rest = without_first(behind_dlx, "-y"@);
    assert(rest =~= all.skip(k as int)) by {
        if behind_dlx.len() > 0 {
            assert(behind_dlx[0] == args@[all.len() - behind_dlx.len()]@);
        }
    }
    if !is_node_package_runner(command) || args.len() - k != 2 {
        return None;
    }
    assert(rest[0] == args@[k as int]@ && rest[1] == args@[k + 1]@);
    let url: &str = args[k + 1].as_str();
    if is_mcp_remote_package(args[k].as_str()) && (text::starts_with(url, "http://")
        || text::starts_with(url, "https://")) {
        return Some(args[k + 1].clone());
    }
    None
}

impl McpTransport {
    /// The native transport for a URL: event stream where its path says so,
    /// streamable HTTP otherwise.
    pub fn native(url: String) -> (r: Self)
        ensures
            r@ == TransportView::native(url@),
    {
        if url_path_includes_sse(url.as_str()) {
            McpTransport::Sse { url }
        } else {
            McpTransport::Http { url }
        }
    }
}

impl McpServerConfig {
    /// If this entry is the plain `npx mcp-remote@… <URL>` command line, rewrites it
    /// in place to a native transport with OAuth discovery, and returns a warning
    /// that names the equivalent explicit entry. An entry with environment
    /// variables, with any further argument, or with `no_rewrite`, is left alone.
    pub fn normalize_mcp_remote_shim(&mut self) -> (r: Option<String>)
        ensures
            final(self)@ == old(self)@.normalized(),
            text::opt_text(r) == match old(self)@.shim_url() {
                Some(url) => Some(shim_warning(url)),
                None => None,
            },
            r is None ==> *final(self) == *old(self),
    {
        if self.no_rewrite {
            return None;
        }
        let found = match &self.transport {
            McpTransport::Stdio { args, command, env } => {
                if env.is_empty() {
                    find_plain_url(command.as_str(), args)
                } else {
                    None
                }
            },
            _ => None,
        };
        let url = match found {
            Some(url) => url,
            None => {
                return None;
            },
        };
        let mut warning = String::from_str("MCP server uses the `npx mcp-remote ");
        warning.append(url.as_str());
        if url_path_includes_sse(url.as_str()) {
            warning.append(
                "` shim; rewritten to native SSE transport + oauth: discover so Coulisse can mint per-user tokens and skip the Node process. To silence this warning, write the equivalent explicitly:\n\n  transport: sse\n  url: ",
            );
        } else {
            warning.append(
                "` shim; rewritten to native HTTP transport + oauth: discover so Coulisse can mint per-user tokens instead of letting mcp-remote run its own browser-based OAuth flow at boot. To silence this warning, write the equivalent explicitly:\n\n  transport: http\n  url: ",
            );
        }
        warning.append(url.as_str());
        warning.append("\n  oauth:\n    mode: discover\n");
        self.transport = McpTransport::native(url);
        if self.oauth.is_none() {
            self.oauth = Some(McpOAuthConfig::discover());
        }
        Some(warning)
    }
}

impl McpServerConfig {
    /// Settles a server entry: its transport (named, or implied by `url:` or
    /// `command:`), the detour through `mcp-remote`, and OAuth, which servers
    /// reached by URL get by default.
    pub fn from_raw(raw: RawMcpServer) -> (r: Result<Self, String>)
        ensures
            match r {
                Ok(c) => raw.resolved() == Ok::<_, Seq<char>>(c@),
                Err(e) => raw.resolved() == Err::<ServerView, _>(e@),
            },
    {
        let transport = match raw.transport {
            Some(tag) => {
                let t: &str = tag.as_str();
                let http = text::str_eq(t, "http");
                let sse = text::str_eq(t, "sse");
                let stdio = text::str_eq(t, "stdio");
                proof {
                    reveal_strlit("http");
                    reveal_strlit("sse");
                    reveal_strlit("stdio");
                }
                match (raw.url, raw.command) {
                    (Some(url), None) if http => McpTransport::Http { url },
                    (Some(url), None) if sse => McpTransport::Sse { url },
                    (None, Some(command)) if stdio => McpTransport::Stdio {
                        args: raw.args,
                        command,
                        env: raw.env,
                    },
                    (None, _) if http || sse => {
                        return Err(String::from_str("transport `http`/`sse` requires `url:`"));
                    },
                    (Some(_), _) if stdio => {
                        return Err(
                            String::from_str("transport `stdio` requires `command:`, not `url:`"),
                        );
                    },
                    _ => {
                        let mut m = String::from_str("unknown transport `");
                        m.append(t);
                        m.append("` (expected one of: http, sse, stdio)");
                        return Err(m);
                    },
                }
            },
            None => match (raw.url, raw.command) {
                (Some(url), None) => McpTransport::native(url),
                (None, Some(command)) => McpTransport::Stdio {
                    args: raw.args,
                    command,
                    env: raw.env,
                },
                (Some(_), Some(_)) => {
                    return Err(
                        String::from_str(
                            "specify either `url:` (http/sse) or `command:` (stdio), not both",
                        ),
                    );
                },
                (None, None) => {
                    return Err(
                        String::from_str(
                            "MCP server config needs either `url:` (remote http/sse) or `command:` (local stdio)",
                        ),
                    );
                },
            },
        };
        if raw.use_mcp_remote {
            return match transport {
                McpTransport::Http { url } | McpTransport::Sse { url } => {
                    Ok(
                        McpServerConfig {
                            no_rewrite: true,
                            oauth: None,
                            transport: Self::shim_transport(url),
                        },
                    )
                },
                McpTransport::Stdio { .. } => Err(
                    String::from_str(
                        "use_mcp_remote: true only makes sense with `url:` — got a stdio config",
                    ),
                ),
            };
        }
        let is_url = match &transport {
            McpTransport::Stdio { .. } => false,
            _ => true,
        };
        let oauth = match raw.oauth {
            Some(OAuthSetting::Flag(on)) => if on {
                Some(McpOAuthConfig::discover())
            } else {
                None
            },
            Some(setting) => match McpOAuthConfig::from_setting(setting) {
                Ok(c) => Some(c),
                Err(e) => {
                    return Err(e);
                },
            },
            None => if is_url {
                Some(McpOAuthConfig::discover())
            } else {
                None
            },
        };
        Ok(McpServerConfig { no_rewrite: raw.no_rewrite, oauth, transport })
    }

    /// The `npx mcp-remote@latest <url>` child process.
    fn shim_transport(url: String) -> (r: McpTransport)
        ensures
            r@ == mcp_remote_shim(url@),
    {
        let mut args: Vec<String> = Vec::new();
        args.push(String::from_str("-y"));
        args.push(String::from_str("mcp-remote@latest"));
        args.push(url);
        assert(text::texts(args@) =~= seq!["-y"@, "mcp-remote@latest"@, url@]);
        McpTransport::Stdio { args, command: String::from_str("npx"), env: HashMap::new() }
    }
}

/// A rewritten entry is not rewritten again.
pub proof fn law_normalize_idempotent(server: ServerView)
    ensures
        server.normalized().shim_url() is None,
        server.normalized().normalized() == server.normalized(),
{
}

/// The rewrite drops nothing that the entry asked for: each argument of a rewritten entry
/// is the runner's `dlx`, the flag `-y`, the package or the URL that is kept.
pub proof fn law_rewrite_drops_nothing(server: ServerView, i: int)
    requires
        server.shim_url() is Some,
        0 <= i < server.transport->Stdio_args.len(),
    ensures
        server.transport->Stdio_env.is_empty(),
        ({
            let arg = server.transport->Stdio_args[i];
            ||| arg == "dlx"@
            ||| arg == "-y"@
            ||| mcp_remote_package(arg)
            ||| Some(arg) == server.shim_url()
        }),
{
    let args = server.transport->Stdio_args;
    let command = server.transport->Stdio_command;
    let behind_dlx = if takes_dlx(command) {
        without_first(args, "dlx"@)
    } else {
        args
    };
    let rest = without_first(behind_dlx, "-y"@);
    let k = args.len() - rest.len();
    if i >= k {
        assert(rest[i - k] == args[i]);
    }
}

/// `no_rewrite` keeps an entry as it is, whatever it holds.
pub proof fn law_no_rewrite_is_respected(server: ServerView)
    requires
        server.no_rewrite,
    ensures
        server.shim_url() is None,
        server.normalized() == server,
{
}

/// The rewrite never touches an OAuth configuration that the entry came with.
pub proof fn law_normalize_preserves_oauth(server: ServerView)
    requires
        server.oauth is Some,
    ensures
        server.normalized().oauth == server.oauth,
{
}

/// Routing a URL through `mcp-remote` is not undone by the rewrite.
pub proof fn law_mcp_remote_route_survives(raw: RawMcpServer)
    requires
        raw.use_mcp_remote,
        raw.resolved() is Ok,
    ensures
        raw.resolved()->Ok_0.normalized() == raw.resolved()->Ok_0,
        raw.resolved()->Ok_0.oauth is None,
{
}

/// The entry that the warning spells out resolves to what the rewrite produces.
pub proof fn law_warning_spells_equivalent_entry(
    server: ServerView,
    explicit: RawMcpServer,
    setting: OAuthMap,
)
    requires
        server.shim_url() is Some,
        server.oauth is None,
        !server.no_rewrite,
        explicit.transport is Some,
        explicit.transport->0@ == if sse_path(server.shim_url()->0) {
            "sse"@
        } else {
            "http"@
        },
        text::opt_text(explicit.url) == server.shim_url(),
        explicit.command is None,
        explicit.oauth == Some(OAuthSetting::Fields(setting)),
        setting.mode matches OAuthMode::Text(m) && m@ == "discover"@,
        setting.scopes is None,
        !explicit.use_mcp_remote,
        !explicit.no_rewrite,
    ensures
        explicit.resolved() == Ok::<_, Seq<char>>(server.normalized()),
{
    reveal_strlit("http");
    reveal_strlit("sse");
    reveal_strlit("stdio");
}

/// A server declared by its URL alone gets the transport that its path implies, and
/// OAuth discovery.
pub proof fn law_url_alone_is_enough(raw: RawMcpServer)
    requires
        raw.url is Some,
        raw.command is None,
        raw.transport is None,
        raw.oauth is None,
        !raw.use_mcp_remote,
    ensures
        raw.resolved() == Ok::<_, Seq<char>>(
            (ServerView {
                no_rewrite: raw.no_rewrite,
                oauth: Some(OAuthView::discover()),
                transport: TransportView::native(raw.url->0@),
            }),
        ),
{
}

/// A transport that is named is the one that is used, with the URL, or with the command,
/// arguments and environment, that the entry gives.
pub proof fn law_named_transport_is_used(raw: RawMcpServer)
    requires
        !raw.use_mcp_remote,
        raw.resolved() is Ok,
    ensures
        ({
            let server = raw.resolved()->Ok_0;
            &&& server.no_rewrite == raw.no_rewrite
            &&& server.transport.is_url() <==> raw.url is Some
            &&& server.transport is Stdio <==> raw.command is Some
            &&& (raw.transport matches Some(tag) ==> {
                &&& tag@ == "http"@ <==> server.transport is Http
                &&& tag@ == "sse"@ <==> server.transport is Sse
                &&& tag@ == "stdio"@ <==> server.transport is Stdio
            })
            &&& match server.transport {
                TransportView::Http { url } => raw.url is Some && url == raw.url->0@,
                TransportView::Sse { url } => raw.url is Some && url == raw.url->0@,
                TransportView::Stdio { args, command, env } => raw.command is Some && command
                    == raw.command->0@ && env == raw.env@ && args == text::texts(raw.args@),
            }
        }),
{
    reveal_strlit("http");
    reveal_strlit("sse");
    reveal_strlit("stdio");
    assert("http"@.len() == 4 && "sse"@.len() == 3 && "stdio"@.len() == 5);
}

/// An entry needs a URL or a command, and not both.
pub proof fn law_entry_needs_one_way(raw: RawMcpServer)
    ensures
        raw.url is Some && raw.command is Some ==> raw.resolved() is Err,
        raw.url is None && raw.command is None ==> raw.resolved() is Err,
        raw.transport is None && (raw.url is Some <==> raw.command is None)
            ==> raw.declared_transport() is Ok,
{
    reveal_strlit("http");
    reveal_strlit("sse");
    reveal_strlit("stdio");
    assert("http"@.len() == 4 && "sse"@.len() == 3 && "stdio"@.len() == 5);
}

/// OAuth is as the entry says: off, discovered, or configured; where it says nothing, a
/// server that is reached by URL is discovered and a local one has none.
pub proof fn law_oauth_is_as_declared(raw: RawMcpServer)
    requires
        !raw.use_mcp_remote,
        raw.declared_transport() is Ok,
    ensures
        match raw.oauth {
            None => raw.resolved() matches Ok(server) && (server.oauth == if raw.url is Some {
                Some(OAuthView::Discover { scopes: Seq::empty() })
            } else {
                None
            }),
            Some(OAuthSetting::Flag(on)) => raw.resolved() matches Ok(server) && (server.oauth
                == if on {
                Some(OAuthView::Discover { scopes: Seq::empty() })
            } else {
                None
            }),
            Some(setting) => match setting.resolved() {
                Ok(oauth) => raw.resolved() matches Ok(server) && server.oauth == Some(oauth),
                Err(e) => raw.resolved() == Err::<ServerView, _>(e),
            },
        },
{
}

/// A URL that is routed through `mcp-remote` becomes its command line, whatever transport
/// it was given under.
pub proof fn law_routed_url_is_the_last_argument(raw: RawMcpServer)
    requires
        raw.use_mcp_remote,
    ensures
        match raw.declared_transport() {
            Ok(TransportView::Stdio { .. }) => raw.resolved() is Err,
            Ok(_) => raw.resolved() matches Ok(server) && (server.transport matches
                TransportView::Stdio { args, command, env } && args.len() > 0 && args.last()
                == raw.url->0@ && command == "npx"@),
            Err(e) => raw.resolved() == Err::<ServerView, _>(e),
        },
{
}

/// Discovery keeps the scopes that are listed, and credentials are kept one by one; no other
/// mode is known.
pub proof fn law_oauth_map_is_kept(map: OAuthMap)
    ensures
        match map.mode {
            OAuthMode::Absent => map.resolved() == map.discovered(),
            OAuthMode::Other(_) => map.resolved() is Err,
            OAuthMode::Text(m) => {
                &&& m@ == "discover"@ ==> map.resolved() == map.discovered()
                &&& m@ == "static"@ ==> map.resolved() == map.registered()
                &&& m@ != "discover"@ && m@ != "static"@ ==> map.resolved() is Err
            },
        },
        map.discovered() matches Ok(oauth) ==> oauth is Discover && (match map.scopes {
            Some(Ok(listed)) => oauth.scopes() == text::texts(listed@),
            Some(Err(_)) => false,
            None => oauth.scopes().len() == 0,
        }),
        (map.scopes matches Some(Err(e))) ==> map.discovered() is Err,
        map.registered() is Ok <==> map.credentials is Ok,
        map.registered() matches Ok(oauth) ==> {
            let c = map.credentials->Ok_0;
            &&& oauth is Static
            &&& oauth->authorization_url == c.authorization_url@
            &&& oauth->client_id == c.client_id@
            &&& oauth->client_secret == c.client_secret@
            &&& oauth->redirect_uri == c.redirect_uri@
            &&& oauth->token_url == c.token_url@
            &&& oauth.scopes() == text::texts(c.scopes@)
        },
{
    reveal_strlit("discover");
    reveal_strlit("static");
    assert("discover"@.len() == 8 && "static"@.len() == 6);
}

/// The scopes that are asked for are the configured ones where there are any, then the
/// advertised ones, and never none.
pub proof fn law_configured_scopes_come_first(
    configured: Seq<Seq<char>>,
    discovered: Seq<Seq<char>>,
)
    ensures
        configured.len() > 0 ==> effective_scopes(configured, discovered) == configured,
        configured.len() == 0 && discovered.len() > 0 ==> effective_scopes(configured, discovered)
            == discovered,
        effective_scopes(configured, discovered).len() > 0,
{
}

/// The native transport of a URL keeps it, as an event stream exactly where its path says so.
pub proof fn law_native_transport_keeps_the_url(url: Seq<char>)
    ensures
        match TransportView::native(url) {
            TransportView::Http { url: u } => u == url && !sse_path(url),
            TransportView::Sse { url: u } => u == url && sse_path(url),
            TransportView::Stdio { .. } => false,
        },
{
}

/// A plain command line that runs `mcp-remote` on a URL is rewritten to that URL, with or
/// without the flag that answers yes, and gets discovery where it had no OAuth.
pub proof fn law_plain_shim_is_rewritten(
    server: ServerView,
    package: Seq<char>,
    url: Seq<char>,
    command: Seq<char>,
)
    requires
        !server.no_rewrite,
        node_package_runner(command),
        mcp_remote_package(package),
        web_url(url),
        package != "-y"@ && package != "dlx"@,
        server.transport is Stdio,
        server.transport->Stdio_env.is_empty(),
        server.transport->Stdio_command == command,
        server.transport->Stdio_args == seq![package, url] || server.transport->Stdio_args == seq![
            "-y"@,
            package,
            url,
        ],
    ensures
        server.shim_url() == Some(url),
        server.normalized().transport == TransportView::native(url),
        server.oauth is None ==> server.normalized().oauth == Some(
            (OAuthView::Discover { scopes: Seq::empty() }),
        ),
        server.normalized().no_rewrite == server.no_rewrite,
{
    reveal_strlit("-y");
    reveal_strlit("dlx");
    assert("-y"@.len() == 2 && "dlx"@.len() == 3);
    let args = server.transport->Stdio_args;
    if args == seq!["-y"@, package, url] {
        assert(args.drop_first() =~= seq![package, url]);
    }
}

/// An entry that runs something else is left as it is.
pub proof fn law_other_commands_are_left_alone(server: ServerView)
    requires
        server.transport is Stdio ==> !node_package_runner(server.transport->Stdio_command)
            || !server.transport->Stdio_env.is_empty(),
    ensures
        server.normalized() == server,
{
}

/// The warning of a rewrite names the URL.
pub proof fn law_warning_names_the_url(url: Seq<char>)
    ensures
        text::contains_text(shim_warning(url), url),
{
    let lead = "MCP server uses the `npx mcp-remote "@;
    let said = shim_warning(url);
    text::lemma_middle_stands(lead, url, said.skip((lead + url).len() as int));
    assert(said =~= lead + url + said.skip((lead + url).len() as int));
}

/// The path of a URL is what stands behind its host; the query and the fragment do not come
/// into it, and neither does the host.
pub proof fn law_path_is_behind_the_host(
    scheme: Seq<char>,
    host: Seq<char>,
    path: Seq<char>,
    query: Seq<char>,
)
    requires
        !scheme.contains(':') && !scheme.contains('?') && !scheme.contains('#'),
        !host.contains('/') && !host.contains('?') && !host.contains('#'),
        !path.contains('?') && !path.contains('#'),
    ensures
        url_path(scheme + "://"@ + host + seq!['/'] + path) == path,
        url_path(scheme + "://"@ + host + seq!['/'] + path + seq!['?'] + query) == path,
{
    reveal_strlit("://");
    let bare = scheme + "://"@ + host + seq!['/'] + path;
    assert forall|i: int| 0 <= i < bare.len() implies bare[i] != '?' && bare[i] != '#' by {
        if i < scheme.len() {
            assert(scheme.contains(scheme[i]));
        } else if i < scheme.len() + 3 {
        } else if i < scheme.len() + 3 + host.len() {
            assert(host.contains(host[i - scheme.len() - 3]));
        } else if i > scheme.len() + 3 + host.len() {
            assert(path.contains(path[i - scheme.len() - 4 - host.len()]));
        }
    }
    let asked = bare + seq!['?'] + query;
    text::lemma_before_len_unique(bare, '?', bare.len() as int);
    text::lemma_before_len_unique(bare, '#', bare.len() as int);
    text::lemma_before_len_unique(asked, '?', bare.len() as int);
    assert(text::before(bare, '?') =~= bare);
    assert(text::before(asked, '?') =~= bare);
    assert(text::before(bare, '#') =~= bare);
    let rest = host + seq!['/'] + path;
    let n = scheme.len() as int;
    assert(bare.subrange(n, n + 3) =~= "://"@);
    assert(text::stands_at(bare, "://"@, n));
    text::law_index_is_the_first(bare, "://"@, n);
    let i = text::index_of_text(bare, "://"@)->0;
    if i < n {
        assert(bare.subrange(i, i + 3)[0] == ':');
        assert(scheme[i] == ':');
    }
    assert(text::after_text(bare, "://"@) =~= rest);
    assert forall|j: int| 0 <= j < host.len() implies rest[j] != '/' by {
        assert(host.contains(host[j]));
    }
    text::lemma_before_len_unique(rest, '/', host.len() as int);
    assert(text::after(rest, '/') =~= path);
}

/// An event stream is announced by a segment of the path that reads `sse`, in whatever case,
/// and by nothing else.
pub proof fn law_sse_is_a_segment_of_the_path(url: Seq<char>)
    ensures
        sse_path(url) <==> exists|i: int|
            0 <= i < text::split_at_char(url_path(url), '/').len() && {
                let s = #[trigger] text::split_at_char(url_path(url), '/')[i];
                s.len() == 3 && (s[0] == 's' || s[0] == 'S') && (s[1] == 's' || s[1] == 'S') && (
                s[2] == 'e' || s[2] == 'E')
            },
{
    reveal_strlit("sse");
    let segments = text::split_at_char(url_path(url), '/');
    assert forall|s: Seq<char>| #[trigger]
        text::same_ignoring_case(s, "sse"@) <==> s.len() == 3 && (s[0] == 's' || s[0] == 'S') && (
        s[1] == 's' || s[1] == 'S') && (s[2] == 'e' || s[2] == 'E') by {
        if text::same_ignoring_case(s, "sse"@) {
            assert(text::ascii_lower(s[0]) == text::ascii_lower("sse"@[0]));
            assert(text::ascii_lower(s[1]) == text::ascii_lower("sse"@[1]));
            assert(text::ascii_lower(s[2]) == text::ascii_lower("sse"@[2]));
        }
    }
    if sse_path(url) {
        let i = choose|i: int|
            0 <= i < segments.len() && text::same_ignoring_case(#[trigger] segments[i], "sse"@);
        assert(text::same_ignoring_case(segments[i], "sse"@));
    }
    if exists|i: int|
        0 <= i < segments.len() && {
            let s = #[trigger] segments[i];
            s.len() == 3 && (s[0] == 's' || s[0] == 'S') && (s[1] == 's' || s[1] == 'S') && (s[2]
                == 'e' || s[2] == 'E')
        } {
        let i = choose|i: int|
            0 <= i < segments.len() && {
                let s = #[trigger] segments[i];
                s.len() == 3 && (s[0] == 's' || s[0] == 'S') && (s[1] == 's' || s[1] == 'S') && (
                s[2] == 'e' || s[2] == 'E')
            };
        assert(text::same_ignoring_case(segments[i], "sse"@));
    }
}

/// A runner is known by its name, in whatever directory it lies.
pub proof fn law_runner_is_known_by_name(directory: Seq<char>, name: Seq<char>)
    requires
        !name.contains('/'),
    ensures
        node_package_runner(directory + seq!['/'] + name) <==> node_package_runner(name),
        node_package_runner(name) <==> name == "bunx"@ || name == "npx"@ || name == "pnpm"@ || name
            == "yarn"@,
        takes_dlx(directory + seq!['/'] + name) <==> name == "pnpm"@ || name == "yarn"@,
{
    let whole = directory + seq!['/'] + name;
    text::law_after_last_is_behind_the_last(name, '/');
    text::law_after_last_is_behind_the_last(whole, '/');
    let tail = text::after_last(whole, '/');
    let at = directory.len() as int;
    assert(whole[at] == '/');
    assert(whole.contains('/'));
    let shown = seq!['/'] + tail;
    assert(whole.skip(whole.len() - shown.len()) == shown);
    let from = whole.len() - tail.len();
    assert(whole.skip(whole.len() - shown.len())[0] == '/');
    assert(whole[from - 1] == '/');
    if from - 1 > at {
        assert(name[from - 1 - at - 1] == '/');
        assert(name.contains('/'));
    }
    if from - 1 < at {
        assert(whole.skip(whole.len() - shown.len())[at - (from - 1)] == '/');
        assert(tail[at - from] == '/');
        assert(tail.contains('/'));
    }
    assert(tail =~= name) by {
        assert forall|i: int| 0 <= i < tail.len() implies tail[i] == name[i] by {
            assert(whole.skip(whole.len() - shown.len())[i + 1] == shown[i + 1]);
        }
    }
}

/// The package is known with a version behind it and with a scope before it.
pub proof fn law_package_is_known(version: Seq<char>, scope: Seq<char>)
    requires
        scope.len() > 0,
        !scope.contains('/'),
    ensures
        mcp_remote_package("mcp-remote"@),
        mcp_remote_package("mcp-remote"@ + seq!['@'] + version),
        mcp_remote_package(seq!['@'] + scope + seq!['/'] + "mcp-remote"@),
        mcp_remote_package(seq!['@'] + scope + seq!['/'] + "mcp-remote"@ + seq!['@'] + version),
{
    reveal_strlit("mcp-remote");
    reveal_strlit("@");
    let plain = "mcp-remote"@;
    let versioned = plain + seq!['@'] + version;
    text::lemma_before_len_unique(plain, '@', 10);
    text::lemma_before_len_unique(versioned, '@', 10);
    assert(text::before(plain, '@') =~= plain);
    assert(text::before(versioned, '@') =~= plain);
    let lead = seq!['@'] + scope;
    assert forall|i: int| 0 <= i < lead.len() implies lead[i] != '/' by {
        if i > 0 {
            assert(scope.contains(scope[i - 1]));
        }
    }
    let scoped = lead + seq!['/'] + plain;
    let both = scoped + seq!['@'] + version;
    text::lemma_before_len_unique(scoped, '/', lead.len() as int);
    text::lemma_before_len_unique(both, '/', lead.len() as int);
    assert(text::before(scoped, '/') =~= lead);
    assert(text::before(both, '/') =~= lead);
    assert(text::after(scoped, '/') =~= plain);
    assert(text::after(both, '/') =~= versioned);
    assert(lead.len() > 1 && "@"@.len() == 1);
}

/// An entry whose transport does not go with its fields is told what is missing, or which
/// transport is not known.
pub proof fn law_refused_transport_says_why(raw: RawMcpServer, tag: Seq<char>)
    requires
        raw.transport is Some,
        raw.transport->0@ == tag,
    ensures
        tag == "http"@ || tag == "sse"@ ==> (raw.url is None <==> raw.declared_transport() == Err::<
            TransportView,
            _,
        >("transport `http`/`sse` requires `url:`"@)),
        tag == "stdio"@ && raw.url is Some ==> raw.declared_transport() == Err::<
            TransportView,
            _,
        >("transport `stdio` requires `command:`, not `url:`"@),
        tag != "http"@ && tag != "sse"@ && tag != "stdio"@ ==> (raw.declared_transport() matches
            Err(why) && text::contains_text(why, tag)),
{
    reveal_strlit("http");
    reveal_strlit("sse");
    reveal_strlit("stdio");
    assert("http"@.len() == 4 && "sse"@.len() == 3 && "stdio"@.len() == 5);
    reveal_strlit("transport `http`/`sse` requires `url:`");
    reveal_strlit("unknown transport `");
    let lead = "unknown transport `"@;
    let behind = "` (expected one of: http, sse, stdio)"@;
    text::lemma_says_one(lead, tag, behind);
    assert((lead + tag + behind)[0] == 'u');
    assert("transport `http`/`sse` requires `url:`"@[0] == 't');
}

/// A mode or a shorthand that is not known is named in the refusal.
pub proof fn law_refused_mode_is_named(mode: Seq<char>, word: String)
    ensures
        text::contains_text(unknown_mode(mode), mode),
        word@ == "discover"@ ==> OAuthSetting::Text(word).resolved() == Ok::<_, Seq<char>>(
            (OAuthView::Discover { scopes: Seq::empty() }),
        ),
        word@ != "discover"@ ==> (OAuthSetting::Text(word).resolved() matches Err(why)
            && text::contains_text(why, word@)),
        OAuthSetting::Other.resolved() is Err,
{
    text::lemma_says_one(
        "unknown oauth mode `"@,
        mode,
        "` (expected `discover` or `static`)"@,
    );
    text::lemma_says_one(
        "unknown oauth shorthand `"@,
        word@,
        "` (use `discover`, or a full `oauth: { mode: static, ... }` block)"@,
    );
}

} // verus!
