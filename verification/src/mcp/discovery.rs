//! OAuth metadata discovery.
//!
//! The MCP origin may publish which authorization servers it trusts and which scopes
//! it accepts (RFC 9728); the first authorization server, or else the origin itself,
//! publishes the endpoints (RFC 8414).
use vstd::prelude::*;

use crate::mcp::error::McpError;
use crate::text;
use crate::urls;

verus! {

/// What an authorization server publishes about itself.
#[derive(Debug)]
pub struct AuthMetadata {
    pub authorization_endpoint: String,
    /// Where clients register themselves; without it there is no dynamic registration.
    pub registration_endpoint: Option<String>,
    /// Scopes that the server advertises.
    pub scopes_supported: Vec<String>,
    pub token_endpoint: String,
    /// Client authentication methods that the token endpoint accepts; empty where the
    /// server does not say.
    pub token_endpoint_auth_methods_supported: Vec<String>,
}

/// Model of `AuthMetadata`.
pub struct MetadataView {
    pub authorization_endpoint: Seq<char>,
    pub registration_endpoint: Option<Seq<char>>,
    pub scopes_supported: Seq<Seq<char>>,
    pub token_endpoint: Seq<char>,
    pub token_endpoint_auth_methods_supported: Seq<Seq<char>>,
}

impl View for AuthMetadata {
    type V = MetadataView;

    open spec fn view(&self) -> MetadataView {
        MetadataView {
            authorization_endpoint: self.authorization_endpoint@,
            registration_endpoint: text::opt_text(self.registration_endpoint),
            scopes_supported: text::texts(self.scopes_supported@),
            token_endpoint: self.token_endpoint@,
            token_endpoint_auth_methods_supported: text::texts(
                self.token_endpoint_auth_methods_supported@,
            ),
        }
    }
}

/// What an MCP origin publishes about the servers that guard it. Its scopes are those
/// that the resource accepts, a subset of what the authorization server advertises.
#[derive(Debug)]
pub struct ProtectedResourceMetadata {
    pub authorization_servers: Vec<String>,
    pub scopes_supported: Vec<String>,
}

/// Outcome of an HTTP request for a document.
#[derive(Debug)]
pub enum Fetched<T> {
    /// The request did not come through; the error's text.
    Failed(String),
    /// The reply had no success status; its code, its full status text and its body.
    Refused { body: String, status: u16, status_text: String },
    /// The reply had a success status; the document, or why it could not be read.
    Answered(Result<T, String>),
}

/// `scheme://host`, with the port where one is given.
pub open spec fn origin(
    scheme: Seq<char>,
    host: Seq<char>,
    port: Option<u16>,
) -> Seq<char> {
    match port {
        Some(p) => scheme + "://"@ + host + ":"@ + text::decimal(p as nat),
        None => scheme + "://"@ + host,
    }
}

/// The origin of a URL; `None` where the text is no URL or has no host.
pub open spec fn url_origin(url: Seq<char>) -> Option<Seq<char>> {
    match urls::url_parts(url) {
        Some((scheme, Some(host), port)) => Some(origin(scheme, host, port)),
        _ => None,
    }
}

/// Composes an origin from its parts.
pub fn format_origin(scheme: &str, host: &str, port: Option<u16>) -> (r: String)
    ensures
        r@ == origin(scheme@, host@, port),
{
    let mut s = String::from_str(scheme);
    s.append("://");
    s.append(host);
    if let Some(p) = port {
        s.append(":");
        s.append(text::format_u64(p as u64).as_str());
    }
    s
}

/// The origin of a URL: path, query and fragment dropped.
pub fn origin_of(url: &str) -> (r: Result<String, McpError>)
    ensures
        match r {
            Ok(s) => url_origin(url@) == Some(s@),
            Err(e) => url_origin(url@) is None && e is DiscoveryInvalidUrl
                && e->DiscoveryInvalidUrl_url@ == url@,
        },
{
    match urls::parse_url(url) {
        Some((scheme, Some(host), port)) => Ok(
            format_origin(scheme.as_str(), host.as_str(), port),
        ),
        _ => Err(McpError::DiscoveryInvalidUrl { url: url.to_owned() }),
    }
}

/// Where an MCP origin publishes its protected-resource metadata.
pub fn protected_resource_url(mcp_origin: &str) -> (r: String)
    ensures
        r@ == mcp_origin@ + "/.well-known/oauth-protected-resource"@,
{
    let mut s = String::from_str(mcp_origin);
    s.append("/.well-known/oauth-protected-resource");
    s
}

/// Where an authorization server publishes its metadata.
pub open spec fn server_metadata_url(issuer: Seq<char>) -> Seq<char> {
    text::trim_end_char_of(issuer, '/') + "/.well-known/oauth-authorization-server"@
}

/// Where an authorization server publishes its metadata.
pub fn authorization_server_url(issuer: &str) -> (r: String)
    ensures
        r@ == server_metadata_url(issuer@),
{
    let mut s = text::trim_end_char(issuer, '/');
    s.append("/.well-known/oauth-authorization-server");
    s
}

/// The protected-resource metadata in a reply. Where there is none that can be read,
/// the MCP origin is taken to be its own authorization server.
pub fn resource_metadata(reply: Fetched<ProtectedResourceMetadata>) -> (r: Option<
    ProtectedResourceMetadata,
>)
    ensures
        r == match reply {
            Fetched::Answered(Ok(m)) => Some(m),
            _ => None,
        },
{
    match reply {
        Fetched::Answered(Ok(m)) => Some(m),
        _ => None,
    }
}

/// The authorization server for an MCP origin: the first that the origin lists, else
/// the origin itself.
pub open spec fn issuer_for(
    resource: Option<ProtectedResourceMetadata>,
    mcp_origin: Seq<char>,
) -> Seq<char> {
    match resource {
        Some(m) => if m.authorization_servers@.len() > 0 {
            m.authorization_servers@[0]@
        } else {
            mcp_origin
        },
        None => mcp_origin,
    }
}

/// The authorization server for an MCP origin.
pub fn issuer(resource: &Option<ProtectedResourceMetadata>, mcp_origin: &str) -> (r: String)
    ensures
        r@ == issuer_for(*resource, mcp_origin@),
{
    if let Some(m) = resource {
        if m.authorization_servers.len() > 0 {
            return m.authorization_servers[0].clone();
        }
    }
    mcp_origin.to_owned()
}

/// The server's metadata, with the scopes of the resource in place of its own where
/// the resource lists some.
pub open spec fn discovered(
    server: MetadataView,
    resource: Option<ProtectedResourceMetadata>,
) -> MetadataView {
    match resource {
        Some(m) => if m.scopes_supported@.len() > 0 {
            MetadataView { scopes_supported: text::texts(m.scopes_supported@), ..server }
        } else {
            server
        },
        None => server,
    }
}

/// Settles discovery: what the authorization server at `url` replied, and what the
/// resource said before.
pub fn fetch(
    url: &str,
    resource: Option<ProtectedResourceMetadata>,
    reply: Fetched<AuthMetadata>,
) -> (r: Result<AuthMetadata, McpError>)
    ensures
        match reply {
            Fetched::Answered(Ok(server)) => r is Ok && r->Ok_0@ == discovered(server@, resource),
            Fetched::Refused { status, .. } => r is Err && r->Err_0 is DiscoveryStatus
                && r->Err_0->DiscoveryStatus_status == status && r->Err_0->DiscoveryStatus_url@
                == url@,
            Fetched::Failed(e) => r is Err && r->Err_0 is Discovery && r->Err_0->Discovery_source
                == e && r->Err_0->Discovery_url@ == url@,
            Fetched::Answered(Err(e)) => r is Err && r->Err_0 is Discovery
                && r->Err_0->Discovery_source == e && r->Err_0->Discovery_url@ == url@,
        },
{
    match reply {
        Fetched::Answered(Ok(server)) => {
            let mut metadata = server;
            if let Some(m) = resource {
                if m.scopes_supported.len() > 0 {
                    metadata.scopes_supported = m.scopes_supported;
                }
            }
            Ok(metadata)
        },
        Fetched::Refused { status, .. } => Err(
            McpError::DiscoveryStatus { status, url: url.to_owned() },
        ),
        Fetched::Failed(source) | Fetched::Answered(Err(source)) => Err(
            McpError::Discovery { source, url: url.to_owned() },
        ),
    }
}

/// A server that publishes no protected-resource metadata is its own authorization
/// server, and keeps its own scopes.
pub proof fn law_origin_is_fallback_issuer(mcp_origin: Seq<char>, server: MetadataView)
    ensures
        issuer_for(None, mcp_origin) == mcp_origin,
        discovered(server, None) == server,
{
}

/// The scopes of the resource, where it lists some, replace those of the server.
pub proof fn law_resource_scopes_replace(
    server: MetadataView,
    resource: ProtectedResourceMetadata,
)
    requires
        resource.scopes_supported@.len() > 0,
    ensures
        discovered(server, Some(resource)).scopes_supported == text::texts(
            resource.scopes_supported@,
        ),
        discovered(server, Some(resource)).token_endpoint == server.token_endpoint,
        discovered(server, Some(resource)).authorization_endpoint == server.authorization_endpoint,
{
}

/// The first authorization server that the resource lists is asked, and the resource itself
/// where it lists none.
pub proof fn law_first_listed_server_is_asked(
    resource: ProtectedResourceMetadata,
    mcp_origin: Seq<char>,
)
    ensures
        resource.authorization_servers@.len() > 0 ==> issuer_for(Some(resource), mcp_origin)
            == resource.authorization_servers@[0]@,
        resource.authorization_servers@.len() == 0 ==> issuer_for(Some(resource), mcp_origin)
            == mcp_origin,
{
}

/// What the resource says changes the scopes alone, and only where it lists some.
pub proof fn law_resource_changes_scopes_alone(
    server: MetadataView,
    resource: ProtectedResourceMetadata,
)
    ensures
        ({
            let found = discovered(server, Some(resource));
            &&& found.authorization_endpoint == server.authorization_endpoint
            &&& found.token_endpoint == server.token_endpoint
            &&& found.registration_endpoint == server.registration_endpoint
            &&& found.token_endpoint_auth_methods_supported
                == server.token_endpoint_auth_methods_supported
            &&& resource.scopes_supported@.len() == 0 ==> found == server
        }),
{
}

/// An origin is the scheme and the host, with the port behind it where one is given; path,
/// query and fragment do not come into it.
pub proof fn law_origin_has_scheme_host_and_port(
    url: Seq<char>,
    scheme: Seq<char>,
    host: Seq<char>,
    port: Option<u16>,
)
    requires
        urls::url_parts(url) == Some((scheme, Some(host), port)),
    ensures
        url_origin(url) matches Some(o) && {
            &&& text::starts_with_text(o, scheme + "://"@ + host)
            &&& match port {
                Some(p) => text::ends_with_text(o, ":"@ + text::decimal(p as nat)) && o.len()
                    == (scheme + "://"@ + host + ":"@ + text::decimal(p as nat)).len(),
                None => o == scheme + "://"@ + host,
            }
        },
{
    let o = origin(scheme, host, port);
    let front = scheme + "://"@ + host;
    assert(o.take(front.len() as int) =~= front);
    if port is Some {
        let tail = ":"@ + text::decimal(port->0 as nat);
        assert(o.skip(o.len() - tail.len()) =~= tail);
    }
}

/// A slash at the end of an issuer does not matter to where its metadata is.
pub proof fn law_issuer_slash_does_not_matter(issuer: Seq<char>)
    ensures
        server_metadata_url(issuer.push('/')) == server_metadata_url(issuer),
        issuer.len() > 0 && issuer.last() != '/' ==> text::starts_with_text(
            server_metadata_url(issuer),
            issuer,
        ),
{
    text::law_trim_end_char_drops_only_it(issuer, '/');
    if issuer.len() > 0 && issuer.last() != '/' {
        assert(server_metadata_url(issuer).take(issuer.len() as int) =~= issuer);
    }
}

} // verus!
