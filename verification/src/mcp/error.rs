//! What can go wrong with an MCP server.
use vstd::prelude::*;

use crate::text;

verus! {

/// An error of the MCP layer. `source` is the text of the underlying error.
#[derive(Debug)]
pub enum McpError {
    ClientMetadata { server: String, source: String },
    Connect { server: String, source: String },
    DcrMissingBaseUrl { server: String },
    DcrUnsupported { server: String },
    Decrypt { server: String, source: String },
    Discovery { source: String, url: String },
    DiscoveryInvalidUrl { url: String },
    DiscoveryStatus { status: u16, url: String },
    DynamicClientRegistration { server: String, source: String },
    Encrypt { server: String, source: String },
    ListTools { server: String, source: String },
    NotConnected { server: String, user_id: String },
    OAuthNotConfigured { server: String },
    ServerNotConfigured { agent: String, server: String },
    Spawn { server: String, source: String },
    Database { source: String },
    StateExpired,
    StateInvalid { source: String },
    StateKeyInvalid { source: String },
    TokenExchange { server: String, source: String },
    ToolNotFound { agent: String, server: String, tool: String },
    VaultKeyInvalid,
}

/// The error says that a secret of `server` could not be sealed.
pub open spec fn is_encrypt_error(e: McpError, server: Seq<char>) -> bool {
    e is Encrypt && e->Encrypt_server@ == server && e->Encrypt_source@ == "aead::Error"@
}

/// The error says that a secret of `server` could not be opened.
pub open spec fn is_decrypt_error(e: McpError, server: Seq<char>) -> bool {
    e is Decrypt && e->Decrypt_server@ == server && e->Decrypt_source@ == "aead::Error"@
}

impl McpError {
    /// The message of the error.
    pub open spec fn message(self) -> Seq<char> {
        match self {
            McpError::ClientMetadata { server, source } =>
                "cached OAuth client metadata for server '"@ + server@ + "' is not valid JSON: "@
                    + source@,
            McpError::Connect { server, source } => "failed to connect to MCP server '"@ + server@
                + "': "@ + source@,
            McpError::DcrMissingBaseUrl { server } =>
                "Coulisse is not configured with a public_base_url, and Dynamic Client Registration for MCP server '"@
                    + server@
                    + "' needs one. Set `public_base_url:` at the top level of coulisse.yaml (e.g. `http://localhost:8421` for local use, or your deployed origin)."@,
            McpError::DcrUnsupported { server } => "MCP server '"@ + server@
                + "' uses oauth: discover, but its authorization metadata omits the registration_endpoint required for Dynamic Client Registration. Switch this server's YAML to oauth: static with pre-registered credentials."@,
            McpError::Decrypt { server, source } => "failed to decrypt token for server '"@
                + server@ + "': "@ + source@,
            McpError::Discovery { source, url } => "failed to fetch OAuth metadata from "@ + url@
                + ": "@ + source@,
            McpError::DiscoveryInvalidUrl { url } => "malformed MCP server URL '"@ + url@
                + "' (cannot derive origin for OAuth discovery)"@,
            McpError::DiscoveryStatus { status, url } => "OAuth discovery at "@ + url@
                + " returned HTTP "@ + text::decimal(status as nat),
            McpError::DynamicClientRegistration { server, source } =>
                "Dynamic Client Registration failed for server '"@ + server@ + "': "@ + source@,
            McpError::Encrypt { server, source } => "failed to encrypt token for server '"@
                + server@ + "': "@ + source@,
            McpError::ListTools { server, source } => "failed to list tools for MCP server '"@
                + server@ + "': "@ + source@,
            McpError::NotConnected { server, user_id } => "user '"@ + user_id@
                + "' has not connected their '"@ + server@ + "' account"@,
            McpError::OAuthNotConfigured { server } => "MCP server '"@ + server@
                + "' has no oauth block configured"@,
            McpError::ServerNotConfigured { agent, server } => "agent '"@ + agent@
                + "' references MCP server '"@ + server@ + "' which is not configured"@,
            McpError::Spawn { server, source } => "failed to spawn MCP server '"@ + server@ + "': "@
                + source@,
            McpError::Database { source } => "database error for MCP vault: "@ + source@,
            McpError::StateExpired => "state token has expired"@,
            McpError::StateInvalid { source } => "invalid state token: "@ + source@,
            McpError::StateKeyInvalid { source } =>
                "hmac key is invalid base64 or wrong length (must be 32 bytes base64-encoded): "@
                    + source@,
            McpError::TokenExchange { server, source } => "token exchange failed for server '"@
                + server@ + "': "@ + source@,
            McpError::ToolNotFound { agent, server, tool } => "MCP server '"@ + server@
                + "' does not expose tool '"@ + tool@ + "' (agent '"@ + agent@ + "')"@,
            McpError::VaultKeyInvalid =>
                "vault key is invalid base64 or wrong length (must be 32 bytes base64-encoded)"@,
        }
    }

    /// The message of the error.
    pub fn to_text(&self) -> (r: String)
        ensures
            r@ == self.message(),
    {
        proof {
            reveal_strlit("");
        }
        match self {
            McpError::ClientMetadata { server, source } => about(
                "cached OAuth client metadata for server '",
                server,
                "' is not valid JSON: ",
                source,
            ),
            McpError::Connect { server, source } => about(
                "failed to connect to MCP server '",
                server,
                "': ",
                source,
            ),
            McpError::DcrMissingBaseUrl { server } => about(
                "Coulisse is not configured with a public_base_url, and Dynamic Client Registration for MCP server '",
                server,
                "' needs one. Set `public_base_url:` at the top level of coulisse.yaml (e.g. `http://localhost:8421` for local use, or your deployed origin).",
                "",
            ),
            McpError::DcrUnsupported { server } => about(
                "MCP server '",
                server,
                "' uses oauth: discover, but its authorization metadata omits the registration_endpoint required for Dynamic Client Registration. Switch this server's YAML to oauth: static with pre-registered credentials.",
                "",
            ),
            McpError::Decrypt { server, source } => about(
                "failed to decrypt token for server '",
                server,
                "': ",
                source,
            ),
            McpError::Discovery { source, url } => about(
                "failed to fetch OAuth metadata from ",
                url,
                ": ",
                source,
            ),
            McpError::DiscoveryInvalidUrl { url } => about(
                "malformed MCP server URL '",
                url,
                "' (cannot derive origin for OAuth discovery)",
                "",
            ),
            McpError::DiscoveryStatus { status, url } => {
                let code = text::format_u64(*status as u64);
                about("OAuth discovery at ", url, " returned HTTP ", code.as_str())
            },
            McpError::DynamicClientRegistration { server, source } => about(
                "Dynamic Client Registration failed for server '",
                server,
                "': ",
                source,
            ),
            McpError::Encrypt { server, source } => about(
                "failed to encrypt token for server '",
                server,
                "': ",
                source,
            ),
            McpError::ListTools { server, source } => about(
                "failed to list tools for MCP server '",
                server,
                "': ",
                source,
            ),
            McpError::NotConnected { server, user_id } => {
                let mut m = about("user '", user_id, "' has not connected their '", server);
                m.append("' account");
                m
            },
            McpError::OAuthNotConfigured { server } => about(
                "MCP server '",
                server,
                "' has no oauth block configured",
                "",
            ),
            McpError::ServerNotConfigured { agent, server } => {
                let mut m = about("agent '", agent, "' references MCP server '", server);
                m.append("' which is not configured");
                m
            },
            McpError::Spawn { server, source } => about(
                "failed to spawn MCP server '",
                server,
                "': ",
                source,
            ),
            McpError::Database { source } => about(
                "database error for MCP vault: ",
                source,
                "",
                "",
            ),
            McpError::StateExpired => about("state token has expired", "", "", ""),
            McpError::StateInvalid { source } => about("invalid state token: ", source, "", ""),
            McpError::StateKeyInvalid { source } => about(
                "hmac key is invalid base64 or wrong length (must be 32 bytes base64-encoded): ",
                source,
                "",
                "",
            ),
            McpError::TokenExchange { server, source } => about(
                "token exchange failed for server '",
                server,
                "': ",
                source,
            ),
            McpError::ToolNotFound { agent, server, tool } => {
                let mut m = about("MCP server '", server, "' does not expose tool '", tool);
                m.append("' (agent '");
                m.append(agent);
                m.append("')");
                m
            },
            McpError::VaultKeyInvalid => about(
                "vault key is invalid base64 or wrong length (must be 32 bytes base64-encoded)",
                "",
                "",
                "",
            ),
        }
    }
}

/// The four texts, one behind the other.
fn about(a: &str, b: &str, c: &str, d: &str) -> (r: String)
    ensures
        r@ == a@ + b@ + c@ + d@,
        d@.len() == 0 ==> r@ == a@ + b@ + c@,
        c@.len() == 0 && d@.len() == 0 ==> r@ == a@ + b@,
        b@.len() == 0 && c@.len() == 0 && d@.len() == 0 ==> r@ == a@,
{
    let mut m = String::from_str(a);
    m.append(b);
    m.append(c);
    m.append(d);
    m
}

/// The four shapes of a refused token in the text of an error: `rmcp` names a
/// bearer challenge or a missing scope, and reports other answers by their status.
pub open spec fn is_auth_failure(debug_text: Seq<char>) -> bool {
    ||| text::contains_text(debug_text, "AuthRequired"@)
    ||| text::contains_text(debug_text, "InsufficientScope"@)
    ||| text::contains_text(debug_text, "HTTP 401"@)
    ||| text::contains_text(debug_text, "HTTP 403"@)
}

/// Whether an error, by its debug text, says that the MCP endpoint refused the token.
pub fn looks_like_auth_failure(debug_text: &str) -> (r: bool)
    ensures
        r == is_auth_failure(debug_text@),
{
    text::contains(debug_text, "AuthRequired") || text::contains(debug_text, "InsufficientScope")
        || text::contains(debug_text, "HTTP 401") || text::contains(debug_text, "HTTP 403")
}

impl McpError {
    /// One of the error's texts says that the MCP endpoint refused the token.
    pub open spec fn tells_auth_failure(self) -> bool {
        match self {
            McpError::ClientMetadata { server, source }
            | McpError::Connect { server, source }
            | McpError::Decrypt { server, source }
            | McpError::DynamicClientRegistration { server, source }
            | McpError::Encrypt { server, source }
            | McpError::ListTools { server, source }
            | McpError::Spawn { server, source }
            | McpError::TokenExchange { server, source } => is_auth_failure(server@)
                || is_auth_failure(source@),
            McpError::DcrMissingBaseUrl { server }
            | McpError::DcrUnsupported { server }
            | McpError::OAuthNotConfigured { server } => is_auth_failure(server@),
            McpError::Discovery { source, url } => is_auth_failure(source@) || is_auth_failure(
                url@,
            ),
            McpError::DiscoveryInvalidUrl { url } => is_auth_failure(url@),
            McpError::DiscoveryStatus { url, .. } => is_auth_failure(url@),
            McpError::NotConnected { server, user_id } => is_auth_failure(server@)
                || is_auth_failure(user_id@),
            McpError::ServerNotConfigured { agent, server } => is_auth_failure(agent@)
                || is_auth_failure(server@),
            McpError::Database { source }
            | McpError::StateInvalid { source }
            | McpError::StateKeyInvalid { source } => is_auth_failure(source@),
            McpError::ToolNotFound { agent, server, tool } => is_auth_failure(agent@)
                || is_auth_failure(server@) || is_auth_failure(tool@),
            McpError::StateExpired | McpError::VaultKeyInvalid => false,
        }
    }

    /// Whether one of the error's texts says that the MCP endpoint refused the token.
    pub fn looks_like_auth_failure(&self) -> (r: bool)
        ensures
            r == self.tells_auth_failure(),
    {
        match self {
            McpError::ClientMetadata { server, source }
            | McpError::Connect { server, source }
            | McpError::Decrypt { server, source }
            | McpError::DynamicClientRegistration { server, source }
            | McpError::Encrypt { server, source }
            | McpError::ListTools { server, source }
            | McpError::Spawn { server, source }
            | McpError::TokenExchange { server, source } => looks_like_auth_failure(server)
                || looks_like_auth_failure(source),
            McpError::DcrMissingBaseUrl { server }
            | McpError::DcrUnsupported { server }
            | McpError::OAuthNotConfigured { server } => looks_like_auth_failure(server),
            McpError::Discovery { source, url } => looks_like_auth_failure(source)
                || looks_like_auth_failure(url),
            McpError::DiscoveryInvalidUrl { url } => looks_like_auth_failure(url),
            McpError::DiscoveryStatus { url, .. } => looks_like_auth_failure(url),
            McpError::NotConnected { server, user_id } => looks_like_auth_failure(server)
                || looks_like_auth_failure(user_id),
            McpError::ServerNotConfigured { agent, server } => looks_like_auth_failure(agent)
                || looks_like_auth_failure(server),
            McpError::Database { source }
            | McpError::StateInvalid { source }
            | McpError::StateKeyInvalid { source } => looks_like_auth_failure(source),
            McpError::ToolNotFound { agent, server, tool } => looks_like_auth_failure(agent)
                || looks_like_auth_failure(server) || looks_like_auth_failure(tool),
            McpError::StateExpired | McpError::VaultKeyInvalid => false,
        }
    }
}

/// A message says what the error carries: the server, URL, agent, tool or user that it is
/// about, and the text of what lies under it.
pub proof fn law_message_says_what_it_is_about(e: McpError)
    ensures
        match e {
            McpError::ClientMetadata { server, source }
            | McpError::Connect { server, source }
            | McpError::Decrypt { server, source }
            | McpError::DynamicClientRegistration { server, source }
            | McpError::Encrypt { server, source }
            | McpError::ListTools { server, source }
            | McpError::Spawn { server, source }
            | McpError::TokenExchange { server, source } => text::contains_text(
                e.message(),
                server@,
            ) && text::ends_with_text(e.message(), source@),
            McpError::DcrMissingBaseUrl { server }
            | McpError::DcrUnsupported { server }
            | McpError::OAuthNotConfigured { server } => text::contains_text(e.message(), server@),
            McpError::Discovery { source, url } => text::contains_text(e.message(), url@)
                && text::ends_with_text(e.message(), source@),
            McpError::DiscoveryInvalidUrl { url } => text::contains_text(e.message(), url@),
            McpError::DiscoveryStatus { status, url } => text::contains_text(e.message(), url@)
                && text::ends_with_text(e.message(), text::decimal(status as nat)),
            McpError::NotConnected { server, user_id } => text::contains_text(e.message(), server@)
                && text::contains_text(e.message(), user_id@),
            McpError::ServerNotConfigured { agent, server } => text::contains_text(
                e.message(),
                agent@,
            ) && text::contains_text(e.message(), server@),
            McpError::Database { source }
            | McpError::StateInvalid { source }
            | McpError::StateKeyInvalid { source } => text::ends_with_text(e.message(), source@),
            McpError::ToolNotFound { agent, server, tool } => text::contains_text(
                e.message(),
                server@,
            ) && text::contains_text(e.message(), tool@) && text::contains_text(
                e.message(),
                agent@,
            ),
            McpError::StateExpired | McpError::VaultKeyInvalid => e.message().len() > 0,
        },
{
    match e {
        McpError::ClientMetadata { server, source } => {
            text::lemma_says_two(
                "cached OAuth client metadata for server '"@,
                server@,
                "' is not valid JSON: "@,
                source@,
                Seq::empty(),
            );
        },
        McpError::Connect { server, source } => {
            text::lemma_says_two(
                "failed to connect to MCP server '"@,
                server@,
                "': "@,
                source@,
                Seq::empty(),
            );
        },
        McpError::Decrypt { server, source } => {
            text::lemma_says_two(
                "failed to decrypt token for server '"@,
                server@,
                "': "@,
                source@,
                Seq::empty(),
            );
        },
        McpError::DynamicClientRegistration { server, source } => {
            text::lemma_says_two(
                "Dynamic Client Registration failed for server '"@,
                server@,
                "': "@,
                source@,
                Seq::empty(),
            );
        },
        McpError::Encrypt { server, source } => {
            text::lemma_says_two(
                "failed to encrypt token for server '"@,
                server@,
                "': "@,
                source@,
                Seq::empty(),
            );
        },
        McpError::ListTools { server, source } => {
            text::lemma_says_two(
                "failed to list tools for MCP server '"@,
                server@,
                "': "@,
                source@,
                Seq::empty(),
            );
        },
        McpError::Spawn { server, source } => {
            text::lemma_says_two(
                "failed to spawn MCP server '"@,
                server@,
                "': "@,
                source@,
                Seq::empty(),
            );
        },
        McpError::TokenExchange { server, source } => {
            text::lemma_says_two(
                "token exchange failed for server '"@,
                server@,
                "': "@,
                source@,
                Seq::empty(),
            );
        },
        McpError::DcrMissingBaseUrl { server } => {
            let lead =
                "Coulisse is not configured with a public_base_url, and Dynamic Client Registration for MCP server '"@;
            let said = e.message();
            text::lemma_says_one(lead, server@, said.skip((lead + server@).len() as int));
            assert(said =~= lead + server@ + said.skip((lead + server@).len() as int));
        },
        McpError::DcrUnsupported { server } | McpError::OAuthNotConfigured { server } => {
            let lead = "MCP server '"@;
            let said = e.message();
            text::lemma_says_one(lead, server@, said.skip((lead + server@).len() as int));
            assert(said =~= lead + server@ + said.skip((lead + server@).len() as int));
        },
        McpError::Discovery { source, url } => {
            text::lemma_says_two(
                "failed to fetch OAuth metadata from "@,
                url@,
                ": "@,
                source@,
                Seq::empty(),
            );
        },
        McpError::DiscoveryInvalidUrl { url } => {
            text::lemma_says_one(
                "malformed MCP server URL '"@,
                url@,
                "' (cannot derive origin for OAuth discovery)"@,
            );
        },
        McpError::DiscoveryStatus { status, url } => {
            text::lemma_says_two(
                "OAuth discovery at "@,
                url@,
                " returned HTTP "@,
                text::decimal(status as nat),
                Seq::empty(),
            );
        },
        McpError::NotConnected { server, user_id } => {
            text::lemma_says_two(
                "user '"@,
                user_id@,
                "' has not connected their '"@,
                server@,
                "' account"@,
            );
        },
        McpError::ServerNotConfigured { agent, server } => {
            text::lemma_says_two(
                "agent '"@,
                agent@,
                "' references MCP server '"@,
                server@,
                "' which is not configured"@,
            );
        },
        McpError::Database { source } => {
            text::lemma_says_one("database error for MCP vault: "@, source@, Seq::empty());
        },
        McpError::StateInvalid { source } => {
            text::lemma_says_one("invalid state token: "@, source@, Seq::empty());
        },
        McpError::StateKeyInvalid { source } => {
            text::lemma_says_one(
                "hmac key is invalid base64 or wrong length (must be 32 bytes base64-encoded): "@,
                source@,
                Seq::empty(),
            );
        },
        McpError::ToolNotFound { agent, server, tool } => {
            let front = "MCP server '"@ + server@ + "' does not expose tool '"@;
            let rest = "' (agent '"@ + agent@ + "')"@;
            text::lemma_says_two(
                "MCP server '"@,
                server@,
                "' does not expose tool '"@,
                tool@,
                rest,
            );
            assert(e.message() =~= front + tool@ + rest);
            let lead = front + tool@ + "' (agent '"@;
            text::lemma_says_one(lead, agent@, "')"@);
            assert(e.message() =~= lead + agent@ + "')"@);
        },
        McpError::StateExpired => {
            reveal_strlit("state token has expired");
        },
        McpError::VaultKeyInvalid => {
            reveal_strlit(
                "vault key is invalid base64 or wrong length (must be 32 bytes base64-encoded)",
            );
        },
    }
}

/// A refused token is recognised by any of the four marks, wherever it stands, and by
/// nothing else.
pub proof fn law_refused_token_is_recognised(before: Seq<char>, behind: Seq<char>, said: Seq<char>)
    ensures
        is_auth_failure(before + "AuthRequired"@ + behind),
        is_auth_failure(before + "InsufficientScope"@ + behind),
        is_auth_failure(before + "HTTP 401"@ + behind),
        is_auth_failure(before + "HTTP 403"@ + behind),
        is_auth_failure(said) ==> text::contains_text(said, "AuthRequired"@)
            || text::contains_text(said, "InsufficientScope"@) || text::contains_text(
            said,
            "HTTP 401"@,
        ) || text::contains_text(said, "HTTP 403"@),
{
    text::lemma_middle_stands(before, "AuthRequired"@, behind);
    text::lemma_middle_stands(before, "InsufficientScope"@, behind);
    text::lemma_middle_stands(before, "HTTP 401"@, behind);
    text::lemma_middle_stands(before, "HTTP 403"@, behind);
}

/// An error tells of a refused token where the text under it does; one that carries no text
/// never does.
pub proof fn law_failure_under_an_error_is_told(server: String, source: String)
    requires
        !is_auth_failure(server@),
    ensures
        (McpError::Connect { server, source }).tells_auth_failure() <==> is_auth_failure(source@),
        (McpError::ListTools { server, source }).tells_auth_failure() <==> is_auth_failure(
            source@,
        ),
        (McpError::Spawn { server, source }).tells_auth_failure() <==> is_auth_failure(source@),
        (McpError::TokenExchange { server, source }).tells_auth_failure() <==> is_auth_failure(
            source@,
        ),
        (McpError::Discovery { source, url: server }).tells_auth_failure() <==> is_auth_failure(
            source@,
        ),
        (McpError::StateInvalid { source }).tells_auth_failure() <==> is_auth_failure(source@),
        !McpError::StateExpired.tells_auth_failure(),
        !McpError::VaultKeyInvalid.tells_auth_failure(),
        !(McpError::OAuthNotConfigured { server }).tells_auth_failure(),
{
}

/// A secret that could not be sealed or opened is reported for its server.
pub proof fn law_cipher_error_names_the_server(e: McpError, server: Seq<char>)
    ensures
        is_encrypt_error(e, server) ==> (e matches McpError::Encrypt { server: s, .. } && s@
            == server),
        is_decrypt_error(e, server) ==> (e matches McpError::Decrypt { server: s, .. } && s@
            == server),
{
}

} // verus!
