//! Dynamic client registration (RFC 7591).
//!
//! Run once per server with `oauth: discover`, when the first user connects. The
//! registration belongs to this instance and is shared by all of its users.
use vstd::prelude::*;

use crate::mcp::discovery::{AuthMetadata, Fetched};
use crate::mcp::error::McpError;
use crate::text;

verus! {

/// What the provider issued.
#[derive(Debug)]
pub struct ClientRegistration {
    pub client_id: String,
    pub client_secret: Option<String>,
    /// Scopes that the provider says this client may request; `None` where it does not
    /// say.
    pub scopes: Option<Vec<String>>,
}

/// What the client says about itself.
#[derive(Debug)]
pub struct RegistrationRequest {
    pub client_name: String,
    pub client_uri: String,
    pub grant_types: Vec<String>,
    pub redirect_uris: Vec<String>,
    pub response_types: Vec<String>,
    pub token_endpoint_auth_method: String,
}

/// The provider's answer; `scope` lists scopes with white space between them.
#[derive(Debug)]
pub struct RegistrationResponse {
    pub client_id: String,
    pub client_secret: Option<String>,
    pub scope: Option<String>,
}

/// The authentication method to register with: none (a public client with PKCE) where
/// the server accepts it or does not say, else the secret in the request's body.
pub open spec fn auth_method(supported: Seq<Seq<char>>) -> Seq<char> {
    if supported.contains("none"@) || supported.len() == 0 {
        "none"@
    } else {
        "client_secret_post"@
    }
}

/// The authentication method to register with.
pub fn pick_auth_method(supported: &Vec<String>) -> (r: &'static str)
    ensures
        r@ == auth_method(text::texts(supported@)),
{
    if supported.len() == 0 || text::list_contains(supported, "none") {
        "none"
    } else {
        "client_secret_post"
    }
}

/// The endpoint to register at and what to send there.
pub fn request(server_name: &str, metadata: &AuthMetadata, redirect_uri: &str) -> (r: Result<
    (String, RegistrationRequest),
    McpError,
>)
    ensures
        match metadata.registration_endpoint {
            Some(endpoint) => r is Ok && {
                let (to, body) = r->Ok_0;
                &&& to == endpoint
                &&& body.client_name@ == "Coulisse"@
                &&& body.client_uri@ == "https://github.com/Almaju/coulisse"@
                &&& text::texts(body.grant_types@) == seq!["authorization_code"@, "refresh_token"@]
                &&& text::texts(body.redirect_uris@) == seq![redirect_uri@]
                &&& text::texts(body.response_types@) == seq!["code"@]
                &&& body.token_endpoint_auth_method@ == auth_method(
                    metadata@.token_endpoint_auth_methods_supported,
                )
            },
            None => r is Err && r->Err_0 is DcrUnsupported && r->Err_0->DcrUnsupported_server@
                == server_name@,
        },
{
    match &metadata.registration_endpoint {
        Some(endpoint) => {
            let mut grant_types: Vec<String> = Vec::new();
            grant_types.push(String::from_str("authorization_code"));
            grant_types.push(String::from_str("refresh_token"));
            let mut redirect_uris: Vec<String> = Vec::new();
            redirect_uris.push(String::from_str(redirect_uri));
            let mut response_types: Vec<String> = Vec::new();
            response_types.push(String::from_str("code"));
            let method: &str = pick_auth_method(&metadata.token_endpoint_auth_methods_supported);
            assert(text::texts(grant_types@) =~= seq!["authorization_code"@, "refresh_token"@]);
            assert(text::texts(redirect_uris@) =~= seq![redirect_uri@]);
            assert(text::texts(response_types@) =~= seq!["code"@]);
            Ok(
                (
                    endpoint.clone(),
                    RegistrationRequest {
                        client_name: String::from_str("Coulisse"),
                        client_uri: String::from_str("https://github.com/Almaju/coulisse"),
                        grant_types,
                        redirect_uris,
                        response_types,
                        token_endpoint_auth_method: String::from_str(method),
                    },
                ),
            )
        },
        None => Err(McpError::DcrUnsupported { server: server_name.to_owned() }),
    }
}

/// What the answer registers: the credentials as they are, the scopes word by word.
pub fn registration(answer: RegistrationResponse) -> (r: ClientRegistration)
    ensures
        r.client_id == answer.client_id,
        r.client_secret == answer.client_secret,
        match answer.scope {
            Some(s) => r.scopes is Some && text::texts(r.scopes->0@) == text::words(s@),
            None => r.scopes is None,
        },
{
    let scopes = match answer.scope {
        Some(s) => Some(text::split_whitespace(s.as_str())),
        None => None,
    };
    ClientRegistration { client_id: answer.client_id, client_secret: answer.client_secret, scopes }
}

/// Settles a registration from the provider's reply.
pub fn register(server_name: &str, reply: Fetched<RegistrationResponse>) -> (r: Result<
    ClientRegistration,
    McpError,
>)
    ensures
        match reply {
            Fetched::Answered(Ok(answer)) => r is Ok && {
                let c = r->Ok_0;
                &&& c.client_id == answer.client_id
                &&& c.client_secret == answer.client_secret
                &&& match answer.scope {
                    Some(s) => c.scopes is Some && text::texts(c.scopes->0@) == text::words(s@),
                    None => c.scopes is None,
                }
            },
            Fetched::Refused { body, status_text, .. } => r is Err
                && r->Err_0 is DynamicClientRegistration
                && r->Err_0->DynamicClientRegistration_server@ == server_name@
                && r->Err_0->DynamicClientRegistration_source@ == "HTTP "@ + status_text@ + ": "@
                + body@,
            Fetched::Failed(e) => r is Err && r->Err_0 is DynamicClientRegistration
                && r->Err_0->DynamicClientRegistration_server@ == server_name@
                && r->Err_0->DynamicClientRegistration_source == e,
            Fetched::Answered(Err(e)) => r is Err && r->Err_0 is DynamicClientRegistration
                && r->Err_0->DynamicClientRegistration_server@ == server_name@
                && r->Err_0->DynamicClientRegistration_source == e,
        },
{
    let source = match reply {
        Fetched::Answered(Ok(answer)) => {
            return Ok(registration(answer));
        },
        Fetched::Refused { body, status_text, .. } => {
            let mut m = String::from_str("HTTP ");
            m.append(status_text.as_str());
            m.append(": ");
            m.append(body.as_str());
            m
        },
        Fetched::Failed(e) | Fetched::Answered(Err(e)) => e,
    };
    Err(McpError::DynamicClientRegistration { server: server_name.to_owned(), source })
}

/// A client registers without a secret exactly where the server takes one without, or does
/// not say what it takes.
pub proof fn law_public_client_where_it_is_taken(supported: Seq<Seq<char>>)
    ensures
        auth_method(supported) == "none"@ <==> supported.len() == 0 || exists|i: int|
            0 <= i < supported.len() && #[trigger] supported[i] == "none"@,
        auth_method(supported) == "none"@ || auth_method(supported) == "client_secret_post"@,
{
    reveal_strlit("none");
    reveal_strlit("client_secret_post");
    assert("none"@.len() != "client_secret_post"@.len());
}

} // verus!
