//! The token vault: tokens and client secrets, sealed before they are stored.
use vstd::prelude::*;
use vstd::utf8::encode_utf8;

use crate::crypto::{self, SecretKey};
use crate::mcp::error::{is_decrypt_error, is_encrypt_error, McpError};
use crate::mcp::oauth::key_from_base64;
use crate::text;

verus! {

/// Token pair of one user at one server.
#[derive(Debug)]
pub struct StoredToken {
    pub access_token: String,
    pub expires_at: Option<i64>,
    pub refresh_token: Option<String>,
}

/// Client registration at one server, shared by all users that authorize against it.
/// A public client has no secret.
#[derive(Debug)]
pub struct StoredClient {
    pub client_id: String,
    pub client_secret: Option<String>,
    pub metadata_json: String,
    pub redirect_uri: String,
}

/// Row of a token pair as it is stored: the secrets sealed. Server and user are its key.
#[derive(Debug)]
pub struct TokenRow {
    pub access_token_enc: Vec<u8>,
    pub expires_at: Option<i64>,
    pub refresh_token_enc: Option<Vec<u8>>,
    pub server_name: String,
    pub user_id: String,
}

/// Row of a client registration as it is stored: the secret sealed. The server is its key.
#[derive(Debug)]
pub struct ClientRow {
    pub client_id: String,
    pub client_secret_enc: Option<Vec<u8>>,
    pub metadata_json: String,
    pub redirect_uri: String,
    pub server_name: String,
}

/// Upgrades the vault's tables from one version to the next.
pub struct VaultMigrator;

/// Statement that brings the tables from version 0.1.0 to 0.2.0.
pub open spec fn upgrade_0_1_0() -> Seq<char> {
    "CREATE TABLE IF NOT EXISTS mcp_oauth_clients (client_id         TEXT    NOT NULL,client_secret_enc BLOB,metadata_json     TEXT    NOT NULL,redirect_uri      TEXT    NOT NULL,registered_at     INTEGER NOT NULL,server_name       TEXT    NOT NULL PRIMARY KEY)"@
}

impl VaultMigrator {
    /// The statement that upgrades the tables from a version.
    pub fn upgrade_from(&self, from_version: &str) -> (r: &'static str)
        requires
            from_version@ == "0.1.0"@,
        ensures
            r@ == upgrade_0_1_0(),
    {
        "CREATE TABLE IF NOT EXISTS mcp_oauth_clients (client_id         TEXT    NOT NULL,client_secret_enc BLOB,metadata_json     TEXT    NOT NULL,redirect_uri      TEXT    NOT NULL,registered_at     INTEGER NOT NULL,server_name       TEXT    NOT NULL PRIMARY KEY)"
    }
}

/// Seals what is stored, and opens what is read.
pub struct TokenVault {
    key: SecretKey,
}

impl View for TokenVault {
    type V = Seq<u8>;

    closed spec fn view(&self) -> Seq<u8> {
        self.key@
    }
}

/// `blob` is stored for the secret `s`: it is sealed, and opens to `s`.
pub open spec fn stands_for(key: Seq<u8>, s: Seq<char>, blob: Seq<u8>) -> bool {
    crypto::is_sealed(key, encode_utf8(s), blob) && crypto::opened_text(key, blob) == Some(s)
}

/// `blob` is stored for the optional secret `s`.
pub open spec fn opt_stands_for(key: Seq<u8>, s: Option<Seq<char>>, blob: Option<Vec<u8>>) -> bool {
    match (s, blob) {
        (Some(s), Some(b)) => stands_for(key, s, b@),
        (None, None) => true,
        _ => false,
    }
}

/// What is read from an optional stored secret; the outer `None` where it does not
/// open.
pub open spec fn opt_opened(key: Seq<u8>, blob: Option<Vec<u8>>) -> Option<Option<Seq<char>>> {
    match blob {
        Some(b) => match crypto::opened_text(key, b@) {
            Some(s) => Some(Some(s)),
            None => None,
        },
        None => Some(None),
    }
}

/// The secret is within the cipher's limit.
pub open spec fn fits_vault(s: Seq<char>) -> bool {
    encode_utf8(s).len() <= crypto::MAX_PLAINTEXT
}

/// The optional secret is within the cipher's limit.
pub open spec fn opt_fits_vault(s: Option<Seq<char>>) -> bool {
    s is Some ==> fits_vault(s->0)
}

impl TokenVault {
    /// Builds the vault from a base64-encoded key of 32 bytes.
    pub fn new(key_b64: &str) -> (r: Result<Self, McpError>)
        ensures
            match r {
                Ok(v) => key_from_base64(key_b64@) == Some(v@),
                Err(e) => key_from_base64(key_b64@) is None && e is VaultKeyInvalid,
            },
    {
        let trimmed = text::trim(key_b64);
        match crypto::base64_decode(trimmed.as_str()) {
            Ok(bytes) => match SecretKey::from_bytes(bytes) {
                Some(key) => Ok(TokenVault { key }),
                None => Err(McpError::VaultKeyInvalid),
            },
            Err(_) => Err(McpError::VaultKeyInvalid),
        }
    }

    /// Seals a secret of `server`: nonce, ciphertext and tag. Only a secret above the
    /// cipher's limit is refused.
    pub fn encrypt(&self, server: &str, plaintext: &str) -> (r: Result<Vec<u8>, McpError>)
        ensures
            match r {
                Ok(b) => fits_vault(plaintext@) && stands_for(self@, plaintext@, b@),
                Err(e) => !fits_vault(plaintext@) && is_encrypt_error(e, server@),
            },
    {
        proof {
            crypto::lemma_utf8_round_trip(plaintext@);
        }
        match self.key.seal(plaintext.as_bytes()) {
            Some(blob) => Ok(blob),
            None => Err(
                McpError::Encrypt {
                    server: server.to_owned(),
                    source: String::from_str("aead::Error"),
                },
            ),
        }
    }

    /// Opens a secret of `server`. A blob that is too short, does not open, or does not
    /// hold text is refused.
    pub fn decrypt(&self, server: &str, blob: &[u8]) -> (r: Result<String, McpError>)
        ensures
            match r {
                Ok(s) => crypto::opened_text(self@, blob@) == Some(s@),
                Err(e) => crypto::opened_text(self@, blob@) is None && is_decrypt_error(e, server@),
            },
    {
        if let Some(plaintext) = self.key.open(blob) {
            if let Some(s) = crypto::utf8_text(plaintext) {
                return Ok(s);
            }
        }
        Err(
            McpError::Decrypt {
                server: server.to_owned(),
                source: String::from_str("aead::Error"),
            },
        )
    }

    /// Seals an optional secret.
    fn encrypt_opt(&self, server: &str, plaintext: Option<&str>) -> (r: Result<
        Option<Vec<u8>>,
        McpError,
    >)
        ensures
            match r {
                Ok(b) => opt_fits_vault(text::opt_str(plaintext)) && opt_stands_for(
                    self@,
                    text::opt_str(plaintext),
                    b,
                ),
                Err(e) => !opt_fits_vault(text::opt_str(plaintext)) && is_encrypt_error(e, server@),
            },
    {
        match plaintext {
            Some(s) => match self.encrypt(server, s) {
                Ok(b) => Ok(Some(b)),
                Err(e) => Err(e),
            },
            None => Ok(None),
        }
    }

    /// Opens an optional secret.
    fn decrypt_opt(&self, server: &str, blob: &Option<Vec<u8>>) -> (r: Result<
        Option<String>,
        McpError,
    >)
        ensures
            match r {
                Ok(s) => opt_opened(self@, *blob) == Some(text::opt_text(s)),
                Err(e) => opt_opened(self@, *blob) is None && is_decrypt_error(e, server@),
            },
    {
        match blob {
            Some(b) => match self.decrypt(server, b.as_slice()) {
                Ok(s) => Ok(Some(s)),
                Err(e) => Err(e),
            },
            None => Ok(None),
        }
    }

    /// The row to store for a user's token pair of `server_name`.
    pub fn upsert_token(
        &self,
        server_name: &str,
        user_id: &str,
        access_token: &str,
        expires_at: Option<i64>,
        refresh_token: Option<&str>,
    ) -> (r: Result<TokenRow, McpError>)
        ensures
            r is Ok <==> fits_vault(access_token@) && opt_fits_vault(
                text::opt_str(refresh_token),
            ),
            match r {
                Ok(row) => {
                    &&& stands_for(self@, access_token@, row.access_token_enc@)
                    &&& row.expires_at == expires_at
                    &&& opt_stands_for(
                        self@,
                        text::opt_str(refresh_token),
                        row.refresh_token_enc,
                    )
                    &&& row.server_name@ == server_name@
                    &&& row.user_id@ == user_id@
                },
                Err(e) => is_encrypt_error(e, server_name@),
            },
    {
        let access_token_enc = match self.encrypt(server_name, access_token) {
            Ok(b) => b,
            Err(e) => {
                return Err(e);
            },
        };
        let refresh_token_enc = match self.encrypt_opt(server_name, refresh_token) {
            Ok(b) => b,
            Err(e) => {
                return Err(e);
            },
        };
        Ok(
            TokenRow {
                access_token_enc,
                expires_at,
                refresh_token_enc,
                server_name: server_name.to_owned(),
                user_id: user_id.to_owned(),
            },
        )
    }

    /// The token pair in a stored row; `None` where there is no row.
    pub fn get_token(&self, server_name: &str, row: Option<TokenRow>) -> (r: Result<
        Option<StoredToken>,
        McpError,
    >)
        ensures
            match row {
                None => r == Ok::<Option<StoredToken>, McpError>(None),
                Some(row) => {
                    let access = crypto::opened_text(self@, row.access_token_enc@);
                    let refresh = opt_opened(self@, row.refresh_token_enc);
                    match r {
                        Ok(Some(t)) => {
                            &&& access == Some(t.access_token@)
                            &&& t.expires_at == row.expires_at
                            &&& refresh == Some(text::opt_text(t.refresh_token))
                        },
                        Ok(None) => false,
                        Err(e) => (access is None || refresh is None) && is_decrypt_error(e, server_name@),
                    }
                },
            },
    {
        let row = match row {
            Some(row) => row,
            None => {
                return Ok(None);
            },
        };
        let access_token = match self.decrypt(server_name, row.access_token_enc.as_slice()) {
            Ok(s) => s,
            Err(e) => {
                return Err(e);
            },
        };
        let refresh_token = match self.decrypt_opt(server_name, &row.refresh_token_enc) {
            Ok(s) => s,
            Err(e) => {
                return Err(e);
            },
        };
        Ok(Some(StoredToken { access_token, expires_at: row.expires_at, refresh_token }))
    }

    /// The row to store for a client registration at `server_name`. Only the secret is
    /// sealed: the rest can be discovered from the provider.
    pub fn upsert_client(
        &self,
        server_name: &str,
        client_id: &str,
        client_secret: Option<&str>,
        metadata_json: &str,
        redirect_uri: &str,
    ) -> (r: Result<ClientRow, McpError>)
        ensures
            r is Ok <==> opt_fits_vault(text::opt_str(client_secret)),
            match r {
                Ok(row) => {
                    &&& row.client_id@ == client_id@
                    &&& opt_stands_for(self@, text::opt_str(client_secret), row.client_secret_enc)
                    &&& row.metadata_json@ == metadata_json@
                    &&& row.redirect_uri@ == redirect_uri@
                    &&& row.server_name@ == server_name@
                },
                Err(e) => is_encrypt_error(e, server_name@),
            },
    {
        match self.encrypt_opt(server_name, client_secret) {
            Ok(client_secret_enc) => Ok(
                ClientRow {
                    client_id: client_id.to_owned(),
                    client_secret_enc,
                    metadata_json: metadata_json.to_owned(),
                    redirect_uri: redirect_uri.to_owned(),
                    server_name: server_name.to_owned(),
                },
            ),
            Err(e) => Err(e),
        }
    }

    /// The client registration in a stored row; `None` where there is no row.
    pub fn get_client(&self, server_name: &str, row: Option<ClientRow>) -> (r: Result<
        Option<StoredClient>,
        McpError,
    >)
        ensures
            match row {
                None => r == Ok::<Option<StoredClient>, McpError>(None),
                Some(row) => {
                    let secret = opt_opened(self@, row.client_secret_enc);
                    match r {
                        Ok(Some(c)) => {
                            &&& c.client_id == row.client_id
                            &&& secret == Some(text::opt_text(c.client_secret))
                            &&& c.metadata_json == row.metadata_json
                            &&& c.redirect_uri == row.redirect_uri
                        },
                        Ok(None) => false,
                        Err(e) => secret is None && is_decrypt_error(e, server_name@),
                    }
                },
            },
    {
        let row = match row {
            Some(row) => row,
            None => {
                return Ok(None);
            },
        };
        match self.decrypt_opt(server_name, &row.client_secret_enc) {
            Ok(client_secret) => Ok(
                Some(
                    StoredClient {
                        client_id: row.client_id,
                        client_secret,
                        metadata_json: row.metadata_json,
                        redirect_uri: row.redirect_uri,
                    },
                ),
            ),
            Err(e) => Err(e),
        }
    }
}

/// A stored token pair is read back as it was stored.
pub proof fn law_token_round_trip(
    key: Seq<u8>,
    access: Seq<char>,
    refresh: Option<Seq<char>>,
    row: TokenRow,
)
    requires
        stands_for(key, access, row.access_token_enc@),
        opt_stands_for(key, refresh, row.refresh_token_enc),
    ensures
        crypto::opened_text(key, row.access_token_enc@) == Some(access),
        opt_opened(key, row.refresh_token_enc) == Some(refresh),
{
}

/// A stored client secret, present or absent, is read back as it was stored.
pub proof fn law_client_round_trip(key: Seq<u8>, secret: Option<Seq<char>>, row: ClientRow)
    requires
        opt_stands_for(key, secret, row.client_secret_enc),
    ensures
        opt_opened(key, row.client_secret_enc) == Some(secret),
{
}

/// Every secret within the cipher's limit can be stored, and so can none.
pub proof fn law_secrets_within_the_limit_are_stored(s: Seq<char>)
    ensures
        fits_vault(s) <==> encode_utf8(s).len() <= 0x10_0000_0000,
        opt_fits_vault(Some(s)) <==> fits_vault(s),
        opt_fits_vault(None),
{
}

} // verus!
