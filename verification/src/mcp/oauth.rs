//! OAuth: PKCE pairs, sealed state tokens, and token replies.
//!
//! Connect links and the OAuth `state` parameter carry a sealed token. All of its
//! content is ciphertext, so nobody who relays a link can read or alter it.
use vstd::prelude::*;

use crate::crypto::{self, SecretKey};
use crate::ids::{uuid_of, uuid_text, UserId};
use crate::json::{self, JsonIn, JsonOut, JsonView};
use crate::mcp::error::{is_encrypt_error, McpError};
use crate::mcp::vault::StoredToken;
use crate::numbers;
use crate::text;

verus! {

/// Lifetime of a state token, in seconds.
pub const STATE_TTL_SECS: u64 = 600;

/// Identifier that the authorization server assigned to this instance.
#[derive(Debug)]
pub struct ClientId(String);

/// Secret issued to a confidential OAuth client.
pub struct ClientSecret(String);

/// PKCE challenge: the base64url form of the verifier's SHA-256 digest.
#[derive(Debug)]
pub struct CodeChallenge(String);

/// PKCE verifier: proves at the token endpoint that the same party started the
/// authorize request.
pub struct CodeVerifier(String);

/// Where the authorization server sends the browser back after consent.
#[derive(Debug)]
pub struct RedirectUri(String);

impl View for ClientId {
    type V = Seq<char>;

    closed spec fn view(&self) -> Seq<char> {
        self.0@
    }
}

impl View for ClientSecret {
    type V = Seq<char>;

    closed spec fn view(&self) -> Seq<char> {
        self.0@
    }
}

impl View for CodeChallenge {
    type V = Seq<char>;

    closed spec fn view(&self) -> Seq<char> {
        self.0@
    }
}

impl View for CodeVerifier {
    type V = Seq<char>;

    closed spec fn view(&self) -> Seq<char> {
        self.0@
    }
}

impl View for RedirectUri {
    type V = Seq<char>;

    closed spec fn view(&self) -> Seq<char> {
        self.0@
    }
}

impl ClientId {
    pub fn new(raw: &str) -> (r: Self)
        ensures
            r@ == raw@,
    {
        ClientId(raw.to_owned())
    }

    pub fn as_str(&self) -> (r: &str)
        ensures
            r@ == self@,
    {
        self.0.as_str()
    }
}

impl ClientSecret {
    pub fn new(raw: &str) -> (r: Self)
        ensures
            r@ == raw@,
    {
        ClientSecret(raw.to_owned())
    }

    pub fn expose(&self) -> (r: &str)
        ensures
            r@ == self@,
    {
        self.0.as_str()
    }
}

impl CodeChallenge {
    pub fn new(raw: &str) -> (r: Self)
        ensures
            r@ == raw@,
    {
        CodeChallenge(raw.to_owned())
    }

    pub fn as_str(&self) -> (r: &str)
        ensures
            r@ == self@,
    {
        self.0.as_str()
    }
}

impl CodeVerifier {
    pub fn new(raw: &str) -> (r: Self)
        ensures
            r@ == raw@,
    {
        CodeVerifier(raw.to_owned())
    }

    pub fn expose(&self) -> (r: &str)
        ensures
            r@ == self@,
    {
        self.0.as_str()
    }
}

impl RedirectUri {
    pub fn new(raw: &str) -> (r: Self)
        ensures
            r@ == raw@,
    {
        RedirectUri(raw.to_owned())
    }

    pub fn as_str(&self) -> (r: &str)
        ensures
            r@ == self@,
    {
        self.0.as_str()
    }
}

/// Model of an optional verifier.
pub open spec fn opt_verifier(v: Option<CodeVerifier>) -> Option<Seq<char>> {
    match v {
        Some(v) => Some(v@),
        None => None,
    }
}

/// Model of an optional client secret.
pub open spec fn opt_secret(v: Option<ClientSecret>) -> Option<Seq<char>> {
    match v {
        Some(v) => Some(v@),
        None => None,
    }
}

/// PKCE pair: random verifier and its challenge. The challenge goes into the
/// authorize URL, the verifier into the token exchange.
pub struct PkcePair {
    pub challenge: CodeChallenge,
    pub verifier: CodeVerifier,
}

/// The challenge that belongs to a verifier.
pub open spec fn challenge_for(verifier: Seq<char>) -> Seq<char> {
    crypto::base64url_encoded(crypto::sha256_digest(vstd::utf8::encode_utf8(verifier)))
}

impl PkcePair {
    /// The pair that belongs to a verifier: its challenge is the base64url form of its
    /// SHA-256 digest.
    pub fn from_verifier(verifier: CodeVerifier) -> (r: Self)
        ensures
            r.verifier == verifier,
            r.challenge@ == challenge_for(verifier@),
    {
        let digest = crypto::sha256(verifier.expose().as_bytes());
        let challenge = CodeChallenge(crypto::base64url_encode(digest.as_slice()));
        PkcePair { challenge, verifier }
    }

    /// A fresh pair: 32 random bytes, in 43 characters of the URL-safe alphabet.
    pub fn generate() -> (r: Self)
        ensures
            r.challenge@ == challenge_for(r.verifier@),
            r.verifier@.len() == 43,
            forall|i: int| 0 <= i < 43 ==> crypto::is_base64url_char(#[trigger] r.verifier@[i]),
    {
        let bytes = crypto::random_bytes();
        Self::from_verifier(CodeVerifier(crypto::base64url_encode(bytes.as_slice())))
    }
}

/// Key that seals connect links and OAuth `state` parameters.
pub struct StateKey {
    key: SecretKey,
}

impl View for StateKey {
    type V = Seq<u8>;

    closed spec fn view(&self) -> Seq<u8> {
        self.key@
    }
}

/// The 32-byte key in a base64 text with white space around it.
pub open spec fn key_from_base64(key_b64: Seq<char>) -> Option<Seq<u8>> {
    match crypto::base64_decoded(text::trim_of(key_b64)) {
        Ok(bytes) => if bytes.len() == crypto::KEY_LEN {
            Some(bytes)
        } else {
            None
        },
        Err(_) => None,
    }
}

/// Why a base64 text holds no 32-byte key.
pub open spec fn key_fault(key_b64: Seq<char>) -> Seq<char> {
    match crypto::base64_decoded(text::trim_of(key_b64)) {
        Ok(_) => "Invalid Length"@,
        Err(why) => why,
    }
}

/// The error says that a base64 text holds no 32-byte key, and why.
pub open spec fn is_key_error(e: McpError, key_b64: Seq<char>) -> bool {
    e is StateKeyInvalid && e->StateKeyInvalid_source@ == key_fault(key_b64)
}

impl StateKey {
    /// Decodes a base64-encoded key of 32 bytes.
    pub fn from_base64(key_b64: &str) -> (r: Result<Self, McpError>)
        ensures
            match r {
                Ok(k) => key_from_base64(key_b64@) == Some(k@),
                Err(e) => key_from_base64(key_b64@) is None && is_key_error(e, key_b64@),
            },
    {
        let trimmed = text::trim(key_b64);
        match crypto::base64_decode(trimmed.as_str()) {
            Ok(bytes) => match SecretKey::from_bytes(bytes) {
                Some(key) => Ok(StateKey { key }),
                None => Err(McpError::StateKeyInvalid { source: String::from_str("Invalid Length") }),
            },
            Err(source) => Err(McpError::StateKeyInvalid { source }),
        }
    }
}

/// What a connect link or an OAuth `state` parameter stands for. The PKCE verifier is
/// present on the token of the authorize redirect, and absent on that of a connect
/// link, which never reaches the provider.
pub struct StateToken {
    pub code_verifier: Option<CodeVerifier>,
    pub server: String,
    pub user_id: UserId,
}

/// Model of `StateToken`.
pub struct StateView {
    pub code_verifier: Option<Seq<char>>,
    pub server: Seq<char>,
    pub user_id: UserId,
}

impl View for StateToken {
    type V = StateView;

    open spec fn view(&self) -> StateView {
        StateView {
            code_verifier: opt_verifier(self.code_verifier),
            server: self.server@,
            user_id: self.user_id,
        }
    }
}

/// The fields of the JSON object that a token seals.
pub open spec fn payload_fields(state: StateView, exp: u64) -> Seq<(Seq<char>, JsonView)> {
    let rest = seq![
        ("exp"@, JsonView::Number(text::decimal(exp as nat))),
        ("server"@, JsonView::Text(state.server)),
        ("user_id"@, JsonView::Text(uuid_text(state.user_id.0))),
    ];
    match state.code_verifier {
        Some(v) => seq![("code_verifier"@, JsonView::Text(v))] + rest,
        None => rest,
    }
}

/// What the fields of a sealed object say, and until when; `None` where one that is
/// needed is missing or of another type.
pub open spec fn payload_of(fields: Seq<(Seq<char>, JsonView)>) -> Option<(StateView, u64)> {
    let code_verifier = match json::field(fields, "code_verifier"@) {
        None | Some(JsonView::Null) => Some(None::<Seq<char>>),
        Some(JsonView::Text(v)) => Some(Some(v)),
        _ => None,
    };
    let exp = match json::field(fields, "exp"@) {
        Some(JsonView::Number(n)) => text::parsed_u64(n),
        _ => None,
    };
    let server = match json::field(fields, "server"@) {
        Some(JsonView::Text(s)) => Some(s),
        _ => None,
    };
    let user_id = match json::field(fields, "user_id"@) {
        Some(JsonView::Text(s)) => uuid_of(s),
        _ => None,
    };
    match (code_verifier, exp, server, user_id) {
        (Some(code_verifier), Some(exp), Some(server), Some(user_id)) => Some(
            (StateView { code_verifier, server, user_id: UserId(user_id) }, exp),
        ),
        _ => None,
    }
}

/// Some field of a sealed object stands in it more than once.
pub open spec fn some_field_repeats(plaintext: Seq<u8>) -> bool {
    ||| json::key_repeats(plaintext, "code_verifier"@)
    ||| json::key_repeats(plaintext, "exp"@)
    ||| json::key_repeats(plaintext, "server"@)
    ||| json::key_repeats(plaintext, "user_id"@)
}

/// What a sealed payload says, and until when: an object with each field once, or an array
/// of the fields' values in their order. `None` where it is neither.
pub open spec fn payload_read(plaintext: Seq<u8>) -> Option<(StateView, u64)> {
    match json::json_object_fields(plaintext) {
        Ok(fields) => if some_field_repeats(plaintext) {
            None
        } else {
            payload_of(fields)
        },
        Err(_) => match json::json_row(plaintext) {
            Some((code_verifier, exp, server, user)) => match uuid_of(user) {
                Some(id) => Some(
                    (StateView { code_verifier, server, user_id: UserId(id) }, exp),
                ),
                None => None,
            },
            None => None,
        },
    }
}

/// What a token holds under a key, and until when; `None` where it is not base64url,
/// does not open, or holds something else.
pub open spec fn token_content(key: Seq<u8>, token: Seq<char>) -> Option<(StateView, u64)> {
    match crypto::base64url_decoded(token) {
        Ok(blob) => match crypto::opened(key, blob) {
            Some(plaintext) => payload_read(plaintext),
            None => None,
        },
        Err(_) => None,
    }
}

/// Why a token holds nothing under a key. `None` where it opens and its payload is of
/// another shape: how that is put is left open.
pub open spec fn token_fault(key: Seq<u8>, token: Seq<char>) -> Option<Seq<char>> {
    match crypto::base64url_decoded(token) {
        Ok(blob) => if blob.len() < crypto::NONCE_LEN {
            Some("token shorter than the 12-byte nonce"@)
        } else if crypto::opened(key, blob) is None {
            Some("aead::Error"@)
        } else {
            None
        },
        Err(why) => Some(why),
    }
}

/// `token` holds `state` until `exp` under `key`.
pub open spec fn is_token(key: Seq<u8>, state: StateView, exp: u64, token: Seq<char>) -> bool {
    token_content(key, token) == Some((state, exp))
}

/// Why a token is refused.
pub enum TokenRefusal {
    Expired,
    Invalid(Option<Seq<char>>),
}

/// What a token says under a key at a time, or why it is refused.
pub open spec fn decrypted(key: Seq<u8>, token: Seq<char>, now: u64) -> Result<
    StateView,
    TokenRefusal,
> {
    match token_content(key, token) {
        Some((state, exp)) => if now > exp {
            Err(TokenRefusal::Expired)
        } else {
            Ok(state)
        },
        None => Err(TokenRefusal::Invalid(token_fault(key, token))),
    }
}

/// `token` is the base64url form of a nonce, a ciphertext and a tag, and the
/// ciphertext and tag are what the cipher makes of the plaintext under `key`: no
/// other bytes open.
pub open spec fn is_genuine(key: Seq<u8>, token: Seq<char>) -> bool {
    match crypto::base64url_decoded(token) {
        Ok(blob) => match crypto::opened(key, blob) {
            Some(plaintext) => {
                &&& token == crypto::base64url_encoded(blob)
                &&& plaintext.len() <= crypto::MAX_PLAINTEXT ==> crypto::is_sealed(
                    key,
                    plaintext,
                    blob,
                )
            },
            None => false,
        },
        Err(_) => false,
    }
}

/// The nonce that a token begins with.
pub open spec fn token_nonce(token: Seq<char>) -> Seq<u8> {
    crypto::base64url_decoded(token)->Ok_0.take(crypto::NONCE_LEN as int)
}

/// The plaintext that a token seals under a key.
pub open spec fn token_plaintext(key: Seq<u8>, token: Seq<char>) -> Seq<u8> {
    crypto::opened(key, crypto::base64url_decoded(token)->Ok_0)->0
}

/// A token can be made: what it seals is within the cipher's limit.
pub open spec fn can_seal(state: StateView, exp: u64) -> bool {
    json::json_object_written(payload_fields(state, exp)).len() <= crypto::MAX_PLAINTEXT
}

/// The names are short enough (some billions of characters) for the cipher.
pub open spec fn fits_token(state: StateView) -> bool {
    state.server.len() + (match state.code_verifier {
        Some(v) => v.len(),
        None => 0,
    }) <= 0x1_0000_0000
}

/// Reads a sealed payload, or says what is wrong with it.
fn read_payload(plaintext: &[u8]) -> (r: Result<(StateToken, u64), String>)
    ensures
        match r {
            Ok((state, exp)) => payload_read(plaintext@) == Some((state@, exp)),
            Err(_) => payload_read(plaintext@) is None,
        },
{
    let fields = match json::read_object(plaintext) {
        Ok(fields) => fields,
        Err(why) => {
            return match json::read_row(plaintext) {
                Some((code_verifier, exp, server, user)) => match UserId::parse(user.as_str()) {
                    Some(user_id) => {
                        let code_verifier = match code_verifier {
                            Some(v) => Some(CodeVerifier(v)),
                            None => None,
                        };
                        Ok((StateToken { code_verifier, server, user_id }, exp))
                    },
                    None => Err(String::from_str("user_id is no UUID")),
                },
                None => Err(why),
            };
        },
    };
    if json::repeats(plaintext, "code_verifier") || json::repeats(plaintext, "exp")
        || json::repeats(plaintext, "server") || json::repeats(plaintext, "user_id") {
        return Err(String::from_str("payload has a field more than once"));
    }
    match read_fields(&fields) {
        Some(content) => Ok(content),
        None => Err(String::from_str("payload is missing a field or has one of another type")),
    }
}

/// Reads the fields of a sealed object.
fn read_fields(fields: &Vec<(String, JsonIn)>) -> (r: Option<(StateToken, u64)>)
    ensures
        match r {
            Some((state, exp)) => payload_of(json::in_fields(fields@)) == Some((state@, exp)),
            None => payload_of(json::in_fields(fields@)) is None,
        },
{
    let code_verifier = match json::find_field(fields, "code_verifier") {
        Some(i) => match &fields[i].1 {
            JsonIn::Null => None,
            JsonIn::Text(s) => Some(CodeVerifier(s.clone())),
            _ => {
                return None;
            },
        },
        None => None,
    };
    let exp = match json::find_field(fields, "exp") {
        Some(i) => match &fields[i].1 {
            JsonIn::Number(n) => text::parse_u64(n.as_str()),
            _ => None,
        },
        None => None,
    };
    let server = json::text_field(fields, "server");
    let user_id = match json::text_field(fields, "user_id") {
        Some(s) => UserId::parse(s.as_str()),
        None => None,
    };
    match (exp, server, user_id) {
        (Some(exp), Some(server), Some(user_id)) => {
            Some((StateToken { code_verifier, server, user_id }, exp))
        },
        _ => None,
    }
}

/// Writing the fields of a token and reading them gives the token back.
proof fn lemma_payload_round_trip(state: StateView, exp: u64)
    requires
        uuid_of(uuid_text(state.user_id.0)) == Some(state.user_id.0),
    ensures
        json::keys_ascend(payload_fields(state, exp)),
        payload_of(payload_fields(state, exp)) == Some((state, exp)),
        json::fields_size(payload_fields(state, exp)) <= state.server.len() + (match state.code_verifier {
            Some(v) => v.len(),
            None => 0,
        }) + 200,
{
    reveal_strlit("code_verifier");
    reveal_strlit("exp");
    reveal_strlit("server");
    reveal_strlit("user_id");
    let fields = payload_fields(state, exp);
    text::lemma_decimal_round_trip(exp);
    assert(exp < text::ten_to(20)) by {
        reveal_with_fuel(text::ten_to, 21);
    }
    text::lemma_decimal_len(exp as nat, 20);
    assert("code_verifier"@[0] == 'c' && "exp"@[0] == 'e' && "server"@[0] == 's' && "user_id"@[0]
        == 'u');
    assert forall|i: int, j: int| 0 <= i < j < fields.len() implies text::text_lt(
        (#[trigger] fields[i]).0,
        (#[trigger] fields[j]).0,
    ) by {
        assert(fields[i].0[0] != fields[j].0[0]);
    }
    reveal_with_fuel(json::field, 5);
    reveal_with_fuel(json::fields_size, 5);
}

impl StateToken {
    /// Opens a token and reads what it holds. A token that does not open cleanly (wrong
    /// key, altered bytes, another shape) is invalid; one that opens after its expiry
    /// has expired.
    pub fn decrypt(key: &StateKey, token: &str, now: u64) -> (r: Result<Self, McpError>)
        ensures
            match decrypted(key@, token@, now) {
                Ok(state) => r is Ok && r->Ok_0@ == state,
                Err(TokenRefusal::Expired) => r is Err && r->Err_0 is StateExpired,
                Err(TokenRefusal::Invalid(why)) => r matches Err(
                    McpError::StateInvalid { source },
                ) && (why is Some ==> source@ == why->0),
            },
            !(r is Err && r->Err_0 is StateInvalid) ==> is_genuine(key@, token@),
    {
        let blob = match crypto::base64url_decode(token) {
            Ok(blob) => blob,
            Err(source) => {
                return Err(McpError::StateInvalid { source });
            },
        };
        if blob.len() < crypto::NONCE_LEN {
            return Err(
                McpError::StateInvalid {
                    source: String::from_str("token shorter than the 12-byte nonce"),
                },
            );
        }
        let plaintext = match key.key.open(blob.as_slice()) {
            Some(p) => p,
            None => {
                return Err(McpError::StateInvalid { source: String::from_str("aead::Error") });
            },
        };
        match read_payload(plaintext.as_slice()) {
            Ok((state, exp)) => if now > exp {
                Err(McpError::StateExpired)
            } else {
                Ok(state)
            },
            Err(source) => Err(McpError::StateInvalid { source }),
        }
    }

    /// Seals this token under `key`, with an expiry of 600 seconds from `now`. Only
    /// names of billions of characters make the cipher refuse.
    pub fn encrypt(&self, key: &StateKey, now: u64) -> (r: Result<String, McpError>)
        requires
            now + STATE_TTL_SECS <= u64::MAX,
        ensures
            match r {
                Ok(t) => is_token(key@, self@, (now + STATE_TTL_SECS) as u64, t@),
                Err(e) => is_encrypt_error(e, self.server@),
            },
            r is Ok <==> can_seal(self@, (now + STATE_TTL_SECS) as u64),
            fits_token(self@) ==> r is Ok,
            r is Ok ==> forall|i: int|
                0 <= i < r->Ok_0@.len() ==> crypto::is_base64url_char(#[trigger] r->Ok_0@[i]),
    {
        let exp: u64 = now + STATE_TTL_SECS;
        let user = self.user_id.to_text();
        let mut fields: Vec<(String, JsonOut)> = Vec::new();
        if let Some(v) = &self.code_verifier {
            fields.push((String::from_str("code_verifier"), JsonOut::Text(v.0.clone())));
        }
        fields.push((String::from_str("exp"), JsonOut::Count(exp)));
        fields.push((String::from_str("server"), JsonOut::Text(self.server.clone())));
        fields.push((String::from_str("user_id"), JsonOut::Text(user)));
        proof {
            lemma_payload_round_trip(self@, exp);
            assert(json::out_fields(fields@) =~= payload_fields(self@, exp));
        }
        let plaintext = json::write_object(fields);
        proof {
            let written = payload_fields(self@, exp);
            json::lemma_written_once(plaintext@, written, "code_verifier"@);
            json::lemma_written_once(plaintext@, written, "exp"@);
            json::lemma_written_once(plaintext@, written, "server"@);
            json::lemma_written_once(plaintext@, written, "user_id"@);
        }
        match key.key.seal(plaintext.as_slice()) {
            Some(blob) => Ok(crypto::base64url_encode(blob.as_slice())),
            None => Err(
                McpError::Encrypt {
                    server: self.server.clone(),
                    source: String::from_str("aead::Error"),
                },
            ),
        }
    }
}

/// Successful reply from an OAuth token endpoint, for the authorization-code exchange
/// and the refresh-token grant.
pub struct TokenResponse {
    pub access_token: String,
    pub expires_in: Option<u64>,
    pub refresh_token: Option<String>,
}

impl TokenResponse {
    /// Turns the relative lifetime into an absolute expiry. A refresh token in the
    /// reply replaces the one that was used; without one, `fallback_refresh` is kept.
    pub fn into_stored_token(self, fallback_refresh: Option<String>, now: u64) -> (r: StoredToken)
        requires
            self.expires_in is Some ==> now + self.expires_in->0 <= u64::MAX,
        ensures
            r.access_token == self.access_token,
            r.expires_at == match self.expires_in {
                Some(secs) => Some(numbers::clamped_i64(now + secs)),
                None => None,
            },
            r.refresh_token == match self.refresh_token {
                Some(t) => Some(t),
                None => fallback_refresh,
            },
    {
        let expires_at = match self.expires_in {
            Some(secs) => Some(numbers::u64_to_i64(now + secs)),
            None => None,
        };
        let refresh_token = match self.refresh_token {
            Some(t) => Some(t),
            None => fallback_refresh,
        };
        StoredToken { access_token: self.access_token, expires_at, refresh_token }
    }
}

/// What a token was made from is read back from it until it expires; from then on it has
/// expired.
pub proof fn law_state_round_trip(
    key: Seq<u8>,
    state: StateView,
    made: u64,
    token: Seq<char>,
    now: u64,
)
    requires
        made + STATE_TTL_SECS <= u64::MAX,
        is_token(key, state, (made + STATE_TTL_SECS) as u64, token),
    ensures
        decrypted(key, token, now) == if now <= made + STATE_TTL_SECS {
            Ok::<_, TokenRefusal>(state)
        } else {
            Err(TokenRefusal::Expired)
        },
{
}

/// An expired token stays expired, and an invalid one is invalid at every time.
pub proof fn law_refusal_is_final(key: Seq<u8>, token: Seq<char>, now: u64, later: u64)
    requires
        now <= later,
    ensures
        decrypted(key, token, now) matches Err(refusal) ==> decrypted(key, token, later) == Err::<
            StateView,
            _,
        >(refusal),
{
}

/// Of the tokens that begin with one nonce and seal one plaintext, a key opens one only:
/// another one is not genuine, and only genuine tokens are accepted.
pub proof fn law_altered_token_is_not_genuine(key: Seq<u8>, token: Seq<char>, altered: Seq<char>)
    requires
        is_genuine(key, token),
        token_plaintext(key, token).len() <= crypto::MAX_PLAINTEXT,
        altered != token,
        token_nonce(altered) == token_nonce(token),
        token_plaintext(key, altered) == token_plaintext(key, token),
    ensures
        !is_genuine(key, altered),
{
    if is_genuine(key, altered) {
        let a = crypto::base64url_decoded(token)->Ok_0;
        let b = crypto::base64url_decoded(altered)->Ok_0;
        let n = crypto::NONCE_LEN as int;
        assert(a.skip(n) == b.skip(n));
        assert(a =~= a.take(n) + a.skip(n));
        assert(b =~= b.take(n) + b.skip(n));
    }
}

/// What is read from a sealed object is what its fields say: the server, the user, the
/// expiry and, where it is there and not null, the verifier. Without one of the first
/// three, or with a field of another kind, nothing is read.
pub proof fn law_payload_says_what_its_fields_say(fields: Seq<(Seq<char>, JsonView)>)
    ensures
        payload_of(fields) matches Some((state, exp)) ==> {
            &&& json::field(fields, "server"@) == Some(JsonView::Text(state.server))
            &&& json::field(fields, "exp"@) matches Some(JsonView::Number(n)) && text::parsed_u64(n)
                == Some(exp)
            &&& json::field(fields, "user_id"@) matches Some(JsonView::Text(u)) && uuid_of(u)
                == Some(state.user_id.0)
            &&& match state.code_verifier {
                Some(v) => json::field(fields, "code_verifier"@) == Some(JsonView::Text(v)),
                None => json::field(fields, "code_verifier"@) is None || json::field(
                    fields,
                    "code_verifier"@,
                ) == Some(JsonView::Null),
            }
        },
        (json::field(fields, "server"@) matches Some(JsonView::Text(_))) && (json::field(
            fields,
            "exp"@,
        ) matches Some(JsonView::Number(n)) && text::parsed_u64(n) is Some) && (json::field(
            fields,
            "user_id"@,
        ) matches Some(JsonView::Text(u)) && uuid_of(u) is Some) && (json::field(
            fields,
            "code_verifier"@,
        ) is None || json::field(fields, "code_verifier"@)->0 is Null || json::field(
            fields,
            "code_verifier"@,
        )->0 is Text) ==> payload_of(fields) is Some,
{
}

/// An object in which one of the fields stands twice is not read, whichever it is.
pub proof fn law_repeated_field_is_refused(plaintext: Seq<u8>, key: Seq<char>)
    requires
        json::json_object_fields(plaintext) is Ok,
        json::key_repeats(plaintext, key),
        key == "code_verifier"@ || key == "exp"@ || key == "server"@ || key == "user_id"@,
    ensures
        payload_read(plaintext) is None,
{
}

/// A token is honoured exactly until its expiry, whatever it holds; what does not open is
/// refused at every time.
pub proof fn law_token_is_honoured_until_it_expires(key: Seq<u8>, token: Seq<char>, now: u64)
    ensures
        match token_content(key, token) {
            Some((state, exp)) => decrypted(key, token, now) == if now <= exp {
                Ok::<_, TokenRefusal>(state)
            } else {
                Err(TokenRefusal::Expired)
            },
            None => decrypted(key, token, now) matches Err(TokenRefusal::Invalid(_)),
        },
        STATE_TTL_SECS == 10 * 60,
{
}

/// White space around a key does not matter, and a key has 32 bytes.
pub proof fn law_key_is_read_trimmed(key_b64: Seq<char>)
    ensures
        key_from_base64(text::trim_of(key_b64)) == key_from_base64(key_b64),
        key_from_base64(key_b64) matches Some(key) ==> key.len() == 32
            && crypto::base64_decoded(text::trim_of(key_b64)) == Ok::<_, Seq<char>>(key),
{
    text::lemma_trim_idempotent(key_b64);
}

/// A challenge is the base64url form of the SHA-256 digest of its verifier's bytes.
pub proof fn law_challenge_is_the_digest(verifier: Seq<char>)
    ensures
        challenge_for(verifier) == crypto::base64url_encoded(
            crypto::sha256_digest(vstd::utf8::encode_utf8(verifier)),
        ),
{
}

/// Names of up to some billions of characters can be sealed, and what can be sealed is
/// within the cipher's limit.
pub proof fn law_ordinary_names_are_sealed(state: StateView, exp: u64)
    ensures
        (state.code_verifier is None && state.server.len() <= 0x1_0000_0000) ==> fits_token(state),
        (state.code_verifier matches Some(v) ==> state.server.len() + v.len() <= 0x1_0000_0000)
            && state.server.len() <= 0x1_0000_0000 ==> fits_token(state),
        can_seal(state, exp) <==> json::json_object_written(payload_fields(state, exp)).len()
            <= 0x10_0000_0000,
{
}

/// What a token seals is the expiry, the server and the user, and the verifier where there
/// is one, under ascending keys.
pub proof fn law_token_seals_its_fields(state: StateView, exp: u64, key: Seq<char>, value: JsonView)
    ensures
        payload_fields(state, exp).contains((key, value)) <==> {
            ||| key == "exp"@ && value == JsonView::Number(text::decimal(exp as nat))
            ||| key == "server"@ && value == JsonView::Text(state.server)
            ||| key == "user_id"@ && value == JsonView::Text(uuid_text(state.user_id.0))
            ||| key == "code_verifier"@ && state.code_verifier is Some && value == JsonView::Text(
                state.code_verifier->0,
            )
        },
{
    let fields = payload_fields(state, exp);
    let from: int = if state.code_verifier is Some {
        1
    } else {
        0
    };
    assert(fields[from] == ("exp"@, JsonView::Number(text::decimal(exp as nat))));
    assert(fields[from + 1] == ("server"@, JsonView::Text(state.server)));
    assert(fields[from + 2] == ("user_id"@, JsonView::Text(uuid_text(state.user_id.0))));
    if state.code_verifier is Some {
        assert(fields[0] == ("code_verifier"@, JsonView::Text(state.code_verifier->0)));
    }
}

/// A key that is refused is refused with the reason: what the text does not encode, or its
/// length.
pub proof fn law_refused_key_says_why(e: McpError, key_b64: Seq<char>)
    requires
        is_key_error(e, key_b64),
    ensures
        e matches McpError::StateKeyInvalid { source } && match crypto::base64_decoded(
            text::trim_of(key_b64),
        ) {
            Ok(_) => source@ == "Invalid Length"@,
            Err(why) => source@ == why,
        },
{
}

/// What is said of a token that does not open is what is wrong with it: its text, its
/// length, or its tag.
pub proof fn law_token_fault_says_why(key: Seq<u8>, token: Seq<char>)
    ensures
        match crypto::base64url_decoded(token) {
            Err(why) => token_fault(key, token) == Some(why),
            Ok(blob) => {
                &&& blob.len() < 12 ==> token_fault(key, token) is Some
                &&& blob.len() >= 12 && crypto::opened(key, blob) is None ==> token_fault(
                    key,
                    token,
                ) == Some("aead::Error"@)
                &&& crypto::opened(key, blob) is Some ==> token_fault(key, token) is None
            },
        },
{
}

} // verus!
