//! Sealed state tokens, PKCE pairs, and the token vault.
use aes_gcm::aead::{Aead, KeyInit};
use base64::engine::general_purpose::{STANDARD, URL_SAFE_NO_PAD};
use base64::Engine;
use coulisse::ids::UserId;
use coulisse::mcp::error::McpError;
use coulisse::mcp::oauth::{
    CodeVerifier, PkcePair, StateKey, StateToken, TokenResponse, STATE_TTL_SECS,
};
use coulisse::mcp::vault::{TokenVault, VaultMigrator};
use sha2::{Digest, Sha256};

const KEY: &[u8] = b"test-hmac-key-32-bytes-padding!!";
const NOW: u64 = 1_700_000_000;

fn key() -> StateKey {
    StateKey::from_base64(&STANDARD.encode(KEY)).unwrap()
}

fn state_for(user_id: UserId) -> StateToken {
    StateToken { code_verifier: None, server: "github".to_string(), user_id }
}

fn is_invalid(r: Result<StateToken, McpError>) -> bool {
    matches!(r, Err(McpError::StateInvalid { .. }))
}

fn opened(token: &str, now: u64) -> StateToken {
    StateToken::decrypt(&key(), token, now).unwrap()
}

#[test]
fn round_trip_valid_token() {
    let user_id = UserId::new();
    let token = state_for(user_id).encrypt(&key(), NOW).unwrap();
    let state = opened(&token, NOW);
    assert_eq!(state.server, "github");
    assert_eq!(state.user_id, user_id);
    assert!(state.code_verifier.is_none(), "no PKCE expected without a verifier");
}

#[test]
fn round_trip_state_carries_pkce_verifier() {
    let state = StateToken {
        code_verifier: Some(CodeVerifier::new("the-verifier-xyz")),
        ..state_for(UserId::new())
    };
    let token = state.encrypt(&key(), NOW).unwrap();
    let state = opened(&token, NOW);
    assert_eq!(state.code_verifier.as_ref().map(CodeVerifier::expose), Some("the-verifier-xyz"));
}

#[test]
fn appended_bytes_rejected() {
    let token = state_for(UserId::new()).encrypt(&key(), NOW).unwrap();
    let tampered = format!("{token}AB");
    assert!(is_invalid(StateToken::decrypt(&key(), &tampered, NOW)));
}

#[test]
fn substituted_char_rejected() {
    let token = state_for(UserId::new()).encrypt(&key(), NOW).unwrap();
    let mut chars: Vec<char> = token.chars().collect();
    let mid = chars.len() / 2;
    chars[mid] = if chars[mid] == 'A' { 'B' } else { 'A' };
    let tampered: String = chars.into_iter().collect();
    assert!(is_invalid(StateToken::decrypt(&key(), &tampered, NOW)));
}

#[test]
fn wrong_key_rejected() {
    let other_key =
        StateKey::from_base64(&STANDARD.encode(b"other-test-key-32-bytes-padding!")).unwrap();
    let token = state_for(UserId::new()).encrypt(&other_key, NOW).unwrap();
    assert!(is_invalid(StateToken::decrypt(&key(), &token, NOW)));
}

#[test]
fn garbage_input_rejected() {
    assert!(is_invalid(StateToken::decrypt(&key(), "!!!not base64!!!", NOW)));
}

#[test]
fn short_input_rejected() {
    let tiny = URL_SAFE_NO_PAD.encode(b"abc");
    assert!(is_invalid(StateToken::decrypt(&key(), &tiny, NOW)));
}

#[test]
fn each_token_uses_a_fresh_nonce() {
    let user_id = UserId::new();
    let a = state_for(user_id).encrypt(&key(), NOW).unwrap();
    let b = state_for(user_id).encrypt(&key(), NOW).unwrap();
    assert_ne!(a, b);
}

#[test]
fn short_key_rejected() {
    assert!(matches!(
        StateKey::from_base64(&STANDARD.encode([0u8; 16])),
        Err(McpError::StateKeyInvalid { .. })
    ));
}

#[test]
fn pkce_pair_challenge_is_sha256_of_verifier() {
    let pair = PkcePair::generate();
    let expected = URL_SAFE_NO_PAD.encode(Sha256::digest(pair.verifier.expose().as_bytes()));
    assert_eq!(pair.challenge.as_str(), expected);
    assert!(
        (43..=128).contains(&pair.verifier.expose().len()),
        "verifier length out of RFC 7636 range: {}",
        pair.verifier.expose().len()
    );
}

#[test]
fn pkce_challenge_of_the_rfc_example() {
    let pair = PkcePair::from_verifier(CodeVerifier::new(
        "dBjftJeZ4CVP-mB92K27uhbUJU1p1r_wW1gFWFOEjXk",
    ));
    assert_eq!(pair.challenge.as_str(), "E9Melhoa2OwvFrEMTJguCHaoeK1t8URWbuGJSstw-cM");
}

#[test]
fn two_generated_verifiers_differ() {
    assert_ne!(PkcePair::generate().verifier.expose(), PkcePair::generate().verifier.expose());
}

#[test]
fn state_expires_after_its_lifetime() {
    let token = state_for(UserId::new()).encrypt(&key(), NOW).unwrap();
    assert!(StateToken::decrypt(&key(), &token, NOW + STATE_TTL_SECS).is_ok());
    assert!(matches!(
        StateToken::decrypt(&key(), &token, NOW + STATE_TTL_SECS + 1),
        Err(McpError::StateExpired)
    ));
}

#[test]
fn no_other_spelling_of_a_token_is_accepted() {
    let token = state_for(UserId(7)).encrypt(&key(), NOW).unwrap();
    assert!(is_invalid(StateToken::decrypt(&key(), &format!("{token}="), NOW)));
    assert!(is_invalid(StateToken::decrypt(&key(), &format!(" {token}"), NOW)));
    let mut blob = URL_SAFE_NO_PAD.decode(&token).unwrap();
    *blob.last_mut().unwrap() ^= 1;
    let other_tag = URL_SAFE_NO_PAD.encode(&blob);
    assert!(is_invalid(StateToken::decrypt(&key(), &other_tag, NOW)));
    assert!(is_invalid(StateToken::decrypt(&key(), &other_tag, NOW + STATE_TTL_SECS + 1)));
}

#[test]
fn odd_server_names_survive_the_state() {
    let user_id = UserId(7);
    for server in ["", "a \"quoted\" \\ name", "caf\u{e9} \u{1F600}\n\t\u{1}"] {
        let state = StateToken {
            code_verifier: Some(CodeVerifier::new("v\"\\")),
            server: server.to_string(),
            user_id,
        };
        let token = state.encrypt(&key(), NOW).unwrap();
        let back = opened(&token, NOW);
        assert_eq!(back.server, server);
        assert_eq!(back.user_id, user_id);
        assert_eq!(back.code_verifier.as_ref().map(CodeVerifier::expose), Some("v\"\\"));
    }
}

#[test]
fn sealed_bytes_of_another_shape_are_invalid() {
    // Two bytes more than a nonce, and no tag.
    let raw = URL_SAFE_NO_PAD.encode([9u8; 14]);
    assert!(is_invalid(StateToken::decrypt(&key(), &raw, NOW)));
}

/// The token that seals some bytes.
fn sealed(plaintext: &str) -> String {
    let nonce = [7u8; 12];
    let cipher = aes_gcm::Aes256Gcm::new_from_slice(KEY).unwrap();
    let mut blob = nonce.to_vec();
    blob.extend(
        cipher.encrypt(aes_gcm::Nonce::from_slice(&nonce), plaintext.as_bytes()).unwrap(),
    );
    URL_SAFE_NO_PAD.encode(blob)
}

const USER: &str = "00000000-0000-0000-0000-000000000009";

#[test]
fn payload_is_an_object_with_its_fields() {
    let state = opened(
        &sealed(&format!(
            r#"{{"user_id":"{USER}","x":1,"x":{{"exp":1,"exp":2}},"server":"s","exp":5,"y":1e999}}"#
        )),
        5,
    );
    assert_eq!((state.server.as_str(), state.user_id), ("s", UserId(9)));
    let state = opened(
        &sealed(&format!(
            r#"{{"code_verifier":"v:\"","exp":5,"server":"a:{{","user_id":"{USER}"}}"#
        )),
        5,
    );
    assert_eq!(state.server, "a:{");
    assert_eq!(state.code_verifier.as_ref().map(CodeVerifier::expose), Some("v:\""));
    for payload in [
        r#"{"exp":5,"server":"s"}"#.to_string(),
        format!(r#"{{"exp":5.0,"server":"s","user_id":"{USER}"}}"#),
        format!(r#"{{"exp":-5,"server":"s","user_id":"{USER}"}}"#),
        format!(r#"{{"exp":5,"server":null,"user_id":"{USER}"}}"#),
        r#"{"exp":5,"server":"s","user_id":"u"}"#.to_string(),
    ] {
        assert!(is_invalid(StateToken::decrypt(&key(), &sealed(&payload), 5)), "{payload}");
    }
}

#[test]
fn payload_may_be_an_array() {
    let state = opened(&sealed(&format!(r#"["v",5,"s","{USER}"]"#)), 5);
    assert_eq!((state.server.as_str(), state.user_id), ("s", UserId(9)));
    assert_eq!(state.code_verifier.as_ref().map(CodeVerifier::expose), Some("v"));
    assert!(opened(&sealed(&format!(r#"[null,5,"s","{USER}"]"#)), 5).code_verifier.is_none());
    assert!(matches!(
        StateToken::decrypt(&key(), &sealed(&format!(r#"[null,5,"s","{USER}"]"#)), 6),
        Err(McpError::StateExpired)
    ));
    for payload in
        [format!(r#"[5,"s","{USER}"]"#), format!(r#"[null,5,"s","{USER}",1]"#), "[]".to_string()]
    {
        assert!(is_invalid(StateToken::decrypt(&key(), &sealed(&payload), 5)), "{payload}");
    }
}

#[test]
fn repeated_field_is_refused() {
    for again in [
        r#""exp":5"#.to_string(),
        r#""server":"s""#.to_string(),
        format!(r#""user_id":"{USER}""#),
        r#""\u0065xp" : 5"#.to_string(),
        r#""code_verifier":null,"code_verifier":null"#.to_string(),
    ] {
        let payload = format!(r#"{{"exp":5,"server":"s","user_id":"{USER}",{again}}}"#);
        assert!(is_invalid(StateToken::decrypt(&key(), &sealed(&payload), 5)), "{payload}");
    }
}

#[test]
fn token_response_becomes_a_stored_pair() {
    let t = TokenResponse {
        access_token: "a".to_string(),
        expires_in: Some(60),
        refresh_token: None,
    };
    let stored = t.into_stored_token(Some("old".to_string()), 1000);
    assert_eq!(stored.access_token, "a");
    assert_eq!(stored.expires_at, Some(1060));
    assert_eq!(stored.refresh_token.as_deref(), Some("old"));
    let t = TokenResponse {
        access_token: "a".to_string(),
        expires_in: None,
        refresh_token: Some("new".to_string()),
    };
    let stored = t.into_stored_token(Some("old".to_string()), 1000);
    assert_eq!(stored.expires_at, None);
    assert_eq!(stored.refresh_token.as_deref(), Some("new"));
}

#[test]
fn far_expiry_is_clamped() {
    let t = TokenResponse {
        access_token: "a".to_string(),
        expires_in: Some(u64::MAX - 5),
        refresh_token: None,
    };
    assert_eq!(t.into_stored_token(None, 5).expires_at, Some(i64::MAX));
}

fn vault() -> TokenVault {
    TokenVault::new(&STANDARD.encode([0u8; 32])).unwrap()
}

#[test]
fn encrypt_decrypt_round_trip() {
    let vault = vault();
    let row = vault
        .upsert_token("github", "user-1", "access-abc", Some(9999), Some("refresh-xyz"))
        .unwrap();
    assert_eq!((row.server_name.as_str(), row.user_id.as_str()), ("github", "user-1"));
    let token = vault.get_token("github", Some(row)).unwrap().unwrap();
    assert_eq!(token.access_token, "access-abc");
    assert_eq!(token.expires_at, Some(9999));
    assert_eq!(token.refresh_token.as_deref(), Some("refresh-xyz"));
}

#[test]
fn missing_token_returns_none() {
    assert!(vault().get_token("github", None).unwrap().is_none());
}

#[test]
fn upsert_updates_existing_token() {
    let vault = vault();
    let old = vault.upsert_token("github", "user-1", "old-access", None, None).unwrap();
    let new = vault.upsert_token("github", "user-1", "new-access", Some(42), Some("new-refresh")).unwrap();
    assert_ne!(old.access_token_enc, new.access_token_enc);
    let token = vault.get_token("github", Some(new)).unwrap().unwrap();
    assert_eq!(token.access_token, "new-access");
    assert_eq!(token.expires_at, Some(42));
    assert_eq!(token.refresh_token.as_deref(), Some("new-refresh"));
}

#[test]
fn client_round_trip() {
    let vault = vault();
    let row = vault
        .upsert_client(
            "todoist",
            "client-abc",
            Some("secret-xyz"),
            r#"{"issuer":"https://todoist.com"}"#,
            "http://localhost:8421/mcp/todoist/oauth/callback",
        )
        .unwrap();
    let stored = vault.get_client("todoist", Some(row)).unwrap().unwrap();
    assert_eq!(stored.client_id, "client-abc");
    assert_eq!(stored.client_secret.as_deref(), Some("secret-xyz"));
    assert_eq!(stored.redirect_uri, "http://localhost:8421/mcp/todoist/oauth/callback");
    assert!(stored.metadata_json.contains("todoist.com"));
}

#[test]
fn client_without_secret_round_trip() {
    let vault = vault();
    let row = vault
        .upsert_client(
            "todoist",
            "public-client",
            None,
            "{}",
            "http://localhost:8421/mcp/todoist/oauth/callback",
        )
        .unwrap();
    let stored = vault.get_client("todoist", Some(row)).unwrap().unwrap();
    assert_eq!(stored.client_id, "public-client");
    assert!(stored.client_secret.is_none());
}

#[test]
fn missing_client_returns_none() {
    assert!(vault().get_client("todoist", None).unwrap().is_none());
}

#[test]
fn invalid_key_length_rejected() {
    let result = TokenVault::new(&STANDARD.encode([0u8; 16]));
    assert!(matches!(result, Err(McpError::VaultKeyInvalid)));
}

#[test]
fn invalid_base64_rejected() {
    assert!(matches!(TokenVault::new("!!!not-base64!!!"), Err(McpError::VaultKeyInvalid)));
}

#[test]
fn user_cannot_read_another_users_token() {
    let vault = vault();
    let one = vault.upsert_token("github", "user-1", "secret-token-1", None, None).unwrap();
    let two = vault.upsert_token("github", "user-1", "secret-token-2", None, None).unwrap();
    let token1 = vault.get_token("github", Some(one)).unwrap().unwrap();
    let token2 = vault.get_token("github", Some(two)).unwrap().unwrap();
    assert_eq!(token1.access_token, "secret-token-1");
    assert_eq!(token2.access_token, "secret-token-2");
    assert_ne!(token1.access_token, token2.access_token);
}

#[test]
fn stored_bytes_are_not_the_secret() {
    let vault = vault();
    let a = vault.encrypt("github", "secret").unwrap();
    let b = vault.encrypt("github", "secret").unwrap();
    assert_ne!(a, b);
    assert!(!a.windows(6).any(|w| w == b"secret"));
    assert_eq!(vault.decrypt("github", &a).unwrap(), "secret");
}

#[test]
fn damaged_secret_fails_to_decrypt() {
    let vault = vault();
    let mut blob = vault.encrypt("github", "secret").unwrap();
    blob[13] ^= 1;
    assert!(matches!(vault.decrypt("github", &blob), Err(McpError::Decrypt { .. })));
    assert!(matches!(vault.decrypt("github", &[1, 2, 3]), Err(McpError::Decrypt { .. })));
}

#[test]
fn vault_of_another_key_cannot_read() {
    let blob = vault().encrypt("github", "secret").unwrap();
    let other = TokenVault::new(&STANDARD.encode([1u8; 32])).unwrap();
    assert!(matches!(other.decrypt("github", &blob), Err(McpError::Decrypt { .. })));
}

#[test]
fn upgrade_adds_the_clients_table() {
    let sql = VaultMigrator.upgrade_from("0.1.0");
    assert!(sql.starts_with("CREATE TABLE IF NOT EXISTS mcp_oauth_clients (client_id "), "{sql}");
    assert!(sql.ends_with("NOT NULL PRIMARY KEY)"), "{sql}");
}
