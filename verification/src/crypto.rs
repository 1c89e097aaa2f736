//! Ciphers, digests, encodings and randomness.
//!
//! The functions here call the `aes-gcm`, `base64`, `sha2` and `rand` crates. Their
//! results are named, and each contract states only the few facts about the names
//! that the callers need.
use aes_gcm::aead::{Aead, AeadCore, KeyInit, OsRng};
use base64::Engine;
use rand::RngCore;
use sha2::Digest;
use vstd::prelude::*;
use vstd::utf8::{decode_utf8, encode_utf8, valid_utf8};

verus! {

/// Length of an AES-256 key, in bytes.
pub const KEY_LEN: usize = 32;

/// Length of an AES-GCM nonce, in bytes.
pub const NONCE_LEN: usize = 12;

/// Length of an AES-GCM tag, in bytes.
pub const TAG_LEN: usize = 16;

/// The longest plaintext that AES-GCM takes, in bytes (`2^36`).
pub const MAX_PLAINTEXT: u64 = 0x10_0000_0000;

/// The ciphertext and tag that AES-256-GCM makes, with no associated data, of a key,
/// a nonce and a plaintext.
pub uninterp spec fn aes256_gcm_sealed(key: Seq<u8>, nonce: Seq<u8>, plaintext: Seq<u8>) -> Seq<u8>;

/// The plaintext that AES-256-GCM finds, with no associated data, under a key and a
/// nonce in a ciphertext with its tag; `None` where the tag does not match.
pub uninterp spec fn aes256_gcm_opened(
    key: Seq<u8>,
    nonce: Seq<u8>,
    ciphertext: Seq<u8>,
) -> Option<Seq<u8>>;

/// `Aead::encrypt` of `aes_gcm::Aes256Gcm`. It fails exactly on a plaintext longer
/// than `2^36` bytes; otherwise the result is the ciphertext, as long as the
/// plaintext, with the 16-byte tag behind it, and `Aead::decrypt` under the same key
/// and nonce gives the plaintext back.
#[verifier::external_body]
pub(crate) fn aes_seal(key: &[u8], nonce: &[u8], plaintext: &[u8]) -> (r: Option<Vec<u8>>)
    requires
        key@.len() == KEY_LEN,
        nonce@.len() == NONCE_LEN,
    ensures
        r is Some <==> plaintext@.len() <= MAX_PLAINTEXT,
        r is Some ==> {
            &&& r->0@ == aes256_gcm_sealed(key@, nonce@, plaintext@)
            &&& r->0@.len() == plaintext@.len() + TAG_LEN
            &&& aes256_gcm_opened(key@, nonce@, r->0@) == Some(plaintext@)
        },
{
    let cipher = aes_gcm::Aes256Gcm::new_from_slice(key).ok()?;
    cipher.encrypt(aes_gcm::Nonce::from_slice(nonce), plaintext).ok()
}

/// `Aead::decrypt` of `aes_gcm::Aes256Gcm`. It checks the tag against the ciphertext
/// before it decrypts, so whatever it accepts (up to the plaintext limit) is exactly
/// what `Aead::encrypt` makes of the plaintext that it returns.
#[verifier::external_body]
pub(crate) fn aes_open(key: &[u8], nonce: &[u8], ciphertext: &[u8]) -> (r: Option<Vec<u8>>)
    requires
        key@.len() == KEY_LEN,
        nonce@.len() == NONCE_LEN,
    ensures
        match r {
            Some(p) => {
                &&& aes256_gcm_opened(key@, nonce@, ciphertext@) == Some(p@)
                &&& ciphertext@.len() == p@.len() + TAG_LEN
                &&& p@.len() <= MAX_PLAINTEXT ==> ciphertext@ == aes256_gcm_sealed(
                    key@,
                    nonce@,
                    p@,
                )
            },
            None => aes256_gcm_opened(key@, nonce@, ciphertext@) is None,
        },
{
    let cipher = aes_gcm::Aes256Gcm::new_from_slice(key).ok()?;
    cipher.decrypt(aes_gcm::Nonce::from_slice(nonce), ciphertext).ok()
}

/// `AeadCore::generate_nonce` of `aes_gcm::Aes256Gcm`: 12 bytes from the system's
/// random number generator. Which bytes they are is left to chance.
#[verifier::external_body]
pub(crate) fn random_nonce() -> (r: Vec<u8>)
    ensures
        r@.len() == NONCE_LEN,
{
    aes_gcm::Aes256Gcm::generate_nonce(&mut OsRng).to_vec()
}

/// `RngCore::fill_bytes` of `rand::rng()` on 32 bytes. Which bytes they become is
/// left to chance.
#[verifier::external_body]
pub(crate) fn random_bytes() -> (r: Vec<u8>)
    ensures
        r@.len() == 32,
{
    let mut bytes = [0u8; 32];
    rand::rng().fill_bytes(&mut bytes);
    bytes.to_vec()
}

/// The SHA-256 digest of some bytes.
pub uninterp spec fn sha256_digest(bytes: Seq<u8>) -> Seq<u8>;

/// `Digest::digest` of `sha2::Sha256`: 32 bytes.
#[verifier::external_body]
pub(crate) fn sha256(bytes: &[u8]) -> (r: Vec<u8>)
    ensures
        r@ == sha256_digest(bytes@),
        r@.len() == 32,
{
    sha2::Sha256::digest(bytes).to_vec()
}

/// The bytes that a text encodes in standard base64 with padding, or why it encodes
/// none.
pub uninterp spec fn base64_decoded(s: Seq<char>) -> Result<Seq<u8>, Seq<char>>;

/// `Engine::decode` of base64's `STANDARD` engine; an error is given by its text.
#[verifier::external_body]
pub(crate) fn base64_decode(s: &str) -> (r: Result<Vec<u8>, String>)
    ensures
        match r {
            Ok(b) => base64_decoded(s@) == Ok::<_, Seq<char>>(b@),
            Err(e) => base64_decoded(s@) == Err::<Seq<u8>, _>(e@),
        },
{
    base64::engine::general_purpose::STANDARD.decode(s).map_err(|e| e.to_string())
}

/// `c` is a character of the URL-safe base64 alphabet.
pub open spec fn is_base64url_char(c: char) -> bool {
    let n = c as int;
    ||| 'a' as int <= n <= 'z' as int
    ||| 'A' as int <= n <= 'Z' as int
    ||| '0' as int <= n <= '9' as int
    ||| c == '-'
    ||| c == '_'
}

/// Some bytes in URL-safe base64 without padding.
pub uninterp spec fn base64url_encoded(bytes: Seq<u8>) -> Seq<char>;

/// The bytes that a text encodes in URL-safe base64 without padding, or why it
/// encodes none.
pub uninterp spec fn base64url_decoded(s: Seq<char>) -> Result<Seq<u8>, Seq<char>>;

/// `Engine::encode` of base64's `URL_SAFE_NO_PAD` engine: four characters of the
/// URL-safe alphabet for each three bytes, two or three for a rest of one or two.
/// `Engine::decode` of the same engine gives the bytes back. (A slice holds at most
/// `isize::MAX` bytes, so the length that the engine computes first is in range.)
#[verifier::external_body]
pub(crate) fn base64url_encode(bytes: &[u8]) -> (r: String)
    ensures
        r@ == base64url_encoded(bytes@),
        r@.len() == (4 * bytes@.len() + 2) / 3,
        forall|i: int| 0 <= i < r@.len() ==> is_base64url_char(#[trigger] r@[i]),
        base64url_decoded(r@) is Ok && base64url_decoded(r@)->Ok_0 == bytes@,
{
    base64::engine::general_purpose::URL_SAFE_NO_PAD.encode(bytes)
}

/// `Engine::decode` of base64's `URL_SAFE_NO_PAD` engine; an error is given by its
/// text. The engine refuses padding, and a last character with bits that no byte takes
/// up, so what it accepts is exactly what `Engine::encode` makes of the bytes.
#[verifier::external_body]
pub(crate) fn base64url_decode(s: &str) -> (r: Result<Vec<u8>, String>)
    ensures
        match r {
            Ok(b) => base64url_decoded(s@) == Ok::<_, Seq<char>>(b@) && s@ == base64url_encoded(b@),
            Err(e) => base64url_decoded(s@) == Err::<Seq<u8>, _>(e@),
        },
{
    base64::engine::general_purpose::URL_SAFE_NO_PAD.decode(s).map_err(|e| e.to_string())
}

/// `String::from_utf8`: the text that the bytes encode; `None` where they are not
/// UTF-8.
#[verifier::external_body]
pub(crate) fn utf8_text(bytes: Vec<u8>) -> (r: Option<String>)
    ensures
        match r {
            Some(s) => valid_utf8(bytes@) && s@ == decode_utf8(bytes@),
            None => !valid_utf8(bytes@),
        },
{
    String::from_utf8(bytes).ok()
}

/// A key of 32 bytes.
pub struct SecretKey {
    bytes: Vec<u8>,
}

impl View for SecretKey {
    type V = Seq<u8>;

    closed spec fn view(&self) -> Seq<u8> {
        self.bytes@
    }
}

impl SecretKey {
    #[verifier::type_invariant]
    spec fn has_key_len(&self) -> bool {
        self.bytes@.len() == KEY_LEN
    }

    /// The key that some bytes are; `None` where there are not 32 of them.
    pub fn from_bytes(bytes: Vec<u8>) -> (r: Option<Self>)
        ensures
            match r {
                Some(k) => bytes@.len() == KEY_LEN && k@ == bytes@,
                None => bytes@.len() != KEY_LEN,
            },
    {
        if bytes.len() == KEY_LEN {
            Some(SecretKey { bytes })
        } else {
            None
        }
    }

    /// Seals a plaintext under a fresh nonce: the nonce, then ciphertext and tag.
    /// `None` where the plaintext is longer than the cipher takes.
    pub fn seal(&self, plaintext: &[u8]) -> (r: Option<Vec<u8>>)
        ensures
            r is Some <==> plaintext@.len() <= MAX_PLAINTEXT,
            r is Some ==> is_sealed(self@, plaintext@, r->0@),
            r is Some ==> opened(self@, r->0@) == Some(plaintext@),
    {
        proof {
            use_type_invariant(self);
        }
        let nonce = random_nonce();
        match aes_seal(self.bytes.as_slice(), nonce.as_slice(), plaintext) {
            Some(ciphertext) => {
                let mut blob = nonce;
                let mut tail = ciphertext;
                blob.append(&mut tail);
                assert(blob@.take(NONCE_LEN as int) =~= nonce@);
                assert(blob@.skip(NONCE_LEN as int) =~= ciphertext@);
                Some(blob)
            },
            None => None,
        }
    }

    /// Opens what `seal` made: the plaintext, or `None` where the text is too short
    /// for a nonce or its tag does not match.
    pub fn open(&self, blob: &[u8]) -> (r: Option<Vec<u8>>)
        ensures
            match r {
                Some(p) => opened(self@, blob@) == Some(p@),
                None => opened(self@, blob@) is None,
            },
            r is Some && r->0@.len() <= MAX_PLAINTEXT ==> is_sealed(self@, r->0@, blob@),
    {
        proof {
            use_type_invariant(self);
        }
        if blob.len() < NONCE_LEN {
            return None;
        }
        let (nonce, ciphertext) = blob.split_at(NONCE_LEN);
        assert(nonce@ =~= blob@.take(NONCE_LEN as int));
        assert(ciphertext@ =~= blob@.skip(NONCE_LEN as int));
        aes_open(self.bytes.as_slice(), nonce, ciphertext)
    }
}

/// `blob` is a nonce followed by the sealed plaintext.
pub open spec fn is_sealed(key: Seq<u8>, plaintext: Seq<u8>, blob: Seq<u8>) -> bool {
    &&& blob.len() == NONCE_LEN + plaintext.len() + TAG_LEN
    &&& blob.skip(NONCE_LEN as int) == aes256_gcm_sealed(
        key,
        blob.take(NONCE_LEN as int),
        plaintext,
    )
}

/// The plaintext in a nonce followed by ciphertext and tag.
pub open spec fn opened(key: Seq<u8>, blob: Seq<u8>) -> Option<Seq<u8>> {
    if blob.len() < NONCE_LEN {
        None
    } else {
        aes256_gcm_opened(key, blob.take(NONCE_LEN as int), blob.skip(NONCE_LEN as int))
    }
}

/// The text that some sealed bytes hold; `None` where they do not open or are not
/// UTF-8.
pub open spec fn opened_text(key: Seq<u8>, blob: Seq<u8>) -> Option<Seq<char>> {
    match opened(key, blob) {
        Some(p) => if valid_utf8(p) {
            Some(decode_utf8(p))
        } else {
            None
        },
        None => None,
    }
}

/// A text that was encoded in UTF-8 decodes to itself.
pub proof fn lemma_utf8_round_trip(s: Seq<char>)
    ensures
        valid_utf8(encode_utf8(s)),
        decode_utf8(encode_utf8(s)) == s,
{
    broadcast use vstd::utf8::encode_utf8_valid_utf8, vstd::utf8::encode_utf8_decode_utf8;
}

/// What is opened is a nonce and what was sealed behind it; less than a nonce opens to
/// nothing, and only text is read as text.
pub proof fn law_short_bytes_do_not_open(key: Seq<u8>, blob: Seq<u8>, s: Seq<char>)
    ensures
        blob.len() < 12 ==> opened(key, blob) is None && opened_text(key, blob) is None,
        opened(key, blob) == Some(encode_utf8(s)) ==> opened_text(key, blob) == Some(s),
        opened_text(key, blob) is Some ==> opened(key, blob) is Some,
        KEY_LEN == 32 && NONCE_LEN == 12 && TAG_LEN == 16,
{
    lemma_utf8_round_trip(s);
}

} // verus!
