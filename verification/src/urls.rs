//! URLs: percent-encoding, taking apart, and resolving.
use vstd::prelude::*;
use vstd::utf8::encode_utf8;

verus! {

/// The upper-case hexadecimal digit of value `d`.
pub open spec fn upper_hex(d: int) -> char {
    if d < 10 {
        ('0' as int + d) as char
    } else {
        ('A' as int + (d - 10)) as char
    }
}

/// `b` is an ASCII letter or digit.
pub open spec fn is_alphanumeric_byte(b: u8) -> bool {
    ||| 'a' as int <= b <= 'z' as int
    ||| 'A' as int <= b <= 'Z' as int
    ||| '0' as int <= b <= '9' as int
}

/// The bytes with `%XX` for each that is no ASCII letter or digit.
pub open spec fn percent_encoded(bytes: Seq<u8>) -> Seq<char>
    decreases bytes.len(),
{
    if bytes.len() == 0 {
        Seq::empty()
    } else {
        let b = bytes.last();
        percent_encoded(bytes.drop_last()) + if is_alphanumeric_byte(b) {
            seq![b as char]
        } else {
            seq!['%', upper_hex(b as int / 16), upper_hex(b as int % 16)]
        }
    }
}

/// A text, percent-encoded byte by byte.
pub open spec fn url_encoded(s: Seq<char>) -> Seq<char> {
    percent_encoded(encode_utf8(s))
}

/// `percent_encoding::utf8_percent_encode` with the set `NON_ALPHANUMERIC`: every
/// byte of the text's UTF-8 form that is no ASCII letter or digit becomes `%XX`.
#[verifier::external_body]
pub(crate) fn urlencode(s: &str) -> (r: String)
    ensures
        r@ == url_encoded(s@),
{
    percent_encoding::utf8_percent_encode(s, percent_encoding::NON_ALPHANUMERIC).to_string()
}

/// Scheme, host and explicit port of a URL; `None` where the text is no URL.
pub uninterp spec fn url_parts(
    s: Seq<char>,
) -> Option<(Seq<char>, Option<Seq<char>>, Option<u16>)>;

/// `reqwest::Url::parse` with `scheme`, `host_str` and `port` of the result. The
/// port is `None` where the URL gives none or the scheme's own.
#[verifier::external_body]
pub(crate) fn parse_url(s: &str) -> (r: Option<(String, Option<String>, Option<u16>)>)
    ensures
        match r {
            Some((scheme, host, port)) => url_parts(s@) == Some(
                (scheme@, crate::text::opt_text(host), port),
            ),
            None => url_parts(s@) is None,
        },
{
    let url = reqwest::Url::parse(s).ok()?;
    Some((url.scheme().to_string(), url.host_str().map(|h| h.to_string()), url.port()))
}

/// What a reference comes to against a base URL; `None` where the base is no URL or
/// the two do not join.
pub uninterp spec fn url_joined(base: Seq<char>, reference: Seq<char>) -> Option<Seq<char>>;

/// `reqwest::Url::join` on the parsed base, as text.
#[verifier::external_body]
pub(crate) fn join_url(base: &str, reference: &str) -> (r: Option<String>)
    ensures
        crate::text::opt_text(r) == url_joined(base@, reference@),
{
    reqwest::Url::parse(base).ok()?.join(reference).ok().map(|u| u.to_string())
}

} // verus!
