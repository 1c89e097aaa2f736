//! Identifiers.
use vstd::arithmetic::power::pow;
use vstd::prelude::*;

verus! {

/// A user, told apart by the 128 bits of a UUID.
#[derive(Clone, Copy, Debug, PartialEq, Eq, Structural, Hash)]
pub struct UserId(pub u128);

/// A message, told apart by the 128 bits of a UUID.
#[derive(Clone, Copy, Debug, PartialEq, Eq, Structural, Hash)]
pub struct MessageId(pub u128);

/// The lower-case hexadecimal digit of value `d`.
pub open spec fn hex_digit(d: int) -> char {
    if d < 10 {
        ('0' as int + d) as char
    } else {
        ('a' as int + (d - 10)) as char
    }
}

/// How many hyphens stand before place `i` of a UUID's text.
pub open spec fn hyphens_before(i: int) -> int {
    if i <= 8 {
        0
    } else if i <= 13 {
        1
    } else if i <= 18 {
        2
    } else if i <= 23 {
        3
    } else {
        4
    }
}

/// The text of a UUID: 32 hexadecimal digits, most significant first, with hyphens
/// behind the 8th, 12th, 16th and 20th.
pub open spec fn uuid_text(n: u128) -> Seq<char> {
    Seq::new(
        36,
        |i: int|
            if i == 8 || i == 13 || i == 18 || i == 23 {
                '-'
            } else {
                hex_digit((n as int / pow(16, (31 - (i - hyphens_before(i))) as nat)) % 16)
            },
    )
}

/// The UUID that a text spells, in any of the usual forms, or why it spells none.
pub uninterp spec fn uuid_parsed(s: Seq<char>) -> Result<u128, Seq<char>>;

/// The UUID that a text spells, if it spells one.
pub open spec fn uuid_of(s: Seq<char>) -> Option<u128> {
    match uuid_parsed(s) {
        Ok(n) => Some(n),
        Err(_) => None,
    }
}

/// `Display` of `uuid::Uuid`: lower-case hexadecimal digits with hyphens, which
/// `uuid::Uuid::parse_str` reads back.
#[verifier::external_body]
pub(crate) fn format_uuid(n: u128) -> (r: String)
    ensures
        r@ == uuid_text(n),
        uuid_parsed(r@) is Ok && uuid_parsed(r@)->Ok_0 == n,
{
    uuid::Uuid::from_u128(n).to_string()
}

/// `uuid::Uuid::parse_str`; an error is given by its text.
#[verifier::external_body]
pub(crate) fn parse_uuid(s: &str) -> (r: Result<u128, String>)
    ensures
        match r {
            Ok(n) => uuid_parsed(s@) == Ok::<u128, Seq<char>>(n),
            Err(e) => uuid_parsed(s@) == Err::<u128, Seq<char>>(e@),
        },
{
    uuid::Uuid::parse_str(s).map(|u| u.as_u128()).map_err(|e| e.to_string())
}

/// `n` is a UUID of version 4 (random) and of the variant that RFC 9562 describes.
pub open spec fn is_random_uuid(n: u128) -> bool {
    &&& (n as int / pow(2, 76)) % 16 == 4
    &&& (n as int / pow(2, 62)) % 4 == 2
}

/// `uuid::Uuid::new_v4`: a random UUID, with the bits of version and variant set. Which
/// one is left to chance.
#[verifier::external_body]
pub(crate) fn random_uuid() -> (r: u128)
    ensures
        is_random_uuid(r),
{
    uuid::Uuid::new_v4().as_u128()
}

impl UserId {
    /// A fresh random identifier.
    pub fn new() -> (r: Self)
        ensures
            is_random_uuid(r.0),
    {
        UserId(random_uuid())
    }

    /// The identifier as text.
    pub fn to_text(&self) -> (r: String)
        ensures
            r@ == uuid_text(self.0),
            uuid_of(r@) == Some(self.0),
    {
        format_uuid(self.0)
    }

    /// The identifier that a text spells.
    pub fn parse(s: &str) -> (r: Option<Self>)
        ensures
            r == match uuid_of(s@) {
                Some(n) => Some(UserId(n)),
                None => None,
            },
    {
        match parse_uuid(s) {
            Ok(n) => Some(UserId(n)),
            Err(_) => None,
        }
    }
}

impl MessageId {
    /// A fresh random identifier.
    pub fn new() -> (r: Self)
        ensures
            is_random_uuid(r.0),
    {
        MessageId(random_uuid())
    }
}

/// The `k` lowest bytes of `n`, most significant first.
pub open spec fn low_bytes(n: nat, k: nat) -> Seq<u8>
    decreases k,
{
    if k == 0 {
        Seq::empty()
    } else {
        low_bytes(n / 256, (k - 1) as nat).push((n % 256) as u8)
    }
}

/// `low_bytes`, computed.
pub fn bytes_of(n: u128, k: u8) -> (r: Vec<u8>)
    ensures
        r@ == low_bytes(n as nat, k as nat),
    decreases k,
{
    if k == 0 {
        Vec::new()
    } else {
        let mut bytes = bytes_of(n / 256, k - 1);
        bytes.push((n % 256) as u8);
        bytes
    }
}

/// Bytes tell numbers apart: two numbers that fit in them have the same bytes only where
/// they are the same.
pub proof fn law_low_bytes_tell_apart(a: nat, b: nat, k: nat)
    requires
        a < pow(256, k),
        b < pow(256, k),
        low_bytes(a, k) == low_bytes(b, k),
    ensures
        a == b,
        low_bytes(a, k).len() == k,
    decreases k,
{
    vstd::arithmetic::power::lemma_pow0(256);
    if k > 0 {
        let rest = (k - 1) as nat;
        vstd::arithmetic::power::lemma_pow1(256);
        vstd::arithmetic::power::lemma_pow_adds(256, rest, 1);
        let front = low_bytes(a / 256, rest);
        let other = low_bytes(b / 256, rest);
        let whole = front.push((a % 256) as u8);
        let twin = other.push((b % 256) as u8);
        assert(low_bytes(a, k) == whole && low_bytes(b, k) == twin);
        lemma_low_bytes_len(a / 256, rest);
        lemma_low_bytes_len(b / 256, rest);
        assert(whole.drop_last() =~= front);
        assert(twin.drop_last() =~= other);
        assert(whole.last() == (a % 256) as u8 && twin.last() == (b % 256) as u8);
        assert(pow(256, k) == pow(256, rest) * 256);
        assert(a / 256 < pow(256, rest) && b / 256 < pow(256, rest));
        law_low_bytes_tell_apart(a / 256, b / 256, rest);
    }
}

proof fn lemma_low_bytes_len(n: nat, k: nat)
    ensures
        low_bytes(n, k).len() == k,
    decreases k,
{
    if k > 0 {
        lemma_low_bytes_len(n / 256, (k - 1) as nat);
    }
}

/// An identifier's text has 32 hexadecimal digits, most significant first, in groups of
/// eight, four, four, four and twelve with hyphens between them.
pub proof fn law_identifier_is_spelled_in_groups(n: u128, k: int)
    requires
        0 <= k < 32,
    ensures
        uuid_text(n).len() == 36,
        uuid_text(n)[8] == '-' && uuid_text(n)[13] == '-' && uuid_text(n)[18] == '-'
            && uuid_text(n)[23] == '-',
        ({
            let at = k + (if k >= 8 {
                1int
            } else {
                0
            }) + (if k >= 12 {
                1int
            } else {
                0
            }) + (if k >= 16 {
                1int
            } else {
                0
            }) + (if k >= 20 {
                1int
            } else {
                0
            });
            uuid_text(n)[at] == hex_digit((n as int / pow(16, (31 - k) as nat)) % 16)
        }),
{
}

/// A random identifier says so: its version is four, and its variant the usual one.
pub proof fn law_random_identifier_says_so(n: u128)
    requires
        is_random_uuid(n),
    ensures
        (n as int / pow(2, 76)) % 16 == 4,
        (n as int / pow(2, 62)) % 4 == 2,
{
}

} // verus!
