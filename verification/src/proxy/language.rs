//! Language tags, such as `fr-FR`.
use vstd::prelude::*;

use crate::text;

verus! {

/// An ASCII letter.
pub open spec fn is_letter(c: char) -> bool {
    'a' as int <= c as int <= 'z' as int || 'A' as int <= c as int <= 'Z' as int
}

/// Up to eight ASCII letters and digits, and at least one.
pub open spec fn is_subtag(s: Seq<char>) -> bool {
    &&& 1 <= s.len() <= 8
    &&& forall|i: int| 0 <= i < s.len() ==> is_letter(#[trigger] s[i]) || text::is_digit(s[i])
}

/// Subtags with hyphens between them, the first of letters alone.
pub open spec fn is_language_tag(s: Seq<char>) -> bool {
    let parts = text::split_at_char(s, '-');
    &&& forall|i: int| 0 <= i < parts.len() ==> is_subtag(#[trigger] parts[i])
    &&& forall|i: int| 0 <= i < parts[0].len() ==> is_letter(#[trigger] parts[0][i])
}

/// A language tag as it is written.
#[derive(Debug)]
pub struct LanguageTag(String);

impl View for LanguageTag {
    type V = Seq<char>;

    closed spec fn view(&self) -> Seq<char> {
        self.0@
    }
}

/// A text that is no language tag.
#[derive(Debug)]
pub struct LanguageTagError(pub String);

fn letter(c: char) -> (r: bool)
    ensures
        r == is_letter(c),
{
    ('a' <= c && c <= 'z') || ('A' <= c && c <= 'Z')
}

/// Whether a text is a subtag, and whether it is of letters alone.
fn subtag(s: &str) -> (r: (bool, bool))
    ensures
        r.0 == is_subtag(s@),
        r.1 == (forall|i: int| 0 <= i < s@.len() ==> is_letter(#[trigger] s@[i])),
{
    let chars = text::chars_of(s);
    let len: usize = chars.len();
    let mut fits: bool = 1 <= len && len <= 8;
    let mut letters: bool = true;
    let mut i: usize = 0;
    while i < len
        invariant
            i <= len,
            chars@ == s@,
            len == s@.len(),
            fits == (1 <= len <= 8 && forall|j: int|
                0 <= j < i ==> is_letter(#[trigger] s@[j]) || text::is_digit(s@[j])),
            letters == (forall|j: int| 0 <= j < i ==> is_letter(#[trigger] s@[j])),
        decreases len - i,
    {
        let c: char = chars[i];
        let is = letter(c);
        let digit = '0' <= c && c <= '9';
        assert(digit == text::is_digit(c));
        fits = fits && (is || digit);
        letters = letters && is;
        i = i + 1;
    }
    (fits, letters)
}

impl LanguageTag {
    /// Reads a tag, which stays as it is written.
    pub fn parse(raw: &str) -> (r: Result<Self, LanguageTagError>)
        ensures
            match r {
                Ok(tag) => is_language_tag(raw@) && tag@ == raw@,
                Err(e) => !is_language_tag(raw@) && e.0@ == raw@,
            },
    {
        let parts = text::split(raw, '-');
        let ghost all = text::split_at_char(raw@, '-');
        let mut i: usize = 0;
        while i < parts.len()
            invariant
                i <= parts@.len(),
                text::texts(parts@) == all,
                all == text::split_at_char(raw@, '-'),
                forall|j: int| 0 <= j < i ==> is_subtag(#[trigger] all[j]),
                i > 0 ==> forall|j: int| 0 <= j < all[0].len() ==> is_letter(#[trigger] all[0][j]),
            decreases parts@.len() - i,
        {
            assert(all[i as int] == parts@[i as int]@);
            let (fits, letters) = subtag(parts[i].as_str());
            if !fits || (i == 0 && !letters) {
                assert(!is_language_tag(raw@));
                return Err(LanguageTagError(String::from_str(raw)));
            }
            i = i + 1;
        }
        assert(all.len() > 0);
        Ok(LanguageTag(String::from_str(raw)))
    }

    /// The tag as it is written.
    pub fn as_str(&self) -> (r: &str)
        ensures
            r@ == self@,
    {
        self.0.as_str()
    }
}

/// A tag is made of subtags: each of one to eight letters and digits, and the first of
/// letters alone; hyphens stand between them and nothing else does.
pub proof fn law_tag_is_made_of_subtags(s: Seq<char>, i: int)
    requires
        is_language_tag(s),
        0 <= i < s.len(),
    ensures
        is_letter(s[i]) || text::is_digit(s[i]) || s[i] == '-',
        is_letter(s[0]),
        s.last() != '-',
{
    let parts = text::split_at_char(s, '-');
    text::law_split_joins_back(s, '-');
    lemma_tag_characters(parts, i);
    text::law_joined_keeps_parts(parts, seq!['-'], 0);
    assert(is_subtag(parts[0]));
    assert(s.subrange(0, parts[0].len() as int)[0] == parts[0][0]);
    let last = parts.len() - 1;
    text::law_joined_keeps_parts(parts, seq!['-'], last);
    assert(is_subtag(parts[last]));
    let at = text::part_at(parts, seq!['-'], last);
    let n = parts[last].len() as int;
    assert(s.subrange(at, at + n)[n - 1] == s.last());
    assert(is_letter(parts[last][n - 1]) || text::is_digit(parts[last][n - 1]));
}

proof fn lemma_tag_characters(parts: Seq<Seq<char>>, i: int)
    requires
        forall|k: int| 0 <= k < parts.len() ==> is_subtag(#[trigger] parts[k]),
        0 <= i < text::joined(parts, seq!['-']).len(),
    ensures
        ({
            let c = text::joined(parts, seq!['-'])[i];
            is_letter(c) || text::is_digit(c) || c == '-'
        }),
    decreases parts.len(),
{
    let s = text::joined(parts, seq!['-']);
    if parts.len() == 1 {
        assert(is_subtag(parts[0]));
    } else if parts.len() > 1 {
        let rest = parts.drop_last();
        let front = text::joined(rest, seq!['-']);
        assert forall|k: int| 0 <= k < rest.len() implies is_subtag(#[trigger] rest[k]) by {
            assert(parts[k] == rest[k]);
        }
        if i < front.len() {
            lemma_tag_characters(rest, i);
            assert(s[i] == front[i]);
        } else if i > front.len() {
            let last = parts[parts.len() - 1];
            assert(is_subtag(last));
            assert(s[i] == last[i - front.len() - 1]);
        }
    }
}

/// A word of one to eight letters is a tag, and a tag stays one with a subtag behind it.
pub proof fn law_subtags_make_a_tag(word: Seq<char>, tag: Seq<char>, more: Seq<char>)
    requires
        1 <= word.len() <= 8,
        forall|i: int| 0 <= i < word.len() ==> is_letter(#[trigger] word[i]),
        is_language_tag(tag),
        is_subtag(more),
    ensures
        is_language_tag(word),
        is_language_tag(tag + seq!['-'] + more),
{
    lemma_no_hyphen(word);
    text::lemma_before_len_unique(word, '-', word.len() as int);
    assert(text::split_at_char(word, '-') == seq![word]);
    assert forall|i: int| 0 <= i < 1 implies is_subtag(#[trigger] seq![word][i]) by {}
    lemma_no_hyphen(more);
    lemma_split_push(tag, more);
    let before = text::split_at_char(tag, '-');
    let after = text::split_at_char(tag + seq!['-'] + more, '-');
    text::law_split_joins_back(tag, '-');
    assert(after == before.push(more));
    assert forall|i: int| 0 <= i < after.len() implies is_subtag(#[trigger] after[i]) by {
        if i < before.len() {
            assert(after[i] == before[i]);
        }
    }
    assert(after[0] == before[0]);
}

proof fn lemma_no_hyphen(s: Seq<char>)
    requires
        forall|i: int| 0 <= i < s.len() ==> is_letter(#[trigger] s[i]) || text::is_digit(s[i]),
    ensures
        forall|i: int| 0 <= i < s.len() ==> #[trigger] s[i] != '-',
{
}

proof fn lemma_split_push(s: Seq<char>, more: Seq<char>)
    requires
        forall|i: int| 0 <= i < more.len() ==> #[trigger] more[i] != '-',
    ensures
        text::split_at_char(s + seq!['-'] + more, '-') == text::split_at_char(s, '-').push(more),
    decreases s.len(),
{
    let all = s + seq!['-'] + more;
    let n = text::before_len(s, '-') as int;
    text::lemma_before_len(s, '-');
    text::lemma_before_len_unique(all, '-', n);
    assert(text::before(all, '-') =~= text::before(s, '-'));
    if n < s.len() {
        lemma_split_push(s.skip(n + 1), more);
        assert(all.skip(n + 1) =~= s.skip(n + 1) + seq!['-'] + more);
        assert(text::split_at_char(all, '-') =~= text::split_at_char(s, '-').push(more));
    } else {
        assert(all.skip(n + 1) =~= more);
        text::lemma_before_len_unique(more, '-', more.len() as int);
        assert(text::before(s, '-') =~= s);
        assert(text::split_at_char(more, '-') == seq![more]);
        assert(text::split_at_char(all, '-') =~= text::split_at_char(s, '-').push(more));
    }
}

} // verus!
