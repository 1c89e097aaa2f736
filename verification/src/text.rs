//! Text on characters: comparing, trimming, searching, splitting, joining and
//! decimal numbers.
//!
//! A string is modelled by the sequence of its characters, a list of strings by
//! the sequence of their models.
use vstd::prelude::*;

verus! {

/// `String::push` appends one character to the end.
pub assume_specification[ String::push ](s: &mut String, c: char)
    ensures
        final(s)@ == old(s)@.push(c),
;

// ---------------------------------------------------------------------------
// Models

/// The models of a list of strings.
pub open spec fn texts(v: Seq<String>) -> Seq<Seq<char>> {
    v.map_values(|s: String| s@)
}

/// The model of an optional string.
pub open spec fn opt_text(o: Option<String>) -> Option<Seq<char>> {
    match o {
        Some(s) => Some(s@),
        None => None,
    }
}

/// The model of an optional borrowed string.
pub open spec fn opt_str(o: Option<&str>) -> Option<Seq<char>> {
    match o {
        Some(s) => Some(s@),
        None => None,
    }
}

/// The models of a list of name and value pairs.
pub open spec fn pairs(v: Seq<(String, String)>) -> Seq<(Seq<char>, Seq<char>)> {
    v.map_values(|p: (String, String)| (p.0@, p.1@))
}

/// Pushing a pair pushes its model.
pub proof fn lemma_pairs_push(v: Seq<(String, String)>, p: (String, String))
    ensures
        pairs(v.push(p)) == pairs(v).push((p.0@, p.1@)),
{
    assert(pairs(v.push(p)) =~= pairs(v).push((p.0@, p.1@)));
}

/// Pushing a string pushes its model.
pub proof fn lemma_texts_push(v: Seq<String>, s: String)
    ensures
        texts(v.push(s)) == texts(v).push(s@),
{
    assert(texts(v.push(s)) =~= texts(v).push(s@));
}

// ---------------------------------------------------------------------------
// Conversions

/// The code point of `c`.
fn code_point(c: char) -> (r: u32)
    ensures
        r == c as int,
{
    c as u32
}

/// The characters of `s`, in order.
pub fn chars_of(s: &str) -> (r: Vec<char>)
    ensures
        r@ == s@,
{
    let mut out: Vec<char> = Vec::new();
    for c in it: s.chars()
        invariant
            out@ =~= it.seq().take(it.index()),
            it.seq() == s@,
    {
        out.push(c);
    }
    out
}

/// Whether two strings have the same characters.
pub(crate) fn str_eq(a: &str, b: &str) -> (r: bool)
    ensures
        r == (a@ == b@),
{
    let left = chars_of(a);
    let right = chars_of(b);
    if left.len() != right.len() {
        return false;
    }
    let mut i: usize = 0;
    while i < left.len()
        invariant
            i <= left.len() == right.len(),
            left@ == a@,
            right@ == b@,
            left@.take(i as int) == right@.take(i as int),
        decreases left.len() - i,
    {
        if left[i] != right[i] {
            return false;
        }
        assert(left@.take(i + 1) =~= left@.take(i as int).push(left@[i as int]));
        assert(right@.take(i + 1) =~= right@.take(i as int).push(right@[i as int]));
        i = i + 1;
    }
    assert(left@.take(i as int) =~= left@ && right@.take(i as int) =~= right@);
    true
}

/// The characters `from..to` of `chars` as a string.
pub fn string_between(chars: &Vec<char>, from: usize, to: usize) -> (r: String)
    requires
        from <= to <= chars.len(),
    ensures
        r@ == chars@.subrange(from as int, to as int),
{
    let mut out = String::new();
    let mut i: usize = from;
    while i < to
        invariant
            from <= i <= to <= chars.len(),
            out@ == chars@.subrange(from as int, i as int),
        decreases to - i,
    {
        out.push(chars[i]);
        i = i + 1;
    }
    out
}

/// Copies a list of strings.
pub fn clone_list(v: &Vec<String>) -> (r: Vec<String>)
    ensures
        r@ == v@,
{
    clone_slice(v.as_slice())
}

/// Copies a slice of strings.
pub fn clone_slice(v: &[String]) -> (r: Vec<String>)
    ensures
        r@ == v@,
{
    let mut out: Vec<String> = Vec::new();
    let mut i: usize = 0;
    while i < v.len()
        invariant
            i <= v.len(),
            out@ == v@.subrange(0, i as int),
        decreases v.len() - i,
    {
        out.push(v[i].clone());
        i = i + 1;
    }
    assert(v@.subrange(0, v@.len() as int) =~= v@);
    out
}

/// Whether `s` occurs in the list.
pub fn list_contains(v: &Vec<String>, s: &str) -> (r: bool)
    ensures
        r == texts(v@).contains(s@),
{
    let mut i: usize = 0;
    while i < v.len()
        invariant
            i <= v.len(),
            forall|j: int| 0 <= j < i ==> texts(v@)[j] != s@,
        decreases v.len() - i,
    {
        if str_eq(v[i].as_str(), s) {
            assert(texts(v@)[i as int] == s@);
            return true;
        }
        i = i + 1;
    }
    false
}

// ---------------------------------------------------------------------------
// White space

/// The characters with Unicode's `White_Space` property.
pub open spec fn is_white_space(c: char) -> bool {
    let n = c as int;
    ||| 0x9 <= n <= 0xd
    ||| n == 0x20
    ||| n == 0x85
    ||| n == 0xa0
    ||| n == 0x1680
    ||| 0x2000 <= n <= 0x200a
    ||| n == 0x2028
    ||| n == 0x2029
    ||| n == 0x202f
    ||| n == 0x205f
    ||| n == 0x3000
}

/// Whether `c` is white space.
pub fn white_space(c: char) -> (r: bool)
    ensures
        r == is_white_space(c),
{
    let n: u32 = c as u32;
    (0x9 <= n && n <= 0xd) || n == 0x20 || n == 0x85 || n == 0xa0 || n == 0x1680 || (0x2000 <= n
        && n <= 0x200a) || n == 0x2028 || n == 0x2029 || n == 0x202f || n == 0x205f || n == 0x3000
}

/// `s` without its leading white space.
pub open spec fn trim_start_of(s: Seq<char>) -> Seq<char>
    decreases s.len(),
{
    if s.len() > 0 && is_white_space(s[0]) {
        trim_start_of(s.drop_first())
    } else {
        s
    }
}

/// `s` without its trailing white space.
pub open spec fn trim_end_of(s: Seq<char>) -> Seq<char>
    decreases s.len(),
{
    if s.len() > 0 && is_white_space(s.last()) {
        trim_end_of(s.drop_last())
    } else {
        s
    }
}

/// `s` without white space at either end.
pub open spec fn trim_of(s: Seq<char>) -> Seq<char> {
    trim_end_of(trim_start_of(s))
}

/// Where the leading white space of `cs` ends.
fn start_index(cs: &Vec<char>) -> (lo: usize)
    ensures
        lo <= cs.len(),
        cs@.subrange(lo as int, cs.len() as int) == trim_start_of(cs@),
{
    let mut lo: usize = 0;
    assert(cs@.subrange(0, cs.len() as int) =~= cs@);
    while lo < cs.len() && white_space(cs[lo])
        invariant
            lo <= cs.len(),
            trim_start_of(cs@) == trim_start_of(cs@.subrange(lo as int, cs.len() as int)),
        decreases cs.len() - lo,
    {
        assert(cs@.subrange(lo as int, cs.len() as int).drop_first() =~= cs@.subrange(
            lo + 1,
            cs.len() as int,
        ));
        lo = lo + 1;
    }
    lo
}

/// Where the trailing white space of `cs[lo..]` starts.
fn end_index(cs: &Vec<char>, lo: usize) -> (hi: usize)
    requires
        lo <= cs.len(),
    ensures
        lo <= hi <= cs.len(),
        cs@.subrange(lo as int, hi as int) == trim_end_of(
            cs@.subrange(lo as int, cs.len() as int),
        ),
{
    let mut hi: usize = cs.len();
    while hi > lo && white_space(cs[hi - 1])
        invariant
            lo <= hi <= cs.len(),
            trim_end_of(cs@.subrange(lo as int, cs.len() as int)) == trim_end_of(
                cs@.subrange(lo as int, hi as int),
            ),
        decreases hi,
    {
        assert(cs@.subrange(lo as int, hi as int).drop_last() =~= cs@.subrange(
            lo as int,
            hi - 1,
        ));
        hi = hi - 1;
    }
    hi
}

/// Removes leading white space.
pub fn trim_start(s: &str) -> (r: String)
    ensures
        r@ == trim_start_of(s@),
{
    let cs = chars_of(s);
    let lo: usize = start_index(&cs);
    string_between(&cs, lo, cs.len())
}

/// Removes trailing white space.
pub fn trim_end(s: &str) -> (r: String)
    ensures
        r@ == trim_end_of(s@),
{
    let cs = chars_of(s);
    let hi: usize = end_index(&cs, 0);
    assert(cs@.subrange(0, cs.len() as int) =~= cs@);
    string_between(&cs, 0, hi)
}

/// Removes white space at both ends.
pub fn trim(s: &str) -> (r: String)
    ensures
        r@ == trim_of(s@),
{
    let cs = chars_of(s);
    let lo: usize = start_index(&cs);
    let hi: usize = end_index(&cs, lo);
    string_between(&cs, lo, hi)
}

/// A trimmed start stands at the end of the text, and begins with no white space.
pub proof fn lemma_trim_start(s: Seq<char>)
    ensures
        trim_start_of(s).len() <= s.len(),
        trim_start_of(s) == s.skip(s.len() - trim_start_of(s).len()),
        trim_start_of(s).len() > 0 ==> !is_white_space(trim_start_of(s)[0]),
        trim_start_of(trim_start_of(s)) == trim_start_of(s),
    decreases s.len(),
{
    if s.len() > 0 && is_white_space(s[0]) {
        lemma_trim_start(s.drop_first());
        assert(s.skip(s.len() - trim_start_of(s).len()) =~= s.drop_first().skip(
            s.drop_first().len() - trim_start_of(s).len(),
        ));
    } else {
        assert(s.skip(0) =~= s);
    }
}

/// A trimmed end stands at the start of the text, and ends with no white space.
pub proof fn lemma_trim_end(s: Seq<char>)
    ensures
        trim_end_of(s).len() <= s.len(),
        trim_end_of(s) == s.take(trim_end_of(s).len() as int),
        trim_end_of(s).len() > 0 ==> !is_white_space(trim_end_of(s).last()),
        trim_end_of(trim_end_of(s)) == trim_end_of(s),
    decreases s.len(),
{
    if s.len() > 0 && is_white_space(s.last()) {
        lemma_trim_end(s.drop_last());
        assert(s.take(trim_end_of(s).len() as int) =~= s.drop_last().take(
            trim_end_of(s).len() as int,
        ));
    } else {
        assert(s.take(s.len() as int) =~= s);
    }
}

/// Trimming twice is trimming once.
pub proof fn lemma_trim_idempotent(s: Seq<char>)
    ensures
        trim_of(trim_of(s)) == trim_of(s),
{
    let a = trim_start_of(s);
    let b = trim_end_of(a);
    lemma_trim_start(s);
    lemma_trim_end(a);
    if b.len() > 0 {
        assert(b[0] == a[0]);
        assert(trim_start_of(b) == b);
    }
}

// ---------------------------------------------------------------------------
// Prefixes, suffixes, substrings

/// `s` begins with `p`.
pub open spec fn starts_with_text(s: Seq<char>, p: Seq<char>) -> bool {
    p.len() <= s.len() && s.take(p.len() as int) == p
}

/// `s` ends with `p`.
pub open spec fn ends_with_text(s: Seq<char>, p: Seq<char>) -> bool {
    p.len() <= s.len() && s.skip(s.len() - p.len()) == p
}

/// `p` stands in `s` at index `i`.
pub open spec fn stands_at(s: Seq<char>, p: Seq<char>, i: int) -> bool {
    0 <= i && i + p.len() <= s.len() && s.subrange(i, i + p.len()) == p
}

/// `p` stands somewhere in `s`.
pub open spec fn contains_text(s: Seq<char>, p: Seq<char>) -> bool {
    exists|i: int| stands_at(s, p, i)
}

/// Whether `pat` stands in `cs` at index `at`.
fn matches_at(cs: &Vec<char>, pat: &Vec<char>, at: usize) -> (r: bool)
    requires
        at <= cs.len(),
    ensures
        r == stands_at(cs@, pat@, at as int),
{
    if pat.len() > cs.len() - at {
        return false;
    }
    let mut i: usize = 0;
    while i < pat.len()
        invariant
            i <= pat.len(),
            at + pat.len() <= cs.len(),
            forall|j: int| 0 <= j < i ==> cs@[at + j] == pat@[j],
        decreases pat.len() - i,
    {
        if cs[at + i] != pat[i] {
            assert(cs@.subrange(at as int, at + pat.len())[i as int] != pat@[i as int]);
            return false;
        }
        i = i + 1;
    }
    assert(cs@.subrange(at as int, at + pat.len()) =~= pat@);
    true
}

/// Whether `s` begins with `p`.
pub fn starts_with(s: &str, p: &str) -> (r: bool)
    ensures
        r == starts_with_text(s@, p@),
{
    let cs = chars_of(s);
    let ps = chars_of(p);
    let r = matches_at(&cs, &ps, 0);
    assert(p@.len() <= s@.len() ==> s@.subrange(0, p@.len() as int) =~= s@.take(p@.len() as int));
    r
}

/// Whether `s` ends with `p`.
pub fn ends_with(s: &str, p: &str) -> (r: bool)
    ensures
        r == ends_with_text(s@, p@),
{
    let cs = chars_of(s);
    let ps = chars_of(p);
    if ps.len() > cs.len() {
        return false;
    }
    assert(s@.subrange(s@.len() - p@.len(), s@.len() as int) =~= s@.skip(s@.len() - p@.len()));
    matches_at(&cs, &ps, cs.len() - ps.len())
}

/// Whether the first character of `s` is `c`.
pub fn begins_with_char(s: &str, c: char) -> (r: bool)
    ensures
        r == (s@.len() > 0 && s@[0] == c),
{
    !s.is_empty() && s.get_char(0) == c
}

/// `s` without the prefix `p`; `None` where it does not begin with it.
pub fn strip_prefix(s: &str, p: &str) -> (r: Option<String>)
    ensures
        opt_text(r) == if starts_with_text(s@, p@) {
            Some(s@.skip(p@.len() as int))
        } else {
            None
        },
{
    if !starts_with(s, p) {
        return None;
    }
    let cs = chars_of(s);
    let n: usize = chars_of(p).len();
    assert(s@.subrange(n as int, s@.len() as int) =~= s@.skip(n as int));
    Some(string_between(&cs, n, cs.len()))
}

/// `s` without the suffix `p`; `None` where it does not end with it.
pub fn strip_suffix(s: &str, p: &str) -> (r: Option<String>)
    ensures
        opt_text(r) == if ends_with_text(s@, p@) {
            Some(s@.take(s@.len() - p@.len()))
        } else {
            None
        },
{
    if !ends_with(s, p) {
        return None;
    }
    let cs = chars_of(s);
    let n: usize = chars_of(p).len();
    assert(s@.subrange(0, s@.len() - n) =~= s@.take(s@.len() - n));
    Some(string_between(&cs, 0, cs.len() - n))
}

/// The first index at which `p` stands in `s`.
pub open spec fn index_of_text(s: Seq<char>, p: Seq<char>) -> Option<int>
    decreases s.len(),
{
    if starts_with_text(s, p) {
        Some(0int)
    } else if s.len() == 0 {
        None
    } else {
        match index_of_text(s.drop_first(), p) {
            Some(i) => Some(i + 1),
            None => None,
        }
    }
}

/// What `s` holds after the first `p` (the whole text, where `p` is not in it).
pub open spec fn after_text(s: Seq<char>, p: Seq<char>) -> Seq<char> {
    match index_of_text(s, p) {
        Some(i) => s.skip(i + p.len()),
        None => s,
    }
}

/// A text contains `p` exactly when `p` has a first index in it, and stands there.
pub proof fn lemma_index_of_text(s: Seq<char>, p: Seq<char>)
    ensures
        contains_text(s, p) == (index_of_text(s, p) is Some),
        index_of_text(s, p) is Some ==> stands_at(s, p, index_of_text(s, p)->0),
    decreases s.len(),
{
    if starts_with_text(s, p) {
        assert(s.subrange(0, p.len() as int) =~= s.take(p.len() as int));
        assert(stands_at(s, p, 0));
    } else {
        if s.len() > 0 {
            let t = s.drop_first();
            lemma_index_of_text(t, p);
            if index_of_text(t, p) is Some {
                let i = index_of_text(t, p)->0;
                assert(s.subrange(i + 1, i + 1 + p.len()) =~= t.subrange(i, i + p.len()));
                assert(stands_at(s, p, i + 1));
            }
        }
        if contains_text(s, p) {
            let i = choose|i: int| stands_at(s, p, i);
            if i == 0 {
                assert(s.subrange(0, p.len() as int) =~= s.take(p.len() as int));
                assert(false);
            } else {
                let t = s.drop_first();
                assert(t.subrange(i - 1, i - 1 + p.len()) =~= s.subrange(i, i + p.len()));
                assert(stands_at(t, p, i - 1));
            }
        }
    }
}

/// The first index at which `pat` stands in `cs`.
fn find_in(cs: &Vec<char>, pat: &Vec<char>) -> (r: Option<usize>)
    ensures
        match r {
            Some(i) => index_of_text(cs@, pat@) == Some(i as int) && i + pat.len() <= cs.len(),
            None => index_of_text(cs@, pat@) is None,
        },
{
    let mut i: usize = 0;
    assert(cs@.skip(0) =~= cs@);
    loop
        invariant
            i <= cs.len(),
            match index_of_text(cs@.skip(i as int), pat@) {
                Some(k) => index_of_text(cs@, pat@) == Some(k + i),
                None => index_of_text(cs@, pat@) is None,
            },
        decreases cs.len() - i,
    {
        let ghost rest = cs@.skip(i as int);
        assert(i + pat@.len() <= cs@.len() ==> cs@.subrange(i as int, i + pat@.len())
            =~= rest.take(pat@.len() as int));
        if matches_at(cs, pat, i) {
            return Some(i);
        }
        if i == cs.len() {
            return None;
        }
        assert(rest.drop_first() =~= cs@.skip(i + 1));
        i = i + 1;
    }
}

/// Whether `p` stands somewhere in `s`.
pub fn contains(s: &str, p: &str) -> (r: bool)
    ensures
        r == contains_text(s@, p@),
{
    let cs = chars_of(s);
    let ps = chars_of(p);
    proof {
        lemma_index_of_text(s@, p@);
    }
    find_in(&cs, &ps).is_some()
}

/// What `s` holds after the first `p` (the whole text, where `p` is not in it).
pub fn after_pattern(s: &str, p: &str) -> (r: String)
    ensures
        r@ == after_text(s@, p@),
{
    let cs = chars_of(s);
    let ps = chars_of(p);
    let end: usize = cs.len();
    match find_in(&cs, &ps) {
        Some(i) => string_between(&cs, i + ps.len(), end),
        None => s.to_owned(),
    }
}

// ---------------------------------------------------------------------------
// Splitting at a character

/// How many characters of `s` stand before the first `c` (all, where there is none).
pub open spec fn before_len(s: Seq<char>, c: char) -> nat
    decreases s.len(),
{
    if s.len() == 0 || s[0] == c {
        0
    } else {
        1 + before_len(s.drop_first(), c)
    }
}

/// What stands before the first `c` (the whole text, where there is none).
pub open spec fn before(s: Seq<char>, c: char) -> Seq<char> {
    s.take(before_len(s, c) as int)
}

/// What stands after the first `c` (nothing, where there is none).
pub open spec fn after(s: Seq<char>, c: char) -> Seq<char> {
    if before_len(s, c) < s.len() {
        s.skip(before_len(s, c) as int + 1)
    } else {
        Seq::empty()
    }
}

/// How many characters of `s` stand after the last `c` (all, where there is none).
pub open spec fn after_last_len(s: Seq<char>, c: char) -> nat
    decreases s.len(),
{
    if s.len() == 0 || s.last() == c {
        0
    } else {
        1 + after_last_len(s.drop_last(), c)
    }
}

/// What stands after the last `c` (the whole text, where there is none).
pub open spec fn after_last(s: Seq<char>, c: char) -> Seq<char> {
    s.skip(s.len() - after_last_len(s, c))
}

/// The pieces of `s` between the occurrences of `c`.
pub open spec fn split_at_char(s: Seq<char>, c: char) -> Seq<Seq<char>>
    decreases s.len(),
{
    if before_len(s, c) < s.len() {
        seq![before(s, c)] + split_at_char(s.skip(before_len(s, c) as int + 1), c)
    } else {
        seq![s]
    }
}

/// The first `c` is the first index that holds it.
pub proof fn lemma_before_len(s: Seq<char>, c: char)
    ensures
        before_len(s, c) <= s.len(),
        forall|j: int| 0 <= j < before_len(s, c) ==> s[j] != c,
        before_len(s, c) < s.len() ==> s[before_len(s, c) as int] == c,
    decreases s.len(),
{
    if s.len() == 0 || s[0] == c {
    } else {
        lemma_before_len(s.drop_first(), c);
        assert forall|j: int| 0 <= j < before_len(s, c) implies s[j] != c by {
            if j > 0 {
                assert(s.drop_first()[j - 1] == s[j]);
            }
        }
    }
}

/// `before_len` is the only index with its properties.
pub proof fn lemma_before_len_unique(s: Seq<char>, c: char, n: int)
    requires
        0 <= n <= s.len(),
        forall|j: int| 0 <= j < n ==> s[j] != c,
        n < s.len() ==> s[n] == c,
    ensures
        before_len(s, c) == n,
{
    lemma_before_len(s, c);
    let m = before_len(s, c) as int;
    if m < n {
        assert(s[m] != c);
    }
    if n < m {
        assert(s[n] != c);
    }
}

/// Where the first `c` at or after `from` stands (the end, where there is none).
fn index_of_char(cs: &Vec<char>, from: usize, c: char) -> (r: usize)
    requires
        from <= cs.len(),
    ensures
        from <= r <= cs.len(),
        r - from == before_len(cs@.skip(from as int), c),
{
    let mut i: usize = from;
    while i < cs.len() && cs[i] != c
        invariant
            from <= i <= cs.len(),
            forall|j: int| from <= j < i ==> cs@[j] != c,
        decreases cs.len() - i,
    {
        i = i + 1;
    }
    proof {
        lemma_before_len_unique(cs@.skip(from as int), c, i - from);
    }
    i
}

/// What stands before the first `c`.
pub fn text_before(s: &str, c: char) -> (r: String)
    ensures
        r@ == before(s@, c),
{
    let cs = chars_of(s);
    let i: usize = index_of_char(&cs, 0, c);
    assert(cs@.skip(0) =~= cs@);
    string_between(&cs, 0, i)
}

/// What stands after the first `c`.
pub fn text_after(s: &str, c: char) -> (r: String)
    ensures
        r@ == after(s@, c),
{
    let cs = chars_of(s);
    let i: usize = index_of_char(&cs, 0, c);
    assert(cs@.skip(0) =~= cs@);
    if i < cs.len() {
        string_between(&cs, i + 1, cs.len())
    } else {
        String::new()
    }
}

/// What stands after the last `c`.
pub fn text_after_last(s: &str, c: char) -> (r: String)
    ensures
        r@ == after_last(s@, c),
{
    let cs = chars_of(s);
    let mut i: usize = cs.len();
    assert(cs@.take(cs@.len() as int) =~= cs@);
    while i > 0 && cs[i - 1] != c
        invariant
            i <= cs.len(),
            after_last_len(cs@, c) == cs.len() - i + after_last_len(cs@.take(i as int), c),
        decreases i,
    {
        assert(cs@.take(i as int).drop_last() =~= cs@.take(i - 1));
        i = i - 1;
    }
    string_between(&cs, i, cs.len())
}

/// Whether `c` occurs in `s`.
pub fn contains_char(s: &str, c: char) -> (r: bool)
    ensures
        r == s@.contains(c),
{
    let cs = chars_of(s);
    let mut i: usize = 0;
    while i < cs.len()
        invariant
            i <= cs@.len(),
            cs@ == s@,
            forall|j: int| 0 <= j < i ==> cs@[j] != c,
        decreases cs@.len() - i,
    {
        if cs[i] == c {
            assert(cs@[i as int] == c);
            return true;
        }
        i = i + 1;
    }
    false
}

/// The pieces of `s` between the occurrences of `c`.
pub fn split(s: &str, c: char) -> (r: Vec<String>)
    ensures
        texts(r@) == split_at_char(s@, c),
{
    let cs = chars_of(s);
    let mut out: Vec<String> = Vec::new();
    let mut from: usize = 0;
    let mut i: usize = index_of_char(&cs, 0, c);
    assert(cs@.skip(0) =~= cs@);
    assert(texts(out@) + split_at_char(cs@, c) =~= split_at_char(cs@, c));
    while i < cs.len()
        invariant
            from <= i <= cs.len(),
            i - from == before_len(cs@.skip(from as int), c),
            split_at_char(cs@, c) == texts(out@) + split_at_char(cs@.skip(from as int), c),
        decreases cs.len() - from,
    {
        let ghost rest = cs@.skip(from as int);
        let ghost done = texts(out@);
        let piece = string_between(&cs, from, i);
        proof {
            lemma_texts_push(out@, piece);
            assert(piece@ =~= before(rest, c));
            assert(rest.skip(before_len(rest, c) as int + 1) =~= cs@.skip(i + 1));
            assert(done + (seq![before(rest, c)] + split_at_char(cs@.skip(i + 1), c)) =~= done.push(
                piece@,
            ) + split_at_char(cs@.skip(i + 1), c));
        }
        out.push(piece);
        from = i + 1;
        i = index_of_char(&cs, from, c);
    }
    let last = string_between(&cs, from, cs.len());
    proof {
        lemma_texts_push(out@, last);
        assert(last@ =~= cs@.skip(from as int));
        assert(texts(out@) + seq![last@] =~= texts(out@).push(last@));
    }
    out.push(last);
    out
}

/// `s` without the `c`s at its end.
pub open spec fn trim_end_char_of(s: Seq<char>, c: char) -> Seq<char>
    decreases s.len(),
{
    if s.len() > 0 && s.last() == c {
        trim_end_char_of(s.drop_last(), c)
    } else {
        s
    }
}

/// Removes the `c`s at the end.
pub fn trim_end_char(s: &str, c: char) -> (r: String)
    ensures
        r@ == trim_end_char_of(s@, c),
{
    let cs = chars_of(s);
    let mut hi: usize = cs.len();
    assert(cs@.take(cs@.len() as int) =~= cs@);
    while hi > 0 && cs[hi - 1] == c
        invariant
            hi <= cs.len(),
            trim_end_char_of(cs@, c) == trim_end_char_of(cs@.take(hi as int), c),
        decreases hi,
    {
        assert(cs@.take(hi as int).drop_last() =~= cs@.take(hi - 1));
        hi = hi - 1;
    }
    assert(cs@.subrange(0, hi as int) =~= cs@.take(hi as int));
    string_between(&cs, 0, hi)
}

/// The words of `s`: its longest stretches without white space.
pub open spec fn words(s: Seq<char>) -> Seq<Seq<char>>
    decreases s.len(),
{
    if s.len() == 0 {
        Seq::empty()
    } else if is_white_space(s.last()) {
        words(s.drop_last())
    } else if s.len() == 1 || is_white_space(s[s.len() - 2]) {
        words(s.drop_last()).push(seq![s.last()])
    } else {
        let w = words(s.drop_last());
        w.drop_last().push(w.last().push(s.last()))
    }
}

/// The words of `s`.
pub fn split_whitespace(s: &str) -> (r: Vec<String>)
    ensures
        texts(r@) == words(s@),
{
    let cs = chars_of(s);
    let mut out: Vec<String> = Vec::new();
    let mut word: String = String::new();
    let mut in_word: bool = false;
    let mut i: usize = 0;
    assert(texts(out@) =~= words(cs@.take(0)));
    while i < cs.len()
        invariant
            i <= cs.len(),
            in_word == (i > 0 && !is_white_space(cs@[i - 1])),
            words(cs@.take(i as int)) == if in_word {
                texts(out@).push(word@)
            } else {
                texts(out@)
            },
            !in_word ==> word@.len() == 0,
        decreases cs.len() - i,
    {
        let c = cs[i];
        let ghost upto = cs@.take(i + 1);
        assert(upto.drop_last() =~= cs@.take(i as int));
        assert(upto.last() == c);
        assert(i > 0 ==> upto[upto.len() - 2] == cs@[i - 1]);
        if white_space(c) {
            if in_word {
                proof {
                    lemma_texts_push(out@, word);
                }
                out.push(word);
                word = String::new();
                in_word = false;
            }
        } else {
            let ghost prior = word@;
            word.push(c);
            proof {
                if in_word {
                    let w = words(cs@.take(i as int));
                    assert(w.drop_last() =~= texts(out@));
                } else {
                    assert(word@ =~= seq![c]);
                }
            }
            in_word = true;
        }
        i = i + 1;
    }
    assert(cs@.take(cs@.len() as int) =~= cs@);
    if in_word {
        proof {
            lemma_texts_push(out@, word);
        }
        out.push(word);
    }
    out
}

// ---------------------------------------------------------------------------
// Joining

/// The parts in order, with `sep` between each two.
pub open spec fn joined(parts: Seq<Seq<char>>, sep: Seq<char>) -> Seq<char>
    decreases parts.len(),
{
    if parts.len() == 0 {
        Seq::empty()
    } else if parts.len() == 1 {
        parts[0]
    } else {
        joined(parts.drop_last(), sep) + sep + parts.last()
    }
}

/// Where the part at `k` stands in the joined text: behind those before it, and the
/// separator that follows them.
pub open spec fn part_at(parts: Seq<Seq<char>>, sep: Seq<char>, k: int) -> int {
    joined(parts.take(k), sep).len() + if k > 0 {
        sep.len() as int
    } else {
        0
    }
}

/// What is joined of the first parts stands at the front, and the separator behind it.
pub proof fn lemma_joined_front(parts: Seq<Seq<char>>, sep: Seq<char>, k: int)
    requires
        0 <= k <= parts.len(),
    ensures
        starts_with_text(joined(parts, sep), joined(parts.take(k), sep)),
        0 < k < parts.len() ==> starts_with_text(
            joined(parts, sep),
            joined(parts.take(k), sep) + sep,
        ),
    decreases parts.len() - k,
{
    let all = joined(parts, sep);
    let front = joined(parts.take(k), sep);
    if k == parts.len() {
        assert(parts.take(k) =~= parts);
        assert(all.take(front.len() as int) =~= front);
    } else {
        lemma_joined_front(parts, sep, k + 1);
        let next = joined(parts.take(k + 1), sep);
        assert(parts.take(k + 1).drop_last() =~= parts.take(k));
        assert(all.take(next.len() as int) == next);
        if k == 0 {
            assert(all.take(0) =~= front);
        } else {
            assert(next == front + sep + parts[k]);
            assert(all.take(front.len() as int) =~= next.take(front.len() as int));
            assert(next.take(front.len() as int) =~= front);
            let more = front + sep;
            assert(all.take(more.len() as int) =~= next.take(more.len() as int));
            assert(next.take(more.len() as int) =~= more);
        }
    }
}

/// Each part stands in the joined text whole, with a separator between it and the next:
/// no part is lost, and none is moved.
pub proof fn law_joined_keeps_parts(parts: Seq<Seq<char>>, sep: Seq<char>, k: int)
    requires
        0 <= k < parts.len(),
    ensures
        stands_at(joined(parts, sep), parts[k], part_at(parts, sep, k)),
        k + 1 < parts.len() ==> part_at(parts, sep, k + 1) == part_at(parts, sep, k)
            + parts[k].len() + sep.len() && stands_at(
            joined(parts, sep),
            sep,
            part_at(parts, sep, k) + parts[k].len(),
        ),
        k == 0 ==> part_at(parts, sep, k) == 0,
        k + 1 == parts.len() ==> joined(parts, sep).len() == part_at(parts, sep, k)
            + parts[k].len(),
{
    let all = joined(parts, sep);
    let front = joined(parts.take(k), sep);
    let next = joined(parts.take(k + 1), sep);
    let at = part_at(parts, sep, k);
    lemma_joined_front(parts, sep, k + 1);
    assert(parts.take(k + 1).drop_last() =~= parts.take(k));
    assert(parts.take(0) =~= Seq::empty());
    assert(next.len() == at + parts[k].len());
    assert(all.take(next.len() as int) == next);
    assert(all.subrange(at, at + parts[k].len()) =~= next.subrange(at, at + parts[k].len()));
    assert(next.subrange(at, at + parts[k].len()) =~= parts[k]);
    if k + 1 < parts.len() {
        let more = next + sep;
        let end = at + parts[k].len();
        assert(all.take(more.len() as int) == more);
        assert(all.subrange(end, end + sep.len()) =~= more.subrange(end, end + sep.len()));
        assert(more.subrange(end, end + sep.len()) =~= sep);
    } else {
        assert(parts.take(k + 1) =~= parts);
    }
}

/// Joined in two runs, the texts of the runs stand with a separator between them.
pub proof fn law_joined_splits(a: Seq<Seq<char>>, b: Seq<Seq<char>>, sep: Seq<char>)
    requires
        a.len() > 0,
        b.len() > 0,
    ensures
        joined(a + b, sep) == joined(a, sep) + sep + joined(b, sep),
    decreases b.len(),
{
    let all = a + b;
    assert(all.last() == b.last());
    if b.len() == 1 {
        assert(all.drop_last() =~= a);
    } else {
        law_joined_splits(a, b.drop_last(), sep);
        assert(all.drop_last() =~= a + b.drop_last());
        assert(joined(all, sep) =~= joined(a, sep) + sep + joined(b, sep));
    }
}

/// Joins the parts with `sep` between each two.
pub fn join(parts: &Vec<String>, sep: &str) -> (r: String)
    ensures
        r@ == joined(texts(parts@), sep@),
{
    let mut out = String::new();
    let mut i: usize = 0;
    while i < parts.len()
        invariant
            i <= parts.len(),
            out@ == joined(texts(parts@).take(i as int), sep@),
        decreases parts.len() - i,
    {
        let ghost upto = texts(parts@).take(i + 1);
        assert(upto.drop_last() =~= texts(parts@).take(i as int));
        assert(upto.last() == parts@[i as int]@);
        if i > 0 {
            out.append(sep);
        }
        out.append(parts[i].as_str());
        assert(out@ =~= joined(upto, sep@));
        i = i + 1;
    }
    assert(texts(parts@).take(parts@.len() as int) =~= texts(parts@));
    out
}

// ---------------------------------------------------------------------------
// Order

/// `a` comes before `b`: at the first place where they differ it has the smaller
/// code point, or it ends there.
pub open spec fn text_lt(a: Seq<char>, b: Seq<char>) -> bool
    decreases a.len(),
{
    if b.len() == 0 {
        false
    } else if a.len() == 0 {
        true
    } else if a[0] != b[0] {
        (a[0] as int) < (b[0] as int)
    } else {
        text_lt(a.drop_first(), b.drop_first())
    }
}

/// Whether `a` comes before `b`.
pub fn less_than(a: &str, b: &str) -> (r: bool)
    ensures
        r == text_lt(a@, b@),
{
    let x = chars_of(a);
    let y = chars_of(b);
    let mut i: usize = 0;
    assert(x@.skip(0) =~= x@);
    assert(y@.skip(0) =~= y@);
    while i < x.len() && i < y.len()
        invariant
            i <= x.len(),
            i <= y.len(),
            x@ == a@,
            y@ == b@,
            text_lt(x@, y@) == text_lt(x@.skip(i as int), y@.skip(i as int)),
        decreases x.len() - i,
    {
        let p: char = x[i];
        let q: char = y[i];
        if p != q {
            return code_point(p) < code_point(q);
        }
        assert(x@.skip(i as int).drop_first() =~= x@.skip(i + 1));
        assert(y@.skip(i as int).drop_first() =~= y@.skip(i + 1));
        i = i + 1;
    }
    i < y.len()
}

/// Of two different texts exactly one comes before the other; none before itself.
pub proof fn lemma_text_lt_total(a: Seq<char>, b: Seq<char>)
    ensures
        a == b ==> !text_lt(a, b),
        a != b ==> text_lt(a, b) != text_lt(b, a),
    decreases a.len(),
{
    if a.len() == 0 && b.len() == 0 {
        assert(a =~= b);
    } else if a.len() > 0 && b.len() > 0 && a[0] == b[0] {
        lemma_text_lt_total(a.drop_first(), b.drop_first());
        if a.drop_first() == b.drop_first() {
            assert(a =~= seq![a[0]] + a.drop_first());
            assert(b =~= seq![b[0]] + b.drop_first());
        }
    }
}

/// The order is transitive.
pub proof fn lemma_text_lt_transitive(a: Seq<char>, b: Seq<char>, c: Seq<char>)
    requires
        text_lt(a, b),
        text_lt(b, c),
    ensures
        text_lt(a, c),
    decreases a.len(),
{
    if a.len() > 0 && b.len() > 0 && c.len() > 0 && a[0] == b[0] && b[0] == c[0] {
        lemma_text_lt_transitive(a.drop_first(), b.drop_first(), c.drop_first());
    }
}

/// `c` in lower case, where it is an ASCII letter.
pub open spec fn ascii_lower(c: char) -> char {
    if 'A' as int <= c as int <= 'Z' as int {
        (c as int + 32) as char
    } else {
        c
    }
}

/// The two texts are the same up to the case of ASCII letters.
pub open spec fn same_ignoring_case(a: Seq<char>, b: Seq<char>) -> bool {
    a.len() == b.len() && forall|i: int| 0 <= i < a.len() ==> ascii_lower(#[trigger] a[i]) == ascii_lower(b[i])
}

/// The lower-case code point of `c`, where it is an ASCII letter.
fn lower_code(c: char) -> (r: u32)
    ensures
        r == ascii_lower(c) as int,
{
    let n: u32 = c as u32;
    if 65 <= n && n <= 90 {
        n + 32
    } else {
        n
    }
}

/// Whether the two texts are the same up to the case of ASCII letters.
pub fn eq_ignore_case(a: &str, b: &str) -> (r: bool)
    ensures
        r == same_ignoring_case(a@, b@),
{
    let x = chars_of(a);
    let y = chars_of(b);
    if x.len() != y.len() {
        return false;
    }
    let mut i: usize = 0;
    while i < x.len()
        invariant
            i <= x.len(),
            x.len() == y.len(),
            x@ == a@,
            y@ == b@,
            forall|j: int| 0 <= j < i ==> ascii_lower(#[trigger] x@[j]) == ascii_lower(y@[j]),
        decreases x.len() - i,
    {
        if lower_code(x[i]) != lower_code(y[i]) {
            assert(ascii_lower(a@[i as int]) != ascii_lower(b@[i as int]));
            return false;
        }
        i = i + 1;
    }
    true
}

// ---------------------------------------------------------------------------
// Decimal numbers

/// The decimal digit of value `d`.
pub open spec fn digit_char(d: nat) -> char {
    ('0' as int + d) as char
}

/// `c` is a decimal digit.
pub open spec fn is_digit(c: char) -> bool {
    '0' as int <= c as int <= '9' as int
}

/// `n` in decimal, without leading zeros.
pub open spec fn decimal(n: nat) -> Seq<char>
    decreases n,
{
    if n < 10 {
        seq![digit_char(n)]
    } else {
        decimal(n / 10).push(digit_char(n % 10))
    }
}

/// The number that a text of digits stands for.
pub open spec fn digits_value(s: Seq<char>) -> nat
    decreases s.len(),
{
    if s.len() == 0 {
        0
    } else {
        (digits_value(s.drop_last()) * 10 + (s.last() as int - '0' as int)) as nat
    }
}

/// The text without a leading plus sign.
pub open spec fn unsigned_part(s: Seq<char>) -> Seq<char> {
    if s.len() > 0 && s[0] == '+' {
        s.drop_first()
    } else {
        s
    }
}

/// What a text says as a number below `2^64`: digits, at least one, and perhaps a
/// plus sign before them.
pub open spec fn parsed_u64(s: Seq<char>) -> Option<u64> {
    let ds = unsigned_part(s);
    if ds.len() > 0 && (forall|i: int| 0 <= i < ds.len() ==> is_digit(#[trigger] ds[i]))
        && digits_value(ds) <= u64::MAX {
        Some(digits_value(ds) as u64)
    } else {
        None
    }
}

/// The decimal digit of value `d`.
fn digit(d: u64) -> (c: char)
    requires
        d < 10,
    ensures
        c == digit_char(d as nat),
{
    (48u8 + d as u8) as char
}

/// Writes `n` in decimal.
pub fn format_u64(n: u64) -> (r: String)
    ensures
        r@ == decimal(n as nat),
    decreases n,
{
    let mut s = if n < 10 {
        String::new()
    } else {
        format_u64(n / 10)
    };
    s.push(digit(n % 10));
    s
}

/// Reads a number below `2^64`.
pub fn parse_u64(s: &str) -> (r: Option<u64>)
    ensures
        r == parsed_u64(s@),
{
    let cs = chars_of(s);
    let from: usize = if cs.len() > 0 && cs[0] == '+' {
        1
    } else {
        0
    };
    let ghost ds = unsigned_part(s@);
    assert(ds =~= cs@.skip(from as int));
    if from == cs.len() {
        return None;
    }
    let mut value: u64 = 0;
    let mut i: usize = from;
    while i < cs.len()
        invariant
            from <= i <= cs.len(),
            ds == cs@.skip(from as int),
            ds == unsigned_part(s@),
            forall|j: int| 0 <= j < i - from ==> is_digit(#[trigger] ds[j]),
            value == digits_value(ds.take(i - from)),
        decreases cs.len() - i,
    {
        let n: u32 = code_point(cs[i]);
        assert(ds[i - from] == cs@[i as int]);
        if n < 48 || n > 57 {
            return None;
        }
        let ghost upto = ds.take(i - from + 1);
        proof {
            assert(upto.drop_last() =~= ds.take(i - from));
            lemma_digits_value_monotone(ds, i - from + 1);
        }
        let d: u64 = (n - 48) as u64;
        match value.checked_mul(10) {
            Some(tens) => match tens.checked_add(d) {
                Some(v) => {
                    value = v;
                },
                None => {
                    return None;
                },
            },
            None => {
                return None;
            },
        }
        i = i + 1;
    }
    assert(ds.take(ds.len() as int) =~= ds);
    Some(value)
}

/// More digits make no smaller number.
proof fn lemma_digits_value_monotone(s: Seq<char>, n: int)
    requires
        0 <= n <= s.len(),
    ensures
        (forall|i: int| 0 <= i < s.len() ==> is_digit(#[trigger] s[i])) ==> digits_value(s.take(n))
            <= digits_value(s),
    decreases s.len(),
{
    if n < s.len() {
        lemma_digits_value_monotone(s.drop_last(), n);
        assert(s.drop_last().take(n) =~= s.take(n));
        if forall|i: int| 0 <= i < s.len() ==> is_digit(#[trigger] s[i]) {
            assert forall|i: int| 0 <= i < s.drop_last().len() implies is_digit(
                #[trigger] s.drop_last()[i],
            ) by {
                assert(s[i] == s.drop_last()[i]);
            }
            assert(is_digit(s.last()));
        }
    } else {
        assert(s.take(n) =~= s);
    }
}

/// Reading a written number gives it back.
pub proof fn lemma_decimal_round_trip(n: u64)
    ensures
        parsed_u64(decimal(n as nat)) == Some(n),
{
    lemma_decimal(n as nat);
    let s = decimal(n as nat);
    assert(is_digit(s[0]));
}

/// `10^k`.
pub open spec fn ten_to(k: nat) -> nat
    decreases k,
{
    if k == 0 {
        1
    } else {
        10 * ten_to((k - 1) as nat)
    }
}

/// A number below `10^k` has at most `k` digits.
pub proof fn lemma_decimal_len(n: nat, k: nat)
    requires
        k > 0,
        n < ten_to(k),
    ensures
        decimal(n).len() <= k,
    decreases n,
{
    if n >= 10 {
        assert(k > 1) by {
            assert(ten_to(0) == 1);
        }
        lemma_decimal_len(n / 10, (k - 1) as nat);
    }
}

/// A written number is digits, and they stand for it.
pub proof fn lemma_decimal(n: nat)
    ensures
        decimal(n).len() > 0,
        forall|i: int| 0 <= i < decimal(n).len() ==> is_digit(#[trigger] decimal(n)[i]),
        digits_value(decimal(n)) == n,
    decreases n,
{
    if n < 10 {
        assert(decimal(n).drop_last() =~= Seq::<char>::empty());
        assert(digits_value(Seq::<char>::empty()) == 0);
        assert(decimal(n).last() as int == 48 + n);
    } else {
        lemma_decimal(n / 10);
        assert(decimal(n).drop_last() =~= decimal(n / 10));
        assert(decimal(n).last() as int == 48 + n % 10);
        assert forall|i: int| 0 <= i < decimal(n).len() implies is_digit(#[trigger] decimal(n)[i]) by {
            if i < decimal(n / 10).len() {
                assert(decimal(n)[i] == decimal(n / 10)[i]);
            }
        }
    }
}

/// What is put between two texts stands between them.
pub proof fn lemma_middle_stands(before: Seq<char>, middle: Seq<char>, behind: Seq<char>)
    ensures
        stands_at(before + middle + behind, middle, before.len() as int),
        contains_text(before + middle + behind, middle),
{
    let all = before + middle + behind;
    assert(all.subrange(before.len() as int, before.len() as int + middle.len()) =~= middle);
    assert(stands_at(all, middle, before.len() as int));
}

/// The pieces of a text, joined by what stood between them, are the text, and none of them
/// holds it.
pub proof fn law_split_joins_back(s: Seq<char>, c: char)
    ensures
        split_at_char(s, c).len() > 0,
        joined(split_at_char(s, c), seq![c]) == s,
        forall|i: int|
            0 <= i < split_at_char(s, c).len() ==> !(#[trigger] split_at_char(s, c)[i]).contains(
                c,
            ),
    decreases s.len(),
{
    let n = before_len(s, c) as int;
    let parts = split_at_char(s, c);
    lemma_before_len(s, c);
    if n < s.len() {
        let rest = s.skip(n + 1);
        let more = split_at_char(rest, c);
        law_split_joins_back(rest, c);
        law_joined_splits(seq![before(s, c)], more, seq![c]);
        assert(seq![before(s, c)] + more =~= parts);
        assert(before(s, c) + seq![c] + rest =~= s);
        assert forall|i: int| 0 <= i < parts.len() implies !(#[trigger] parts[i]).contains(c) by {
            if i == 0 {
                if parts[0].contains(c) {
                    let j = choose|j: int| 0 <= j < parts[0].len() && parts[0][j] == c;
                    assert(s[j] != c);
                }
            } else {
                assert(parts[i] == more[i - 1]);
            }
        }
    } else {
        if s.contains(c) {
            let j = choose|j: int| 0 <= j < s.len() && s[j] == c;
            assert(s[j] != c);
        }
    }
}

/// Trimming drops nothing but white space: what stood before and behind is all of it, and
/// a text without white space at its ends stays as it is.
pub proof fn law_trim_drops_only_white_space(s: Seq<char>)
    ensures
        exists|a: int, b: int|
            #![trigger s.subrange(a, b)]
            0 <= a <= b <= s.len() && trim_of(s) == s.subrange(a, b) && (forall|i: int|
                0 <= i < a || b <= i < s.len() ==> is_white_space(#[trigger] s[i])),
        s.len() > 0 && !is_white_space(s[0]) && !is_white_space(s.last()) ==> trim_of(s) == s,
        trim_of(s).len() > 0 ==> !is_white_space(trim_of(s)[0]) && !is_white_space(
            trim_of(s).last(),
        ),
{
    let from = trim_start_of(s);
    let a = s.len() - from.len();
    let b = a + trim_end_of(from).len();
    lemma_trim_start(s);
    lemma_trim_end(from);
    lemma_trim_start_drops(s);
    lemma_trim_end_drops(from);
    assert(trim_of(s) =~= s.subrange(a, b));
    assert forall|i: int| 0 <= i < a || b <= i < s.len() implies is_white_space(
        #[trigger] s[i],
    ) by {
        if i >= b {
            assert(from[i - a] == s[i]);
        }
    }
    if trim_of(s).len() > 0 {
        assert(trim_of(s)[0] == from[0]);
    }
}

proof fn lemma_trim_start_drops(s: Seq<char>)
    ensures
        trim_start_of(s).len() <= s.len(),
        forall|i: int|
            0 <= i < s.len() - trim_start_of(s).len() ==> is_white_space(#[trigger] s[i]),
    decreases s.len(),
{
    if s.len() > 0 && is_white_space(s[0]) {
        lemma_trim_start_drops(s.drop_first());
        assert forall|i: int| 0 <= i < s.len() - trim_start_of(s).len() implies is_white_space(
            #[trigger] s[i],
        ) by {
            if i > 0 {
                assert(s.drop_first()[i - 1] == s[i]);
            }
        }
    }
}

proof fn lemma_trim_end_drops(s: Seq<char>)
    ensures
        trim_end_of(s).len() <= s.len(),
        forall|i: int| trim_end_of(s).len() <= i < s.len() ==> is_white_space(#[trigger] s[i]),
    decreases s.len(),
{
    if s.len() > 0 && is_white_space(s.last()) {
        lemma_trim_end_drops(s.drop_last());
        assert forall|i: int| trim_end_of(s).len() <= i < s.len() implies is_white_space(
            #[trigger] s[i],
        ) by {
            if i < s.len() - 1 {
                assert(s.drop_last()[i] == s[i]);
            }
        }
    }
}

/// What is taken off the end is the character and nothing else, and all of it.
pub proof fn law_trim_end_char_drops_only_it(s: Seq<char>, c: char)
    ensures
        trim_end_char_of(s, c).len() <= s.len(),
        trim_end_char_of(s, c) == s.take(trim_end_char_of(s, c).len() as int),
        trim_end_char_of(s, c).len() > 0 ==> trim_end_char_of(s, c).last() != c,
        forall|i: int| trim_end_char_of(s, c).len() <= i < s.len() ==> #[trigger] s[i] == c,
        trim_end_char_of(s.push(c), c) == trim_end_char_of(s, c),
    decreases s.len(),
{
    assert(s.push(c).drop_last() =~= s);
    if s.len() > 0 && s.last() == c {
        let rest = s.drop_last();
        law_trim_end_char_drops_only_it(rest, c);
        let n = trim_end_char_of(s, c).len() as int;
        assert(s.take(n) =~= rest.take(n));
        assert forall|i: int| n <= i < s.len() implies #[trigger] s[i] == c by {
            if i < s.len() - 1 {
                assert(rest[i] == s[i]);
            }
        }
    } else {
        assert(s.take(s.len() as int) =~= s);
    }
}

/// A text that holds a character is what stands before the first, the character, and what
/// stands after it; one that does not stands whole before it.
pub proof fn law_before_and_after_make_the_text(s: Seq<char>, c: char)
    ensures
        s.contains(c) ==> s == before(s, c).push(c) + after(s, c),
        !s.contains(c) ==> before(s, c) == s && after(s, c).len() == 0,
        !before(s, c).contains(c),
{
    lemma_before_len(s, c);
    let n = before_len(s, c) as int;
    if n < s.len() {
        assert(s[n] == c);
        assert(s =~= before(s, c).push(c) + after(s, c));
    } else {
        assert(before(s, c) =~= s);
    }
    if before(s, c).contains(c) {
        let j = choose|j: int| 0 <= j < n && before(s, c)[j] == c;
        assert(s[j] != c);
    }
}

/// What stands after the last of a character holds none of it, and a text that holds one
/// has it just before.
pub proof fn law_after_last_is_behind_the_last(s: Seq<char>, c: char)
    ensures
        !after_last(s, c).contains(c),
        s.contains(c) ==> ends_with_text(s, seq![c] + after_last(s, c)),
        !s.contains(c) ==> after_last(s, c) == s,
{
    lemma_after_last_len(s, c);
    let n = after_last_len(s, c) as int;
    let tail = after_last(s, c);
    if tail.contains(c) {
        let j = choose|j: int| 0 <= j < tail.len() && tail[j] == c;
        assert(s[s.len() - n + j] != c);
    }
    if n < s.len() {
        let whole = seq![c] + tail;
        assert(s.skip(s.len() - whole.len()) =~= whole);
        assert(s[s.len() - n - 1] == c);
    } else {
        assert(tail =~= s);
    }
}

proof fn lemma_after_last_len(s: Seq<char>, c: char)
    ensures
        after_last_len(s, c) <= s.len(),
        forall|i: int| s.len() - after_last_len(s, c) <= i < s.len() ==> #[trigger] s[i] != c,
        after_last_len(s, c) < s.len() ==> s[s.len() - after_last_len(s, c) - 1] == c,
    decreases s.len(),
{
    if s.len() > 0 && s.last() != c {
        let rest = s.drop_last();
        lemma_after_last_len(rest, c);
        assert forall|i: int| s.len() - after_last_len(s, c) <= i < s.len() implies #[trigger] s[i]
            != c by {
            if i < s.len() - 1 {
                assert(rest[i] == s[i]);
            }
        }
    }
}

/// Words hold no white space, none is empty, and together they are the text without its
/// white space.
pub proof fn law_words_are_the_text_without_white_space(s: Seq<char>)
    ensures
        forall|i: int|
            0 <= i < words(s).len() ==> (#[trigger] words(s)[i]).len() > 0 && forall|j: int|
                0 <= j < words(s)[i].len() ==> !is_white_space(#[trigger] words(s)[i][j]),
        joined(words(s), Seq::empty()) == s.filter(|c: char| !is_white_space(c)),
        s.len() > 0 && !is_white_space(s.last()) ==> words(s).len() > 0,
    decreases s.len(),
{
    reveal(Seq::filter);
    let black = |c: char| !is_white_space(c);
    let none = Seq::<char>::empty();
    if s.len() == 0 {
        assert(joined(words(s), none) =~= s.filter(black));
    } else {
        let rest = s.drop_last();
        let w = words(rest);
        law_words_are_the_text_without_white_space(rest);
        if is_white_space(s.last()) {
        } else if s.len() == 1 || is_white_space(s[s.len() - 2]) {
            let all = words(s);
            assert(all.drop_last() =~= w);
            assert(joined(all, none) =~= joined(w, none).push(s.last()));
            assert forall|i: int| 0 <= i < all.len() implies (#[trigger] all[i]).len() > 0
                && forall|j: int|
                0 <= j < all[i].len() ==> !is_white_space(#[trigger] all[i][j]) by {
                if i < w.len() {
                    assert(all[i] == w[i]);
                }
            }
        } else {
            let all = words(s);
            assert(rest.last() == s[s.len() - 2]);
            assert(all.drop_last() =~= w.drop_last());
            assert(joined(all, none) =~= joined(w, none).push(s.last()));
            assert forall|i: int| 0 <= i < all.len() implies (#[trigger] all[i]).len() > 0
                && forall|j: int|
                0 <= j < all[i].len() ==> !is_white_space(#[trigger] all[i][j]) by {
                if i < w.len() - 1 {
                    assert(all[i] == w[i]);
                } else {
                    assert(w[i].len() > 0);
                    assert forall|j: int| 0 <= j < all[i].len() implies !is_white_space(
                        #[trigger] all[i][j],
                    ) by {
                        if j < w[i].len() {
                            assert(all[i][j] == w[i][j]);
                        }
                    }
                }
            }
        }
    }
}

/// White space ends a word: what follows begins a new one.
pub proof fn law_white_space_ends_a_word(s: Seq<char>, space: char, c: char)
    requires
        is_white_space(space),
        !is_white_space(c),
    ensures
        words(s.push(space)) == words(s),
        words(s.push(space).push(c)) == words(s).push(seq![c]),
        s.len() > 0 && !is_white_space(s.last()) ==> words(s.push(c)).len() == words(s).len(),
{
    assert(s.push(space).drop_last() =~= s);
    assert(s.push(space).push(c).drop_last() =~= s.push(space));
    assert(s.push(c).drop_last() =~= s);
    let spaced = s.push(space).push(c);
    assert(spaced.last() == c && spaced[spaced.len() - 2] == space);
    assert(s.push(space).last() == space);
    assert(words(s.push(space)) == words(s));
    assert(spaced.drop_last() == s.push(space));
    assert(words(spaced) == words(spaced.drop_last()).push(seq![c]));
    law_words_are_the_text_without_white_space(s);
}

/// A number is read exactly from digits, with perhaps a plus sign before them: one other
/// character spoils it.
pub proof fn law_numbers_are_digits(s: Seq<char>, i: int, n: u64)
    ensures
        parsed_u64(Seq::empty()) is None,
        parsed_u64(seq!['+']) is None,
        0 <= i < s.len() && !('0' as int <= s[i] as int <= '9' as int) && !(i == 0 && s[0] == '+')
            ==> parsed_u64(s) is None,
        parsed_u64(seq!['+'] + decimal(n as nat)) == Some(n),
{
    assert(seq!['+'].drop_first() =~= Seq::empty());
    if 0 <= i < s.len() && !('0' as int <= s[i] as int <= '9' as int) && !(i == 0 && s[0] == '+') {
        let ds = unsigned_part(s);
        if s[0] == '+' {
            assert(ds[i - 1] == s[i]);
        } else {
            assert(ds[i] == s[i]);
        }
    }
    lemma_decimal(n as nat);
    assert((seq!['+'] + decimal(n as nat)).drop_first() =~= decimal(n as nat));
}

/// Two texts that are put into a sentence stand in it.
pub proof fn lemma_says_two(
    a: Seq<char>,
    x: Seq<char>,
    b: Seq<char>,
    y: Seq<char>,
    c: Seq<char>,
)
    ensures
        contains_text(a + x + b + y + c, x),
        contains_text(a + x + b + y + c, y),
        contains_text(a + x + b + y, x),
        contains_text(a + x + b + y, y),
        ends_with_text(a + x + b + y, y),
{
    let all = a + x + b + y;
    let more = all + c;
    assert(all.subrange(a.len() as int, a.len() as int + x.len()) =~= x);
    assert(more.subrange(a.len() as int, a.len() as int + x.len()) =~= x);
    assert(stands_at(all, x, a.len() as int));
    assert(stands_at(more, x, a.len() as int));
    let at = (a + x + b).len() as int;
    assert(all.subrange(at, at + y.len()) =~= y);
    assert(more.subrange(at, at + y.len()) =~= y);
    assert(stands_at(all, y, at));
    assert(stands_at(more, y, at));
    assert(all.skip(all.len() - y.len()) =~= y);
}

/// A text that is put behind a lead, or between a lead and an end, stands there.
pub proof fn lemma_says_one(a: Seq<char>, x: Seq<char>, b: Seq<char>)
    ensures
        contains_text(a + x + b, x),
        contains_text(a + x, x),
        ends_with_text(a + x, x),
{
    let none = Seq::<char>::empty();
    lemma_middle_stands(a, x, b);
    lemma_middle_stands(a, x, none);
    assert(a + x + none =~= a + x);
    assert((a + x).skip((a + x).len() - x.len()) =~= x);
}

/// Texts are ordered by the code points at which they first differ, and a text comes before
/// every longer one that begins with it.
pub proof fn law_texts_are_ordered_by_code_points(
    same: Seq<char>,
    a: char,
    b: char,
    rest: Seq<char>,
    other: Seq<char>,
)
    ensures
        (a as int) < (b as int) ==> text_lt(same.push(a) + rest, same.push(b) + other),
        text_lt(same, same.push(a) + rest),
    decreases same.len(),
{
    let x = same.push(a) + rest;
    let y = same.push(b) + other;
    if same.len() > 0 {
        law_texts_are_ordered_by_code_points(same.drop_first(), a, b, rest, other);
        assert(x.drop_first() =~= same.drop_first().push(a) + rest);
        assert(y.drop_first() =~= same.drop_first().push(b) + other);
    }
}

/// Case does not matter to ASCII letters, and nothing else is taken for the same.
pub proof fn law_case_does_not_matter(a: Seq<char>, b: Seq<char>, c: char, d: char)
    ensures
        same_ignoring_case(a, a),
        same_ignoring_case(a, b) ==> same_ignoring_case(b, a) && a.len() == b.len(),
        ascii_lower(c) == ascii_lower(d) ==> c == d || (c as int - d as int == 32 && 'A' as int
            <= d as int <= 'Z' as int) || (d as int - c as int == 32 && 'A' as int <= c as int
            <= 'Z' as int),
        'A' as int <= c as int <= 'Z' as int && d as int == c as int + 32 ==> ascii_lower(c)
            == ascii_lower(d),
{
    if same_ignoring_case(a, b) {
        assert forall|i: int| 0 <= i < b.len() implies ascii_lower(#[trigger] b[i])
            == ascii_lower(a[i]) by {
            assert(ascii_lower(a[i]) == ascii_lower(b[i]));
        }
    }
}

/// The index of a text is the first at which it stands.
pub proof fn law_index_is_the_first(s: Seq<char>, p: Seq<char>, j: int)
    ensures
        index_of_text(s, p) matches Some(i) ==> stands_at(s, p, i) && (stands_at(s, p, j) ==> i
            <= j),
        index_of_text(s, p) is None ==> !stands_at(s, p, j),
    decreases s.len(),
{
    lemma_index_of_text(s, p);
    if stands_at(s, p, j) {
        if starts_with_text(s, p) {
        } else {
            if j == 0 {
                assert(s.subrange(0, p.len() as int) =~= s.take(p.len() as int));
            }
            let t = s.drop_first();
            assert(t.subrange(j - 1, j - 1 + p.len()) =~= s.subrange(j, j + p.len()));
            assert(stands_at(t, p, j - 1));
            law_index_is_the_first(t, p, j - 1);
        }
    }
}

/// What stands after a text is all that follows where it first stands; without it, the
/// whole.
pub proof fn law_after_text_is_what_follows(s: Seq<char>, p: Seq<char>)
    ensures
        match index_of_text(s, p) {
            Some(i) => s == s.take(i) + p + after_text(s, p),
            None => after_text(s, p) == s,
        },
{
    lemma_index_of_text(s, p);
    if index_of_text(s, p) is Some {
        let i = index_of_text(s, p)->0;
        assert(s.subrange(i, i + p.len()) == p);
        assert(s =~= s.take(i) + s.subrange(i, i + p.len()) + s.skip(i + p.len()));
    }
}

/// A number is written without a zero in front, unless it is zero.
pub proof fn law_decimal_has_no_leading_zero(n: nat)
    ensures
        decimal(n).len() > 0,
        n == 0 <==> decimal(n)[0] == '0',
        n < 10 ==> decimal(n).len() == 1,
        n >= 10 ==> decimal(n).len() == decimal(n / 10).len() + 1,
    decreases n,
{
    if n >= 10 {
        law_decimal_has_no_leading_zero(n / 10);
        assert(decimal(n)[0] == decimal(n / 10)[0]);
    }
}

/// Lists of texts are seen item by item, and optional texts as what they hold.
pub proof fn law_texts_are_seen_one_by_one(
    v: Seq<String>,
    p: Seq<(String, String)>,
    o: Option<String>,
    s: Option<&str>,
    i: int,
)
    ensures
        texts(v).len() == v.len(),
        0 <= i < v.len() ==> texts(v)[i] == v[i]@,
        pairs(p).len() == p.len(),
        0 <= i < p.len() ==> pairs(p)[i].0 == p[i].0@ && pairs(p)[i].1 == p[i].1@,
        opt_text(o) is Some <==> o is Some,
        o matches Some(t) ==> opt_text(o)->0 == t@,
        opt_str(s) is Some <==> s is Some,
        s matches Some(t) ==> opt_str(s)->0 == t@,
{
}

} // verus!
