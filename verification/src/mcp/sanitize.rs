//! Tool names that every provider accepts.
//!
//! MCP servers may give a tool any name; providers accept only
//! `^[a-zA-Z0-9_-]{1,128}$`. Names are rewritten to match, and told apart by a
//! numeric suffix where two would become the same.
use vstd::prelude::*;

use crate::text;

verus! {

/// The longest name that providers accept.
pub const MAX_NAME_LEN: usize = 128;

/// `c` is an ASCII letter or digit, `_` or `-`.
pub open spec fn is_name_char(c: char) -> bool {
    let n = c as int;
    ||| 'a' as int <= n <= 'z' as int
    ||| 'A' as int <= n <= 'Z' as int
    ||| '0' as int <= n <= '9' as int
    ||| c == '_'
    ||| c == '-'
}

/// Every character of `s` may stand in a name.
pub open spec fn all_name_chars(s: Seq<char>) -> bool {
    forall|i: int| 0 <= i < s.len() ==> is_name_char(#[trigger] s[i])
}

/// `s` matches `^[a-zA-Z0-9_-]{1,128}$`.
pub open spec fn is_provider_name(s: Seq<char>) -> bool {
    1 <= s.len() <= MAX_NAME_LEN && all_name_chars(s)
}

/// `raw` with `_` for every character that may not stand in a name, cut at the
/// longest length that providers accept.
pub open spec fn sanitized(raw: Seq<char>) -> Seq<char> {
    let len = if raw.len() <= MAX_NAME_LEN {
        raw.len()
    } else {
        MAX_NAME_LEN as nat
    };
    Seq::new(
        len,
        |i: int|
            if is_name_char(raw[i]) {
                raw[i]
            } else {
                '_'
            },
    )
}

/// The name that a tool asks for. A tool without a name asks for one character.
pub open spec fn candidate_name(raw: Seq<char>) -> Seq<char> {
    if raw.len() == 0 {
        "_"@
    } else {
        sanitized(raw)
    }
}

/// What the number `n` puts behind a name.
pub open spec fn suffix(n: nat) -> Seq<char> {
    "_"@ + text::decimal(n)
}

/// `candidate` with the number `n` behind it, cut before it where the two would be too
/// long.
pub open spec fn suffixed(candidate: Seq<char>, n: nat) -> Seq<char> {
    let room = if suffix(n).len() >= MAX_NAME_LEN {
        0
    } else {
        MAX_NAME_LEN - suffix(n).len()
    };
    if candidate.len() <= room {
        candidate + suffix(n)
    } else {
        candidate.take(room) + suffix(n)
    }
}

/// `name` is what `candidate` becomes beside the names in `taken`: the candidate
/// itself where it is free, else the candidate with the first free number from 2 on.
pub open spec fn is_free_name(candidate: Seq<char>, taken: Seq<Seq<char>>, name: Seq<char>) -> bool {
    if !taken.contains(candidate) {
        name == candidate
    } else {
        exists|n: nat|
            {
                &&& 2 <= n
                &&& name == #[trigger] suffixed(candidate, n)
                &&& !taken.contains(name)
                &&& forall|m: nat| 2 <= m < n ==> taken.contains(#[trigger] suffixed(candidate, m))
            }
    }
}

/// `out` holds the names that the tools named `names` get, in order. Providers accept each
/// of them.
pub open spec fn are_tool_names(names: Seq<Seq<char>>, out: Seq<Seq<char>>) -> bool {
    &&& out.len() == names.len()
    &&& forall|i: int|
        0 <= i < names.len() ==> is_free_name(
            candidate_name(names[i]),
            out.take(i),
            #[trigger] out[i],
        )
    &&& forall|i: int| 0 <= i < out.len() ==> is_provider_name(#[trigger] out[i])
}

/// Whether `c` may stand in a name.
fn name_char(c: char) -> (r: bool)
    ensures
        r == is_name_char(c),
{
    let n: u32 = c as u32;
    (97 <= n && n <= 122) || (65 <= n && n <= 90) || (48 <= n && n <= 57) || c == '_' || c == '-'
}

/// Replaces every character outside `[a-zA-Z0-9_-]` by `_` and cuts the name at 128
/// characters.
pub fn sanitize_name(raw: &str) -> (r: String)
    ensures
        r@ == sanitized(raw@),
{
    let cs = text::chars_of(raw);
    let len: usize = if cs.len() <= MAX_NAME_LEN {
        cs.len()
    } else {
        MAX_NAME_LEN
    };
    let mut out = String::new();
    let mut i: usize = 0;
    while i < len
        invariant
            i <= len <= cs.len(),
            cs@ == raw@,
            len == sanitized(raw@).len(),
            out@ =~= sanitized(raw@).take(i as int),
        decreases len - i,
    {
        let c: char = cs[i];
        if name_char(c) {
            out.push(c);
        } else {
            out.push('_');
        }
        i = i + 1;
    }
    assert(sanitized(raw@).take(len as int) =~= sanitized(raw@));
    out
}

/// The suffixed names with the numbers from 2 up to `n`, exclusively.
spec fn suffixed_below(candidate: Seq<char>, n: nat) -> Set<Seq<char>>
    decreases n,
{
    if n <= 2 {
        Set::empty()
    } else {
        suffixed_below(candidate, (n - 1) as nat).insert(suffixed(candidate, (n - 1) as nat))
    }
}

/// Different numbers give different names.
proof fn lemma_suffixed_injective(candidate: Seq<char>, m: nat, n: nat)
    requires
        suffixed(candidate, m) == suffixed(candidate, n),
    ensures
        m == n,
{
    reveal_strlit("_");
    text::lemma_decimal(m);
    text::lemma_decimal(n);
    let s = suffixed(candidate, m);
    let dm = text::decimal(m);
    let dn = text::decimal(n);
    let at_m = s.len() - dm.len() - 1;
    let at_n = s.len() - dn.len() - 1;
    assert(s[at_m] == '_' && s.skip(at_m + 1) =~= dm);
    assert(s[at_n] == '_' && s.skip(at_n + 1) =~= dn);
    if at_m > at_n {
        assert(s[at_m] == dn[at_m - at_n - 1]);
    } else if at_n > at_m {
        assert(s[at_n] == dm[at_n - at_m - 1]);
    }
}

/// A number of ten digits at most leaves a name that providers accept one that they accept.
proof fn lemma_suffixed_is_accepted(candidate: Seq<char>, n: nat)
    requires
        is_provider_name(candidate),
        n <= u32::MAX,
    ensures
        is_provider_name(suffixed(candidate, n)),
{
    reveal_strlit("_");
    text::lemma_decimal(n);
    reveal_with_fuel(text::ten_to, 11);
    text::lemma_decimal_len(n, 10);
    let s = suffixed(candidate, n);
    let k = s.len() - suffix(n).len();
    assert forall|i: int| 0 <= i < s.len() implies is_name_char(#[trigger] s[i]) by {
        if i < k {
            assert(s[i] == candidate[i]);
        } else if i > k {
            assert(s[i] == text::decimal(n)[i - k - 1]);
        }
    }
}

/// There are as many suffixed names as numbers.
proof fn lemma_suffixed_below(candidate: Seq<char>, n: nat)
    ensures
        suffixed_below(candidate, n).finite(),
        suffixed_below(candidate, n).len() == if n <= 2 {
            0
        } else {
            (n - 2) as nat
        },
        forall|s: Seq<char>|
            suffixed_below(candidate, n).contains(s) ==> exists|m: nat|
                2 <= m < n && s == #[trigger] suffixed(candidate, m),
    decreases n,
{
    if n > 2 {
        let k = (n - 1) as nat;
        lemma_suffixed_below(candidate, k);
        if suffixed_below(candidate, k).contains(suffixed(candidate, k)) {
            let m = choose|m: nat|
                2 <= m < k && suffixed(candidate, k) == #[trigger] suffixed(candidate, m);
            lemma_suffixed_injective(candidate, k, m);
        }
        assert forall|s: Seq<char>| suffixed_below(candidate, n).contains(s) implies exists|m: nat|
            2 <= m < n && s == #[trigger] suffixed(candidate, m) by {
            if s == suffixed(candidate, k) {
            } else {
                assert(suffixed_below(candidate, k).contains(s));
            }
        }
    }
}

/// Only as many numbers can be taken as there are names.
proof fn lemma_taken_numbers(candidate: Seq<char>, taken: Seq<Seq<char>>, n: nat)
    requires
        forall|m: nat| 2 <= m < n ==> taken.contains(#[trigger] suffixed(candidate, m)),
    ensures
        n <= taken.len() + 2,
{
    lemma_suffixed_below(candidate, n);
    let set = suffixed_below(candidate, n);
    assert forall|s: Seq<char>| set.contains(s) implies taken.to_set().contains(s) by {
        let m = choose|m: nat| 2 <= m < n && s == #[trigger] suffixed(candidate, m);
        assert(taken.contains(suffixed(candidate, m)));
    }
    vstd::seq_lib::seq_to_set_is_finite(taken);
    vstd::set_lib::lemma_len_subset(set, taken.to_set());
    taken.lemma_cardinality_of_set();
}

/// Takes `candidate`, or the candidate with the first free number behind it.
pub fn dedupe(candidate: &str, taken: &mut Vec<String>) -> (r: String)
    requires
        old(taken)@.len() <= u32::MAX - 2,
    ensures
        is_free_name(candidate@, text::texts(old(taken)@), r@),
        is_provider_name(candidate@) ==> is_provider_name(r@),
        text::texts(final(taken)@) == text::texts(old(taken)@).push(r@),
{
    let ghost before = text::texts(taken@);
    if !text::list_contains(taken, candidate) {
        let name = candidate.to_owned();
        proof {
            text::lemma_texts_push(taken@, name);
        }
        taken.push(name.clone());
        return name;
    }
    let cs = text::chars_of(candidate);
    let mut n: u32 = 2;
    loop
        invariant
            2 <= n,
            n <= taken@.len() + 2,
            taken@.len() <= u32::MAX - 2,
            before == text::texts(taken@),
            before == text::texts(old(taken)@),
            before.contains(candidate@),
            cs@ == candidate@,
            forall|m: nat| 2 <= m < n ==> before.contains(#[trigger] suffixed(candidate@, m)),
        decreases taken@.len() + 2 - n,
    {
        let number = text::format_u64(n as u64);
        let digits: usize = text::chars_of(number.as_str()).len();
        proof {
            reveal_strlit("_");
            reveal_with_fuel(text::ten_to, 11);
            text::lemma_decimal_len(n as nat, 10);
        }
        let room: usize = MAX_NAME_LEN - 1 - digits;
        let kept: usize = if cs.len() <= room {
            cs.len()
        } else {
            room
        };
        let mut name = text::string_between(&cs, 0, kept);
        name.append("_");
        name.append(number.as_str());
        assert(name@ =~= suffixed(candidate@, n as nat));
        if !text::list_contains(taken, name.as_str()) {
            proof {
                text::lemma_texts_push(taken@, name);
                if is_provider_name(candidate@) {
                    lemma_suffixed_is_accepted(candidate@, n as nat);
                }
            }
            taken.push(name.clone());
            return name;
        }
        proof {
            lemma_taken_numbers(candidate@, before, (n + 1) as nat);
        }
        n = n + 1;
    }
}

/// The names that tools get, in order. A tool whose new name is its own keeps it.
pub fn apply(names: &Vec<String>) -> (r: Vec<String>)
    requires
        names@.len() <= u32::MAX - 2,
    ensures
        are_tool_names(text::texts(names@), text::texts(r@)),
{
    let mut out: Vec<String> = Vec::new();
    let mut i: usize = 0;
    while i < names.len()
        invariant
            i <= names.len() <= u32::MAX - 2,
            out@.len() == i,
            are_tool_names(text::texts(names@).take(i as int), text::texts(out@)),
        decreases names.len() - i,
    {
        let raw: &str = names[i].as_str();
        let candidate = if text::str_eq(raw, "") {
            String::from_str("_")
        } else {
            sanitize_name(raw)
        };
        proof {
            reveal_strlit("");
            reveal_strlit("_");
            law_candidate_is_accepted(raw@);
            assert(raw@.len() == 0 ==> raw@ =~= ""@);
        }
        let ghost before = text::texts(out@);
        let name = dedupe(candidate.as_str(), &mut out);
        proof {
            let after = text::texts(out@);
            assert(after.len() == out@.len());
            let upto = text::texts(names@).take(i + 1);
            assert forall|j: int| 0 <= j < upto.len() implies is_free_name(
                candidate_name(upto[j]),
                after.take(j),
                #[trigger] after[j],
            ) by {
                assert(after.take(j) =~= before.take(j));
                if j < i {
                    assert(after[j] == before[j]);
                    assert(upto[j] == text::texts(names@).take(i as int)[j]);
                } else {
                    assert(before.take(j) =~= before);
                }
            }
        }
        i = i + 1;
    }
    assert(text::texts(names@).take(names@.len() as int) =~= text::texts(names@));
    out
}

/// Whatever a tool is called, providers accept the name that it asks for.
pub proof fn law_candidate_is_accepted(raw: Seq<char>)
    ensures
        is_provider_name(candidate_name(raw)),
{
    reveal_strlit("_");
}

/// A rewritten name matches the provider pattern; only the empty name cannot.
pub proof fn law_sanitized_matches_pattern(raw: Seq<char>)
    requires
        raw.len() > 0,
    ensures
        is_provider_name(sanitized(raw)),
{
}

/// A name that providers accept passes through.
pub proof fn law_compliant_name_passes_through(raw: Seq<char>)
    requires
        is_provider_name(raw),
    ensures
        sanitized(raw) == raw,
{
    assert(sanitized(raw) =~= raw);
}

/// No two tools get the same name, and providers accept every name.
pub proof fn law_tool_names_are_distinct(names: Seq<Seq<char>>, out: Seq<Seq<char>>)
    requires
        are_tool_names(names, out),
    ensures
        out.no_duplicates(),
        forall|i: int| 0 <= i < out.len() ==> is_provider_name(#[trigger] out[i]),
{
    assert forall|i: int, j: int| 0 <= i < j < out.len() implies out[i] != out[j] by {
        assert(is_free_name(candidate_name(names[j]), out.take(j), out[j]));
        assert(out.take(j)[i] == out[i]);
        assert(out.take(j).contains(out[i]));
    }
}

/// Where the tools ask for different names, every tool gets the name that it asks for.
pub proof fn law_no_collision_no_suffix(names: Seq<Seq<char>>, out: Seq<Seq<char>>)
    requires
        are_tool_names(names, out),
        names.map_values(|n: Seq<char>| candidate_name(n)).no_duplicates(),
    ensures
        out == names.map_values(|n: Seq<char>| candidate_name(n)),
{
    let want = names.map_values(|n: Seq<char>| candidate_name(n));
    lemma_no_collision_prefix(names, out, out.len() as int);
    assert(out =~= want);
}

proof fn lemma_no_collision_prefix(names: Seq<Seq<char>>, out: Seq<Seq<char>>, k: int)
    requires
        are_tool_names(names, out),
        names.map_values(|n: Seq<char>| candidate_name(n)).no_duplicates(),
        0 <= k <= out.len(),
    ensures
        forall|i: int| 0 <= i < k ==> #[trigger] out[i] == candidate_name(names[i]),
    decreases k,
{
    if k > 0 {
        lemma_no_collision_prefix(names, out, k - 1);
        let want = names.map_values(|n: Seq<char>| candidate_name(n));
        let c = candidate_name(names[k - 1]);
        assert(is_free_name(c, out.take(k - 1), out[k - 1]));
        if out.take(k - 1).contains(c) {
            let i = choose|i: int| 0 <= i < k - 1 && #[trigger] out.take(k - 1)[i] == c;
            assert(out[i] == candidate_name(names[i]));
            assert(want[i] == want[k - 1]);
        }
    }
}

/// Only characters that may not stand in a name are replaced, each by `_`, and only what is
/// too long is cut.
pub proof fn law_only_bad_characters_change(raw: Seq<char>, i: int)
    ensures
        sanitized(raw).len() == if raw.len() < 128 {
            raw.len()
        } else {
            128
        },
        0 <= i < sanitized(raw).len() && is_name_char(raw[i]) ==> sanitized(raw)[i] == raw[i],
        0 <= i < sanitized(raw).len() && !is_name_char(raw[i]) ==> sanitized(raw)[i] == '_',
{
}

/// The first tool that asks for a name gets it, whoever asks for it later.
pub proof fn law_first_to_ask_gets_the_name(names: Seq<Seq<char>>, out: Seq<Seq<char>>)
    requires
        are_tool_names(names, out),
        names.len() > 0,
    ensures
        out[0] == candidate_name(names[0]),
        names[0].len() > 0 ==> out[0] == sanitized(names[0]),
{
    assert(is_free_name(candidate_name(names[0]), out.take(0), out[0]));
}

/// A number stands at the end of the name, behind as much of it as there is room for.
pub proof fn law_number_stands_behind_the_name(candidate: Seq<char>, n: nat)
    ensures
        text::ends_with_text(suffixed(candidate, n), "_"@ + text::decimal(n)),
        candidate.len() + suffix(n).len() <= 128 ==> text::starts_with_text(
            suffixed(candidate, n),
            candidate,
        ),
        suffix(n).len() <= 128 ==> suffixed(candidate, n).len() <= 128,
{
    let name = suffixed(candidate, n);
    assert(name.skip(name.len() - suffix(n).len()) =~= suffix(n));
    if candidate.len() + suffix(n).len() <= 128 {
        assert(name.take(candidate.len() as int) =~= candidate);
    }
}

/// A name that is taken gets the first number from 2 on that is free.
pub proof fn law_first_free_number_is_taken(
    candidate: Seq<char>,
    taken: Seq<Seq<char>>,
    name: Seq<char>,
)
    requires
        is_free_name(candidate, taken, name),
    ensures
        !taken.contains(name),
        !taken.contains(candidate) ==> name == candidate,
        taken.contains(candidate) ==> exists|n: nat|
            2 <= n && name == #[trigger] suffixed(candidate, n) && forall|m: nat|
                2 <= m < n ==> taken.contains(#[trigger] suffixed(candidate, m)),
{
}

} // verus!
