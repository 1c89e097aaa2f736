//! Times, spans and counts as an administrator reads them.
use vstd::prelude::*;

use crate::text;

verus! {

/// `a - b`, and 0 where `b` is greater.
pub open spec fn since(a: u64, b: u64) -> nat {
    if a > b {
        (a - b) as nat
    } else {
        0
    }
}

/// How long ago a moment was, in its largest unit.
pub open spec fn ago(seconds: u64, now: u64) -> Seq<char> {
    let diff = since(now, seconds);
    if diff < 60 {
        "just now"@
    } else if diff < 3600 {
        text::decimal(diff / 60) + "m ago"@
    } else if diff < 86_400 {
        text::decimal(diff / 3600) + "h ago"@
    } else {
        text::decimal(diff / 86_400) + "d ago"@
    }
}

/// A number with a unit behind it.
fn with_unit(n: u64, unit: &str) -> (r: String)
    ensures
        r@ == text::decimal(n as nat) + unit@,
{
    let mut out = text::format_u64(n);
    out.append(unit);
    out
}

/// How long ago a moment was.
pub fn relative_time(seconds: u64, now: u64) -> (r: String)
    ensures
        r@ == ago(seconds, now),
{
    let diff: u64 = if now > seconds {
        now - seconds
    } else {
        0
    };
    if diff < 60 {
        String::from_str("just now")
    } else if diff < 3600 {
        with_unit(diff / 60, "m ago")
    } else if diff < 86_400 {
        with_unit(diff / 3600, "h ago")
    } else {
        with_unit(diff / 86_400, "d ago")
    }
}

/// A number with its unit, and behind it a smaller number with its own unless that is
/// zero.
pub open spec fn two_units(big: nat, big_unit: Seq<char>, small: nat, small_unit: Seq<char>) -> Seq<
    char,
> {
    if small > 0 {
        text::decimal(big) + big_unit + " "@ + text::decimal(small) + small_unit
    } else {
        text::decimal(big) + big_unit
    }
}

/// The span between two moments, in its two largest units.
pub open spec fn span(first: u64, last: u64) -> Seq<char> {
    let diff = since(last, first);
    let minutes = diff / 60;
    let hours = minutes / 60;
    let days = hours / 24;
    if diff < 60 {
        "< 1m"@
    } else if days > 0 {
        two_units(days, "d"@, hours % 24, "h"@)
    } else if hours > 0 {
        two_units(hours, "h"@, minutes % 60, "m"@)
    } else {
        text::decimal(minutes) + "m"@
    }
}

fn in_two_units(big: u64, big_unit: &str, small: u64, small_unit: &str) -> (r: String)
    ensures
        r@ == two_units(big as nat, big_unit@, small as nat, small_unit@),
{
    let mut out = with_unit(big, big_unit);
    if small > 0 {
        out.append(" ");
        out.append(text::format_u64(small).as_str());
        out.append(small_unit);
    }
    out
}

/// The span between two moments.
pub fn format_duration(first: u64, last: u64) -> (r: String)
    ensures
        r@ == span(first, last),
{
    let diff: u64 = if last > first {
        last - first
    } else {
        0
    };
    if diff < 60 {
        return String::from_str("< 1m");
    }
    let minutes: u64 = diff / 60;
    let hours: u64 = minutes / 60;
    let days: u64 = hours / 24;
    if days > 0 {
        in_two_units(days, "d", hours % 24, "h")
    } else if hours > 0 {
        in_two_units(hours, "h", minutes % 60, "m")
    } else {
        with_unit(minutes, "m")
    }
}

/// Digits with a comma in front of every third from the right, but not in front of the
/// first: `s` are the leading digits of a number, and `behind` more digits follow.
pub open spec fn grouped(s: Seq<char>, behind: nat) -> Seq<char>
    decreases s.len(),
{
    if s.len() == 0 {
        Seq::empty()
    } else {
        let front = grouped(s.drop_last(), behind + 1);
        if s.len() > 1 && (behind + 1) % 3 == 0 {
            front + seq![',', s.last()]
        } else {
            front + seq![s.last()]
        }
    }
}

/// A count with commas between the thousands.
pub fn format_tokens(n: u64) -> (r: String)
    ensures
        r@ == grouped(text::decimal(n as nat), 0),
{
    let digits = text::chars_of(text::format_u64(n).as_str());
    let len: usize = digits.len();
    let mut out = String::new();
    let mut i: usize = 0;
    assert(out@ =~= grouped(digits@.take(0), (len - 0) as nat));
    while i < len
        invariant
            i <= len == digits@.len(),
            out@ == grouped(digits@.take(i as int), (len - i) as nat),
        decreases len - i,
    {
        let ghost before = out@;
        if i > 0 && (len - i) % 3 == 0 {
            out.push(',');
        }
        out.push(digits[i]);
        proof {
            let next = digits@.take(i + 1);
            assert(next.drop_last() =~= digits@.take(i as int));
            assert(next.last() == digits@[i as int]);
            let behind = (len - (i + 1)) as nat;
            assert(behind + 1 == len - i);
            assert(out@ =~= grouped(next, behind));
        }
        i = i + 1;
    }
    assert(digits@.take(i as int) =~= digits@);
    out
}

/// `s` without its commas.
pub open spec fn without_commas(s: Seq<char>) -> Seq<char>
    decreases s.len(),
{
    if s.len() == 0 {
        Seq::empty()
    } else if s.last() == ',' {
        without_commas(s.drop_last())
    } else {
        without_commas(s.drop_last()).push(s.last())
    }
}

proof fn lemma_grouped(s: Seq<char>, behind: nat)
    requires
        forall|i: int| 0 <= i < s.len() ==> #[trigger] s[i] != ',',
    ensures
        without_commas(grouped(s, behind)) == s,
    decreases s.len(),
{
    if s.len() > 0 {
        let front = grouped(s.drop_last(), behind + 1);
        lemma_grouped(s.drop_last(), behind + 1);
        assert(s.drop_last().push(s.last()) =~= s);
        if s.len() > 1 && (behind + 1) % 3 == 0 {
            let all = front + seq![',', s.last()];
            assert(all.drop_last() =~= front.push(','));
            assert(front.push(',').drop_last() =~= front);
            assert(without_commas(front.push(',')) == without_commas(front));
            assert(all.last() == s[s.len() - 1]);
            assert(without_commas(all) == without_commas(front).push(s.last()));
        } else {
            let all = front + seq![s.last()];
            assert(all.drop_last() =~= front);
            assert(all.last() == s[s.len() - 1]);
            assert(without_commas(all) == without_commas(front).push(s.last()));
        }
    } else {
        assert(s =~= Seq::empty());
    }
}

/// A moment is told by the whole days that have passed since, and within a day by the
/// hours, and within an hour by the minutes; within a minute, or before its time, it is
/// just now.
pub proof fn law_ago_counts_whole_units(seconds: u64, now: u64, n: nat)
    ensures
        now < seconds + 60 ==> ago(seconds, now) == "just now"@,
        1 <= n < 60 && seconds + 60 * n <= now < seconds + 60 * n + 60 ==> ago(seconds, now)
            == text::decimal(n) + "m ago"@,
        1 <= n < 24 && seconds + 3600 * n <= now < seconds + 3600 * n + 3600 ==> ago(seconds, now)
            == text::decimal(n) + "h ago"@,
        1 <= n && seconds + 86_400 * n <= now < seconds + 86_400 * n + 86_400 ==> ago(seconds, now)
            == text::decimal(n) + "d ago"@,
{
}

/// A span is told by its days and the hours left over, within a day by its hours and the
/// minutes left over, and within an hour by its minutes. What is left over goes unsaid
/// where it is none.
pub proof fn law_span_counts_two_units(first: u64, last: u64, big: nat, small: nat, rest: nat)
    ensures
        last < first + 60 ==> span(first, last) == "< 1m"@,
        1 <= big && small < 24 && rest < 3600 && last == first + 86_400 * big + 3600 * small + rest
            ==> span(first, last) == if small == 0 {
            text::decimal(big) + "d"@
        } else {
            text::decimal(big) + "d"@ + " "@ + text::decimal(small) + "h"@
        },
        1 <= big < 24 && small < 60 && rest < 60 && last == first + 3600 * big + 60 * small + rest
            ==> span(first, last) == if small == 0 {
            text::decimal(big) + "h"@
        } else {
            text::decimal(big) + "h"@ + " "@ + text::decimal(small) + "m"@
        },
        1 <= small < 60 && rest < 60 && last == first + 60 * small + rest ==> span(first, last)
            == text::decimal(small) + "m"@,
{
    let diff = since(last, first);
    let minutes = diff / 60;
    let hours = minutes / 60;
    if 1 <= big && small < 24 && rest < 3600 && last == first + 86_400 * big + 3600 * small + rest {
        assert(minutes == 1440 * big + 60 * small + rest / 60);
        assert(rest / 60 < 60);
        assert(hours == 24 * big + small);
        assert(hours / 24 == big && hours % 24 == small);
    } else if 1 <= big < 24 && small < 60 && rest < 60 && last == first + 3600 * big + 60 * small
        + rest {
        assert(minutes == 60 * big + small);
        assert(hours == big && minutes % 60 == small);
        assert(hours / 24 == 0);
    } else if 1 <= small < 60 && rest < 60 && last == first + 60 * small + rest {
        assert(minutes == small);
        assert(hours == 0);
    }
}

proof fn lemma_grouped_by_three(s: Seq<char>, behind: nat)
    ensures
        grouped(s, behind + 3) == grouped(s, behind),
    decreases s.len(),
{
    if s.len() > 0 {
        lemma_grouped_by_three(s.drop_last(), behind + 1);
    }
}

/// The last three digits of a count stand behind a comma, and what is in front of them is
/// written as a count of its own; up to three digits stand alone.
pub proof fn law_commas_stand_at_thousands(n: nat)
    ensures
        n < 1000 ==> grouped(text::decimal(n), 0) == text::decimal(n),
        n >= 1000 ==> grouped(text::decimal(n), 0) == grouped(text::decimal(n / 1000), 0)
            + seq![
            ',',
            text::digit_char(n / 100 % 10),
            text::digit_char(n / 10 % 10),
            text::digit_char(n % 10),
        ],
{
    reveal_with_fuel(text::decimal, 4);
    reveal_with_fuel(grouped, 5);
    if n < 1000 {
        assert(grouped(text::decimal(n), 0) =~= text::decimal(n));
    } else {
        let front = text::decimal(n / 1000);
        let a = text::digit_char(n / 100 % 10);
        let b = text::digit_char(n / 10 % 10);
        let c = text::digit_char(n % 10);
        assert(n / 10 / 10 == n / 100);
        assert(n / 10 / 10 / 10 == n / 1000);
        text::lemma_decimal(n / 1000);
        assert(front.len() > 0);
        let s = text::decimal(n);
        assert(s =~= front.push(a).push(b).push(c));
        assert(s.drop_last() =~= front.push(a).push(b));
        assert(front.push(a).push(b).drop_last() =~= front.push(a));
        assert(front.push(a).drop_last() =~= front);
        lemma_grouped_by_three(front, 0);
        assert(grouped(s, 0) =~= grouped(front, 0) + seq![',', a, b, c]);
    }
}

/// The commas in a count change nothing but its looks: without them it is the number.
pub proof fn law_commas_keep_the_number(n: nat)
    ensures
        without_commas(grouped(text::decimal(n), 0)) == text::decimal(n),
{
    text::lemma_decimal(n);
    let s = text::decimal(n);
    assert forall|i: int| 0 <= i < s.len() implies #[trigger] s[i] != ',' by {
        assert(text::is_digit(s[i]));
    }
    lemma_grouped(s, 0);
}

/// What has passed is counted from the earlier moment; before it nothing has.
pub proof fn law_since_counts_what_passed(earlier: u64, passed: nat, later: u64)
    ensures
        later == earlier + passed ==> since(later, earlier) == passed,
        later <= earlier ==> since(later, earlier) == 0,
{
}

} // verus!
