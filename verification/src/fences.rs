//! Code fences around a model's answer.
use vstd::prelude::*;

use crate::text;

verus! {

/// `s` without an opening fence, with or without the word `json`, and what white space
/// follows it.
pub open spec fn without_opening(s: Seq<char>) -> Seq<char> {
    text::trim_start_of(
        if text::starts_with_text(s, "```json"@) {
            s.skip("```json"@.len() as int)
        } else if text::starts_with_text(s, "```"@) {
            s.skip("```"@.len() as int)
        } else {
            s
        },
    )
}

/// `s` without its fences.
pub open spec fn unfenced(s: Seq<char>) -> Seq<char> {
    let body = without_opening(s);
    if text::ends_with_text(body, "```"@) {
        body.take(body.len() - "```"@.len())
    } else {
        body
    }
}

/// What stands between the fences of an answer, without white space around it.
pub open spec fn answer_body(s: Seq<char>) -> Seq<char> {
    text::trim_of(unfenced(text::trim_of(s)))
}

/// A text without its fences.
pub fn strip_code_fence(s: &str) -> (r: String)
    ensures
        r@ == unfenced(s@),
{
    let opened: String = match text::strip_prefix(s, "```json") {
        Some(rest) => rest,
        None => match text::strip_prefix(s, "```") {
            Some(rest) => rest,
            None => String::from_str(s),
        },
    };
    let body = text::trim_start(opened.as_str());
    match text::strip_suffix(body.as_str(), "```") {
        Some(rest) => rest,
        None => body,
    }
}

/// What stands between the fences of an answer.
pub fn body_of(s: &str) -> (r: String)
    ensures
        r@ == answer_body(s@),
{
    let trimmed = text::trim(s);
    let bare = strip_code_fence(trimmed.as_str());
    text::trim(bare.as_str())
}

/// The JSON text in an answer, if there is anything in it.
pub fn json_in(answer: &str) -> (r: Option<String>)
    ensures
        match r {
            Some(body) => body@ == answer_body(answer@) && body@.len() > 0,
            None => answer_body(answer@).len() == 0,
        },
{
    let body = body_of(answer);
    if text::chars_of(body.as_str()).len() == 0 {
        None
    } else {
        Some(body)
    }
}

/// White space in front of a text that has none is all that is trimmed.
proof fn lemma_trim_one(c: char, s: Seq<char>)
    requires
        text::is_white_space(c),
        s.len() > 0,
        !text::is_white_space(s[0]),
    ensures
        text::trim_start_of(seq![c] + s) == s,
{
    let all = seq![c] + s;
    assert(all.drop_first() =~= s);
    assert(text::trim_start_of(s) == s);
}

/// A fence around a text comes off, and the text comes out as it was.
pub proof fn law_fence_comes_off(body: Seq<char>)
    requires
        body.len() > 0,
        text::trim_of(body) == body,
    ensures
        answer_body("```json"@ + seq!['\n'] + body + seq!['\n'] + "```"@) == body,
        answer_body("```"@ + seq!['\n'] + body + seq!['\n'] + "```"@) == body,
{
    reveal_strlit("```json");
    reveal_strlit("```");
    lemma_untrimmed(body);
    let after = body + seq!['\n'] + "```"@;
    let long = "```json"@ + seq!['\n'] + body + seq!['\n'] + "```"@;
    let short = "```"@ + seq!['\n'] + body + seq!['\n'] + "```"@;
    assert(text::trim_of(long) == long);
    assert(text::trim_of(short) == short);
    assert(long.skip(7) =~= seq!['\n'] + after);
    assert(short.skip(3) =~= seq!['\n'] + after);
    assert(long.take(7) =~= "```json"@);
    assert(short.take(3) =~= "```"@);
    assert(short.take(7)[3] == '\n');
    assert("```json"@[3] == 'j');
    lemma_trim_one('\n', after);
    assert(after.skip(after.len() - 3) =~= "```"@);
    assert(after.take(after.len() - 3) =~= body.push('\n'));
    let rest = body.push('\n');
    assert(text::trim_start_of(rest) == rest);
    assert(rest.drop_last() =~= body);
    assert(text::trim_end_of(body) == body);
}

/// A trimmed text begins and ends with no white space.
pub proof fn lemma_untrimmed(s: Seq<char>)
    requires
        s.len() > 0,
        text::trim_of(s) == s,
    ensures
        !text::is_white_space(s[0]),
        !text::is_white_space(s.last()),
{
    text::lemma_trim_start(s);
    text::lemma_trim_end(text::trim_start_of(s));
    if text::is_white_space(s[0]) {
        assert(text::trim_start_of(s).len() <= s.drop_first().len()) by {
            text::lemma_trim_start(s.drop_first());
        }
    }
}

/// A text without fences is only trimmed.
pub proof fn law_plain_answer_is_trimmed(s: Seq<char>)
    requires
        !text::starts_with_text(text::trim_of(s), "```"@),
        !text::ends_with_text(text::trim_of(s), "```"@),
    ensures
        answer_body(s) == text::trim_of(s),
{
    reveal_strlit("```json");
    reveal_strlit("```");
    let t = text::trim_of(s);
    text::lemma_trim_idempotent(s);
    if text::starts_with_text(t, "```json"@) {
        assert(t.take(3) =~= t.take(7).take(3));
        assert("```json"@.take(3) =~= "```"@);
    }
    if t.len() > 0 {
        lemma_untrimmed(t);
    }
}

/// A fence that was opened and never closed comes off as well, and so does one that was
/// closed and never opened.
pub proof fn law_half_a_fence_comes_off(body: Seq<char>)
    requires
        body.len() > 0,
        text::trim_of(body) == body,
        !text::starts_with_text(body, "```"@),
        !text::ends_with_text(body, "```"@),
    ensures
        answer_body("```json"@ + seq!['\n'] + body) == body,
        answer_body(body + seq!['\n'] + "```"@) == body,
{
    reveal_strlit("```json");
    reveal_strlit("```");
    lemma_untrimmed(body);
    let opened = "```json"@ + seq!['\n'] + body;
    assert(opened.last() == body.last());
    assert(text::trim_of(opened) == opened);
    assert(opened.take(7) =~= "```json"@);
    assert(opened.skip(7) =~= seq!['\n'] + body);
    lemma_trim_one('\n', body);
    assert(unfenced(opened) == body);
    let closed = body + seq!['\n'] + "```"@;
    assert(text::trim_of(closed) == closed);
    assert(!text::starts_with_text(closed, "```"@)) by {
        if text::starts_with_text(closed, "```"@) {
            assert(closed.take(3)[0] == '`' && closed.take(3)[1] == '`' && closed.take(3)[2] == '`');
            if body.len() >= 3 {
                assert(body.take(3) =~= closed.take(3));
            } else {
                assert(closed.take(3)[body.len() as int] == '\n');
            }
        }
    }
    assert(!text::starts_with_text(closed, "```json"@)) by {
        if text::starts_with_text(closed, "```json"@) {
            assert(closed.take(7) == "```json"@);
            assert forall|i: int| 0 <= i < 3 implies closed[i] == '`' by {
                assert(closed.take(7)[i] == "```json"@[i]);
            }
            assert(closed.take(3) =~= "```"@);
        }
    }
    assert(text::trim_start_of(closed) == closed);
    assert(closed.skip(closed.len() - 3) =~= "```"@);
    let padded = body.push('\n');
    assert(closed.take(closed.len() - 3) =~= padded);
    assert(unfenced(closed) == padded);
    assert(text::trim_start_of(padded) == padded);
    assert(padded.drop_last() =~= body);
    assert(text::trim_end_of(body) == body);
}

} // verus!
