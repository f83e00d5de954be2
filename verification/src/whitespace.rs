//! Whitespace: which characters it is, trimming it from the ends of a text,
//! and the words that it separates.

use vstd::prelude::*;

verus! {

/// Whether `c` is whitespace: one of the 25 code points that carry the Unicode
/// `White_Space` property. In specifications `is_whitespace` stands for it.
pub open spec fn spec_is_whitespace(c: char) -> bool {
    ||| '\u{9}' <= c <= '\u{d}'
    ||| c == ' '
    ||| c == '\u{85}'
    ||| c == '\u{a0}'
    ||| c == '\u{1680}'
    ||| '\u{2000}' <= c <= '\u{200a}'
    ||| c == '\u{2028}'
    ||| c == '\u{2029}'
    ||| c == '\u{202f}'
    ||| c == '\u{205f}'
    ||| c == '\u{3000}'
}

/// Whether every character of `s` is whitespace.
pub open spec fn all_whitespace(s: Seq<char>) -> bool {
    forall|i: int| 0 <= i < s.len() ==> is_whitespace(#[trigger] s[i])
}

/// The number of whitespace characters at the front of `s`.
pub open spec fn leading_whitespace(s: Seq<char>) -> nat
    decreases s.len(),
{
    if s.len() > 0 && is_whitespace(s.first()) {
        1 + leading_whitespace(s.drop_first())
    } else {
        0
    }
}

/// The number of whitespace characters at the back of `s`.
pub open spec fn trailing_whitespace(s: Seq<char>) -> nat
    decreases s.len(),
{
    if s.len() > 0 && is_whitespace(s.last()) {
        1 + trailing_whitespace(s.drop_last())
    } else {
        0
    }
}

/// `s` without the whitespace at its front and at its back. A sequence of
/// whitespace alone trims to the empty sequence.
pub open spec fn trim(s: Seq<char>) -> Seq<char> {
    let rest = s.skip(leading_whitespace(s) as int);
    rest.take(rest.len() - trailing_whitespace(rest))
}

/// The position at which the run of characters other than whitespace that
/// ends `s` begins. It is the length of `s` where `s` ends in whitespace or
/// is empty.
pub open spec fn last_word_start(s: Seq<char>) -> int
    decreases s.len(),
{
    if s.len() > 0 && !is_whitespace(s.last()) {
        last_word_start(s.drop_last())
    } else {
        s.len() as int
    }
}

/// The whitespace-separated words of `s`: its longest runs of characters
/// other than whitespace, in order.
pub open spec fn whitespace_words(s: Seq<char>) -> Seq<Seq<char>>
    decreases s.len(),
    via whitespace_words_decreases
{
    if s.len() == 0 {
        Seq::empty()
    } else if is_whitespace(s.last()) {
        whitespace_words(s.drop_last())
    } else {
        let start = last_word_start(s);
        whitespace_words(s.take(start)).push(s.skip(start))
    }
}

#[via_fn]
proof fn whitespace_words_decreases(s: Seq<char>) {
    lemma_last_word_start(s);
}

/// Tells whether `c` is whitespace.
#[verifier::when_used_as_spec(spec_is_whitespace)]
pub fn is_whitespace(c: char) -> (b: bool)
    ensures
        b == spec_is_whitespace(c),
{
    ('\u{9}' <= c && c <= '\u{d}') || c == ' ' || c == '\u{85}' || c == '\u{a0}' || c == '\u{1680}'
        || ('\u{2000}' <= c && c <= '\u{200a}') || c == '\u{2028}' || c == '\u{2029}' || c
        == '\u{202f}' || c == '\u{205f}' || c == '\u{3000}'
}

/// Returns the range of positions of `chars` that `trim` keeps: it starts
/// behind the leading whitespace and ends before the trailing whitespace of
/// what is left.
pub fn trim_range(chars: &Vec<char>) -> (range: (usize, usize))
    ensures
        range.0 <= range.1 <= chars.len(),
        range.0 == leading_whitespace(chars@),
        range.1 == chars.len() - trailing_whitespace(chars@.skip(range.0 as int)),
        chars@.subrange(range.0 as int, range.1 as int) == trim(chars@),
{
    let mut start: usize = 0;
    while start < chars.len() && is_whitespace(chars[start])
        invariant
            start <= chars.len(),
            forall|i: int| 0 <= i < start ==> is_whitespace(#[trigger] chars@[i]),
        decreases chars.len() - start,
    {
        start += 1;
    }
    let mut end: usize = chars.len();
    while start < end && is_whitespace(chars[end - 1])
        invariant
            start <= end <= chars.len(),
            forall|i: int| end <= i < chars.len() ==> is_whitespace(#[trigger] chars@[i]),
        decreases end,
    {
        end -= 1;
    }
    proof {
        let rest = chars@.skip(start as int);
        lemma_leading_whitespace(chars@);
        lemma_trailing_whitespace(rest);
        let kept = rest.len() - trailing_whitespace(rest);
        assert(kept == end - start) by {
            if kept < end - start {
                assert(rest[end - start - 1] == chars@[end - 1]);
            }
        }
    }
    (start, end)
}

/// The leading whitespace of `s` is whitespace, and what follows it, if
/// anything does, is not.
pub proof fn lemma_leading_whitespace(s: Seq<char>)
    ensures
        leading_whitespace(s) <= s.len(),
        forall|i: int| 0 <= i < leading_whitespace(s) ==> is_whitespace(#[trigger] s[i]),
        leading_whitespace(s) < s.len() ==> !is_whitespace(s[leading_whitespace(s) as int]),
    decreases s.len(),
{
    if s.len() > 0 && is_whitespace(s.first()) {
        let rest = s.drop_first();
        lemma_leading_whitespace(rest);
        assert forall|i: int| 0 <= i < leading_whitespace(s) implies is_whitespace(
            #[trigger] s[i],
        ) by {
            if i > 0 {
                assert(s[i] == rest[i - 1]);
            }
        }
    }
}

/// The trailing whitespace of `s` is whitespace, and what stands before it,
/// if anything does, is not.
pub proof fn lemma_trailing_whitespace(s: Seq<char>)
    ensures
        trailing_whitespace(s) <= s.len(),
        forall|i: int|
            s.len() - trailing_whitespace(s) <= i < s.len() ==> is_whitespace(#[trigger] s[i]),
        trailing_whitespace(s) < s.len() ==> !is_whitespace(
            s[s.len() - trailing_whitespace(s) - 1],
        ),
    decreases s.len(),
{
    if s.len() > 0 && is_whitespace(s.last()) {
        let rest = s.drop_last();
        lemma_trailing_whitespace(rest);
        assert forall|i: int|
            s.len() - trailing_whitespace(s) <= i < s.len() implies is_whitespace(
            #[trigger] s[i],
        ) by {
            if i < rest.len() {
                assert(s[i] == rest[i]);
            }
        }
    }
}

/// Trimming takes whitespace, and nothing else, from the two ends of `s`:
/// `s` is whitespace, then `trim(s)`, then whitespace. What is left neither
/// begins nor ends with whitespace.
pub proof fn lemma_trim(s: Seq<char>)
    ensures
        exists|front: Seq<char>, back: Seq<char>|
            all_whitespace(front) && all_whitespace(back) && s == front + trim(s) + back,
        trim(s).len() > 0 ==> !is_whitespace(trim(s).first()) && !is_whitespace(trim(s).last()),
{
    let lead = leading_whitespace(s) as int;
    lemma_leading_whitespace(s);
    let rest = s.skip(lead);
    lemma_trailing_whitespace(rest);
    let end = s.len() - trailing_whitespace(rest);
    let front = s.take(lead);
    let back = s.skip(end);
    assert forall|i: int| 0 <= i < back.len() implies is_whitespace(#[trigger] back[i]) by {
        assert(back[i] == rest[i + end - lead]);
    }
    assert(s =~= front + trim(s) + back);
}

/// A sequence with no whitespace at its front or at its back trims to itself.
pub proof fn lemma_trim_keeps(s: Seq<char>)
    requires
        s.len() > 0 ==> !is_whitespace(s.first()) && !is_whitespace(s.last()),
    ensures
        trim(s) == s,
{
}

/// From `last_word_start(s)` on no character of `s` is whitespace, and the
/// character before it, if there is one, is whitespace.
pub proof fn lemma_last_word_start(s: Seq<char>)
    ensures
        0 <= last_word_start(s) <= s.len(),
        s.len() > 0 && !is_whitespace(s.last()) ==> last_word_start(s) < s.len(),
        forall|i: int| last_word_start(s) <= i < s.len() ==> !is_whitespace(#[trigger] s[i]),
        last_word_start(s) > 0 ==> is_whitespace(s[last_word_start(s) - 1]),
    decreases s.len(),
{
    if s.len() > 0 && !is_whitespace(s.last()) {
        let front = s.drop_last();
        lemma_last_word_start(front);
        assert forall|i: int| last_word_start(s) <= i < s.len() implies !is_whitespace(
            #[trigger] s[i],
        ) by {
            if i < front.len() {
                assert(s[i] == front[i]);
            }
        }
    }
}

} // verus!
