//! Backslash escapes: which characters of a text are escaped.

use vstd::prelude::*;
use vstd::string::StrSliceExecFns;

verus! {

/// The character just before position `pos` of `s`, if there is one.
pub open spec fn char_before(s: Seq<char>, pos: int) -> Option<char> {
    if 0 < pos <= s.len() {
        Some(s[pos - 1])
    } else {
        None
    }
}

/// The length of the longest run of backslashes that ends just before
/// position `pos` of `s`.
pub open spec fn backslash_run(s: Seq<char>, pos: int) -> nat
    decreases pos,
{
    if char_before(s, pos) == Some('\\') {
        1 + backslash_run(s, pos - 1)
    } else {
        0
    }
}

/// Whether the character at position `pos` of `s` is escaped: the run of
/// backslashes before it has odd length. In a run of backslashes each one
/// escapes the next, so they pair off, and only an odd one out reaches the
/// character behind the run.
pub open spec fn escaped(s: Seq<char>, pos: int) -> bool {
    backslash_run(s, pos) % 2 == 1
}

/// Returns the character just before position `pos` of `in_str`, counted in
/// characters, or `None` at the start of the string.
pub fn get_char_before(in_str: &str, pos: usize) -> (before: Option<char>)
    requires
        pos <= in_str@.len(),
    ensures
        before == char_before(in_str@, pos as int),
{
    if pos == 0 {
        None
    } else {
        Some(in_str.get_char(pos - 1))
    }
}

/// Tells whether the character at position `pos` of `in_str`, counted in
/// characters, is escaped. It walks back over the backslashes before `pos`
/// and stops at the first character that is none. `pos` may be the length of
/// the string: the answer then holds for a character appended to it.
pub fn is_escaped(in_str: &str, pos: usize) -> (result: bool)
    requires
        pos <= in_str@.len(),
    ensures
        result == escaped(in_str@, pos as int),
{
    let mut result = false;
    let mut at: usize = pos;
    loop
        invariant
            at <= pos <= in_str@.len(),
            backslash_run(in_str@, pos as int) == (pos - at) + backslash_run(in_str@, at as int),
            result <==> (pos - at) % 2 == 1,
        decreases at,
    {
        match get_char_before(in_str, at) {
            Some(c) => {
                if c == '\\' {
                    result = !result;
                } else {
                    return result;
                }
            },
            None => {
                return result;
            },
        }
        at -= 1;
    }
}

/// A character is escaped exactly when a backslash stands before it and that
/// backslash is not itself escaped.
pub proof fn lemma_escaped_by_unescaped_backslash(s: Seq<char>, pos: int)
    ensures
        escaped(s, pos) <==> char_before(s, pos) == Some('\\') && !escaped(s, pos - 1),
{
}

/// An escape reaches one character: the character behind an escaped one is
/// not escaped.
pub proof fn lemma_escape_reaches_one(s: Seq<char>, pos: int)
    ensures
        escaped(s, pos) ==> !escaped(s, pos + 1),
{
}

/// The first character of a text is never escaped.
pub proof fn lemma_first_never_escaped(s: Seq<char>)
    ensures
        !escaped(s, 0),
{
}

/// In a text of backslashes alone the characters at odd positions are the
/// escaped ones.
pub proof fn lemma_backslashes_alternate(s: Seq<char>, pos: int)
    requires
        0 <= pos <= s.len(),
        forall|i: int| 0 <= i < s.len() ==> s[i] == '\\',
    ensures
        backslash_run(s, pos) == pos,
        escaped(s, pos) <==> pos % 2 == 1,
    decreases pos,
{
    if pos > 0 {
        lemma_backslashes_alternate(s, pos - 1);
    }
}

/// Whether a position is escaped depends on the characters before it alone.
pub proof fn lemma_escaped_looks_back(s: Seq<char>, t: Seq<char>, pos: int)
    requires
        0 <= pos <= s.len(),
        pos <= t.len(),
        forall|i: int| 0 <= i < pos ==> s[i] == t[i],
    ensures
        backslash_run(s, pos) == backslash_run(t, pos),
        escaped(s, pos) == escaped(t, pos),
    decreases pos,
{
    if pos > 0 {
        lemma_escaped_looks_back(s, t, pos - 1);
    }
}

} // verus!
