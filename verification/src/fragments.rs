//! What splitting means: the role of each character, the fragments that the
//! delimiters cut the text into, and the words that remain of them.
//!
//! The second half of the file describes the same words as a scan reaches
//! them, character by character: that is how the tokenizer computes them,
//! and how the laws reason about them.

use crate::escape::escaped;
use crate::quote::QuoteState;
use crate::whitespace::trim;
use vstd::prelude::*;

verus! {

/// The quote state in which the character at position `pos` of `s` is read.
/// It starts as `Unquoted`; an escaped character leaves it as it is.
pub open spec fn quote_at(s: Seq<char>, pos: int) -> QuoteState
    decreases pos,
{
    if 0 < pos <= s.len() {
        let before = quote_at(s, pos - 1);
        if escaped(s, pos - 1) {
            before
        } else {
            before.step(s[pos - 1])
        }
    } else {
        QuoteState::Unquoted
    }
}

/// What becomes of a character of the input.
pub enum Role {
    /// It is kept, as part of a word.
    Content,
    /// It is dropped, and the text is cut where it stood.
    Delimiter,
    /// It is a backslash that escapes the next character, and is dropped.
    Escape,
}

/// The role of the character at position `pos` of `s`. It is an escape if
/// the next character is escaped by it: escapes are unescaped backslashes,
/// and a backslash that ends the input escapes nothing. It is a delimiter if
/// it is unescaped and the quote state in which it is read makes it one. All
/// else is content, an escaped character whatever it is.
pub open spec fn role_at(s: Seq<char>, pos: int) -> Role {
    if pos + 1 < s.len() && escaped(s, pos + 1) {
        Role::Escape
    } else if !escaped(s, pos) && quote_at(s, pos).is_delimiter(s[pos]) {
        Role::Delimiter
    } else {
        Role::Content
    }
}

/// The content of the first `n` characters of `s`: those of them whose role
/// is content, in order.
pub open spec fn content(s: Seq<char>, n: int) -> Seq<char>
    decreases n,
{
    if n <= 0 {
        Seq::empty()
    } else if role_at(s, n - 1) is Content {
        content(s, n - 1).push(s[n - 1])
    } else {
        content(s, n - 1)
    }
}

/// The fragments of the first `n` characters of `s`: their content, cut at
/// each delimiter. `k` delimiters give `k + 1` fragments, some of them
/// perhaps empty; the last one is still open when more input follows.
pub open spec fn fragments(s: Seq<char>, n: int) -> Seq<Seq<char>>
    decreases n,
{
    if n <= 0 {
        seq![Seq::empty()]
    } else {
        let before = fragments(s, n - 1);
        match role_at(s, n - 1) {
            Role::Content => before.drop_last().push(before.last().push(s[n - 1])),
            Role::Delimiter => before.push(Seq::empty()),
            Role::Escape => before,
        }
    }
}

/// The test that keeps a fragment as a word: it is not empty.
pub open spec fn non_empty() -> spec_fn(Seq<char>) -> bool {
    |fragment: Seq<char>| fragment.len() > 0
}

/// The words of `s`: its fragments, the last of them trimmed of whitespace at
/// both ends, without those that are empty.
pub open spec fn words(s: Seq<char>) -> Seq<Seq<char>> {
    let cut = fragments(s, s.len() as int);
    cut.drop_last().push(trim(cut.last())).filter(non_empty())
}

/// The words that the first `n` characters of `s` have completed: the
/// fragments before the open one that are not empty.
pub open spec fn closed_words(s: Seq<char>, n: int) -> Seq<Seq<char>> {
    fragments(s, n).drop_last().filter(non_empty())
}

/// The fragment that is open after the first `n` characters of `s`.
pub open spec fn open_word(s: Seq<char>, n: int) -> Seq<char> {
    fragments(s, n).last()
}

/// `done` with `word` behind it if `word` is not empty.
pub open spec fn with_word(done: Seq<Seq<char>>, word: Seq<char>) -> Seq<Seq<char>> {
    if word.len() > 0 {
        done.push(word)
    } else {
        done
    }
}

/// Whether a scan of `s` up to position `p` and a scan of `t` up to position
/// `q` have led to the same state: the same quote state, the next character
/// escaped in both or in neither, the same completed words and the same open
/// fragment.
pub open spec fn same_state(s: Seq<char>, p: int, t: Seq<char>, q: int) -> bool {
    &&& quote_at(s, p) == quote_at(t, q)
    &&& escaped(s, p) == escaped(t, q)
    &&& closed_words(s, p) == closed_words(t, q)
    &&& open_word(s, p) == open_word(t, q)
}

/// There is always an open fragment.
pub proof fn lemma_fragments_len(s: Seq<char>, n: int)
    ensures
        fragments(s, n).len() >= 1,
    decreases n,
{
    if n > 0 {
        lemma_fragments_len(s, n - 1);
    }
}

/// Dropping the empty fragments of `cut.push(word)` keeps those kept of
/// `cut`, and `word` behind them if it is not empty.
pub proof fn lemma_keep_pushed(cut: Seq<Seq<char>>, word: Seq<char>)
    ensures
        cut.push(word).filter(non_empty()) == with_word(cut.filter(non_empty()), word),
{
    cut.lemma_filter_push(word, non_empty());
}

/// Before any character is read no word is complete and the open fragment is
/// empty.
pub proof fn lemma_scan_start(s: Seq<char>)
    ensures
        closed_words(s, 0) == Seq::<Seq<char>>::empty(),
        open_word(s, 0) == Seq::<char>::empty(),
{
}

/// How one more character changes the completed words and the open fragment.
/// Content joins the open fragment. A delimiter completes it, as a word if it
/// is not empty, and opens an empty one. An escape changes nothing.
pub proof fn lemma_scan_step(s: Seq<char>, n: int)
    requires
        0 <= n < s.len(),
    ensures
        closed_words(s, n + 1) == match role_at(s, n) {
            Role::Delimiter => with_word(closed_words(s, n), open_word(s, n)),
            _ => closed_words(s, n),
        },
        open_word(s, n + 1) == match role_at(s, n) {
            Role::Content => open_word(s, n).push(s[n]),
            Role::Delimiter => Seq::empty(),
            Role::Escape => open_word(s, n),
        },
{
    let before = fragments(s, n);
    match role_at(s, n) {
        Role::Content => {
            let after = before.drop_last().push(before.last().push(s[n]));
            assert(after.drop_last() =~= before.drop_last());
        },
        Role::Delimiter => {
            let after = before.push(Seq::empty());
            assert(after.drop_last() =~= before);
            assert(before =~= before.drop_last().push(before.last()));
            lemma_keep_pushed(before.drop_last(), before.last());
        },
        Role::Escape => {},
    }
}

/// The words of `s` are the words completed by all of `s`, and behind them
/// the open fragment, trimmed, if that is not empty.
pub proof fn lemma_words_of_scan(s: Seq<char>)
    ensures
        words(s) == with_word(closed_words(s, s.len() as int), trim(open_word(s, s.len() as int))),
{
    let cut = fragments(s, s.len() as int);
    lemma_keep_pushed(cut.drop_last(), trim(cut.last()));
}

/// The state of a scan of `s` up to position `pos`, and the fragments of the
/// first `pos` characters, depend on those characters alone, with one
/// exception: a backslash at their end is an escape only if something
/// follows it. So `s` and `t` must both end at `pos`, or both go on, or the
/// next character must not be escaped.
pub proof fn lemma_scan_looks_back(s: Seq<char>, t: Seq<char>, pos: int)
    requires
        0 <= pos <= s.len(),
        pos <= t.len(),
        forall|i: int| 0 <= i < pos ==> s[i] == t[i],
        (pos < s.len() <==> pos < t.len()) || !escaped(s, pos),
    ensures
        fragments(s, pos) == fragments(t, pos),
        same_state(s, pos, t, pos),
    decreases pos,
{
    if pos > 0 {
        lemma_scan_looks_back(s, t, pos - 1);
    }
}

/// A scan goes on from its state alone. Say that a scan of `s` up to position
/// `p` and a scan of `t` up to position `q` agree on the quote state, on
/// whether the next character is escaped and on the open fragment, that the
/// first has completed the words `ahead` and then the words that the second
/// has completed, and that the same text follows in both. Then all of this
/// holds again `m` characters later.
pub proof fn lemma_scan_goes_on(
    ahead: Seq<Seq<char>>,
    s: Seq<char>,
    p: int,
    t: Seq<char>,
    q: int,
    m: int,
)
    requires
        0 <= p <= p + m <= s.len(),
        0 <= q <= t.len(),
        s.skip(p) == t.skip(q),
        quote_at(s, p) == quote_at(t, q),
        escaped(s, p) == escaped(t, q),
        closed_words(s, p) == ahead + closed_words(t, q),
        open_word(s, p) == open_word(t, q),
    ensures
        quote_at(s, p + m) == quote_at(t, q + m),
        escaped(s, p + m) == escaped(t, q + m),
        closed_words(s, p + m) == ahead + closed_words(t, q + m),
        open_word(s, p + m) == open_word(t, q + m),
    decreases m,
{
    if m > 0 {
        lemma_scan_goes_on(ahead, s, p, t, q, m - 1);
        assert(s.skip(p).len() == s.len() - p);
        assert(s[p + m - 1] == s.skip(p)[m - 1]);
        lemma_scan_step(s, p + m - 1);
        lemma_scan_step(t, q + m - 1);
    }
}

/// Where two scans stand to each other as `lemma_scan_goes_on` asks, the
/// words of `s` are `ahead` and then the words of `t`.
pub proof fn lemma_words_behind(ahead: Seq<Seq<char>>, s: Seq<char>, p: int, t: Seq<char>, q: int)
    requires
        0 <= p <= s.len(),
        0 <= q <= t.len(),
        s.skip(p) == t.skip(q),
        quote_at(s, p) == quote_at(t, q),
        escaped(s, p) == escaped(t, q),
        closed_words(s, p) == ahead + closed_words(t, q),
        open_word(s, p) == open_word(t, q),
    ensures
        words(s) == ahead + words(t),
{
    assert(s.skip(p).len() == s.len() - p);
    lemma_scan_goes_on(ahead, s, p, t, q, s.len() - p);
    lemma_words_of_scan(s);
    lemma_words_of_scan(t);
}

/// Where two scans have led to the same state and the same text follows in
/// both, the two inputs have the same words.
pub proof fn lemma_same_state_same_words(s: Seq<char>, p: int, t: Seq<char>, q: int)
    requires
        0 <= p <= s.len(),
        0 <= q <= t.len(),
        s.skip(p) == t.skip(q),
        same_state(s, p, t, q),
    ensures
        words(s) == words(t),
{
    lemma_words_behind(Seq::empty(), s, p, t, q);
}

} // verus!
