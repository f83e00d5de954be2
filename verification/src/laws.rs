//! Laws of splitting: what holds of the words of every text.
//!
//! - No word is empty, and the words hold the content of the text in order.
//! - A quoted group is one word, verbatim; a quote that is never closed
//!   groups the rest of the text.
//! - Plain whitespace between words does not count by its length or kind:
//!   a run of it can be replaced by another, and more can be added beside a
//!   delimiter. It cannot be taken away altogether, which would join two
//!   words, and it is not plain inside quotes or behind a backslash.
//! - Plain whitespace splits a text in two: the words of the whole are the
//!   words of the one part and then those of the other.
//! - Text without quotes and backslashes splits at its whitespace.

use crate::escape::escaped;
use crate::fragments::{
    closed_words, content, fragments, lemma_fragments_len, lemma_same_state_same_words,
    lemma_scan_looks_back, lemma_scan_step, lemma_words_behind, lemma_words_of_scan, non_empty,
    open_word, quote_at, role_at, with_word, words, Role,
};
use crate::quote::QuoteState;
use crate::whitespace::{
    all_whitespace, is_whitespace, last_word_start, lemma_last_word_start, lemma_trim_keeps,
    trim, whitespace_words,
};
use vstd::prelude::*;

verus! {

// Words and content

/// Every word is at least one character long.
pub proof fn lemma_no_empty_word(s: Seq<char>)
    ensures
        forall|i: int| 0 <= i < words(s).len() ==> (#[trigger] words(s)[i]).len() >= 1,
{
}

/// An escape is a backslash that is not itself escaped. A delimiter is an
/// unescaped quote or whitespace character, never a backslash; inside a
/// group it is the quote that opened the group, and nothing else. An escaped
/// character is content.
pub proof fn lemma_roles(s: Seq<char>, pos: int)
    requires
        0 <= pos < s.len(),
    ensures
        role_at(s, pos) is Escape ==> s[pos] == '\\' && !escaped(s, pos),
        role_at(s, pos) is Delimiter ==> !escaped(s, pos) && (s[pos] == '\'' || s[pos] == '"'
            || is_whitespace(s[pos])),
        role_at(s, pos) is Delimiter && quote_at(s, pos) is InSingle ==> s[pos] == '\'',
        role_at(s, pos) is Delimiter && quote_at(s, pos) is InDouble ==> s[pos] == '"',
        escaped(s, pos) ==> role_at(s, pos) is Content,
{
}

/// Joined, the fragments of the first `n` characters of `s` are their
/// content: cutting loses no character and changes no order.
pub proof fn lemma_fragments_hold_content(s: Seq<char>, n: int)
    ensures
        fragments(s, n).flatten() == content(s, n),
    decreases n,
{
    if n <= 0 {
        seq![Seq::<char>::empty()].lemma_flatten_one_element();
    } else {
        let before = fragments(s, n - 1);
        lemma_fragments_hold_content(s, n - 1);
        lemma_fragments_len(s, n - 1);
        assert(before =~= before.drop_last().push(before.last()));
        before.drop_last().lemma_flatten_push(before.last());
        match role_at(s, n - 1) {
            Role::Content => {
                before.drop_last().lemma_flatten_push(before.last().push(s[n - 1]));
                assert(before.drop_last().flatten() + before.last().push(s[n - 1])
                    =~= before.flatten().push(s[n - 1]));
            },
            Role::Delimiter => {
                before.lemma_flatten_push(Seq::empty());
            },
            Role::Escape => {},
        }
    }
}

/// Dropping the empty ones of some fragments changes nothing of what they
/// are when joined.
proof fn lemma_kept_hold_all(cut: Seq<Seq<char>>)
    ensures
        cut.filter(non_empty()).flatten() == cut.flatten(),
    decreases cut.len(),
{
    if cut.len() > 0 {
        let front = cut.drop_last();
        lemma_kept_hold_all(front);
        assert(cut =~= front.push(cut.last()));
        front.lemma_filter_push(cut.last(), non_empty());
        front.lemma_flatten_push(cut.last());
        front.filter(non_empty()).lemma_flatten_push(cut.last());
    }
}

/// Joined, the words of `s` are the fragments of `s` joined, the last one
/// trimmed: what is missing of the content is whitespace at the two ends of
/// the last fragment.
pub proof fn lemma_words_hold_content(s: Seq<char>)
    ensures
        words(s).flatten() == fragments(s, s.len() as int).drop_last().flatten() + trim(
            fragments(s, s.len() as int).last(),
        ),
{
    let cut = fragments(s, s.len() as int);
    lemma_kept_hold_all(cut.drop_last().push(trim(cut.last())));
    cut.drop_last().lemma_flatten_push(trim(cut.last()));
}

/// The words completed by the first `m` characters of `s` stay: those
/// completed by the first `n`, for `n` from `m` on, begin with them.
pub proof fn lemma_completed_words_stay(s: Seq<char>, m: int, n: int)
    requires
        0 <= m <= n <= s.len(),
    ensures
        closed_words(s, m).is_prefix_of(closed_words(s, n)),
    decreases n - m,
{
    if m < n {
        lemma_completed_words_stay(s, m, n - 1);
        lemma_scan_step(s, n - 1);
    }
}

// Quoted groups

/// Inside a quoted group text without backslashes and without the quote that
/// opened the group is content, character by character. The group was opened
/// before position `p` of `s`, and the text stands at positions `p` to
/// `p + k - 1`.
proof fn lemma_inside_group(s: Seq<char>, p: int, k: int)
    requires
        0 <= p,
        0 <= k,
        p + k <= s.len(),
        !(quote_at(s, p) is Unquoted),
        !escaped(s, p),
        forall|i: int| p <= i < p + k ==> s[i] != '\\' && !quote_at(s, p).toggled_by(s[i]),
    ensures
        quote_at(s, p + k) == quote_at(s, p),
        !escaped(s, p + k),
        closed_words(s, p + k) == closed_words(s, p),
        open_word(s, p + k) == open_word(s, p) + s.subrange(p, p + k),
    decreases k,
{
    if k > 0 {
        lemma_inside_group(s, p, k - 1);
        lemma_scan_step(s, p + k - 1);
        assert(open_word(s, p) + s.subrange(p, p + k) =~= (open_word(s, p) + s.subrange(
            p,
            p + k - 1,
        )).push(s[p + k - 1]));
    }
}

/// A quoted group is one word, verbatim. Where a quote opens a group, the
/// text up to the same quote holds neither that quote nor a backslash, and
/// then the quote closes the group, the words completed so far are those
/// completed before the group, the fragment that was open before it, and the
/// text of the group, whitespace and all. The input is `a`, the quote, the
/// text `group`, the quote, and `b`; the opening quote is read outside quotes
/// and unescaped.
pub proof fn lemma_group_is_verbatim(a: Seq<char>, quote: char, group: Seq<char>, b: Seq<char>)
    requires
        quote == '\'' || quote == '"',
        quote_at(a, a.len() as int) is Unquoted,
        !escaped(a, a.len() as int),
        forall|i: int| 0 <= i < group.len() ==> group[i] != quote && group[i] != '\\',
    ensures
        ({
            let s = a + seq![quote] + group + seq![quote] + b;
            let end = (a.len() + group.len() + 2) as int;
            &&& quote_at(s, end) is Unquoted
            &&& !escaped(s, end)
            &&& closed_words(s, end) == with_word(
                with_word(closed_words(a, a.len() as int), open_word(a, a.len() as int)),
                group,
            )
            &&& open_word(s, end) == Seq::<char>::empty()
            &&& group.len() > 0 ==> words(s).contains(group)
        }),
{
    let s = a + seq![quote] + group + seq![quote] + b;
    let n = a.len() as int;
    let end = n + group.len() + 2;
    lemma_scan_looks_back(a, s, n);
    lemma_scan_step(s, n);
    lemma_inside_group(s, n + 1, group.len() as int);
    lemma_scan_step(s, end - 1);
    if group.len() > 0 {
        let done = closed_words(s, end);
        lemma_completed_words_stay(s, end, s.len() as int);
        lemma_words_of_scan(s);
        assert(done.last() == group);
        assert(words(s)[done.len() - 1] == group);
    }
}

/// A quote that is never closed groups the rest of the input: behind it no
/// character is a delimiter, whitespace included, and no further word is
/// completed before the input ends. The group is open at position `p` of
/// `s`, and from there on every quote that could close it is escaped.
pub proof fn lemma_open_quote_groups_rest(s: Seq<char>, p: int, n: int)
    requires
        0 <= p <= n <= s.len(),
        !(quote_at(s, p) is Unquoted),
        forall|i: int| p <= i < s.len() && quote_at(s, p).toggled_by(s[i]) ==> escaped(s, i),
    ensures
        quote_at(s, n) == quote_at(s, p),
        forall|i: int| p <= i < n ==> !(#[trigger] role_at(s, i) is Delimiter),
        closed_words(s, n) == closed_words(s, p),
    decreases n - p,
{
    if p < n {
        lemma_open_quote_groups_rest(s, p, n - 1);
        lemma_scan_step(s, n - 1);
    }
}

// Whitespace between words

/// A run of whitespace that is read outside quotes and unescaped completes
/// the open fragment and leaves an empty one open, however long the run.
/// The run stands at positions `p` to `p + k - 1` of `s`.
pub proof fn lemma_whitespace_scanned(s: Seq<char>, p: int, k: int)
    requires
        0 <= p,
        1 <= k,
        p + k <= s.len(),
        forall|i: int| p <= i < p + k ==> is_whitespace(#[trigger] s[i]),
        quote_at(s, p) is Unquoted,
        !escaped(s, p),
    ensures
        quote_at(s, p + k) is Unquoted,
        !escaped(s, p + k),
        closed_words(s, p + k) == with_word(closed_words(s, p), open_word(s, p)),
        open_word(s, p + k) == Seq::<char>::empty(),
    decreases k,
{
    if k > 1 {
        lemma_whitespace_scanned(s, p, k - 1);
    }
    lemma_scan_step(s, p + k - 1);
}

/// A run of whitespace between two parts of an input can be replaced by any
/// other, longer or shorter, and the words stay the same. The run must be
/// plain: it begins outside quotes, and no backslash escapes its first
/// character. Neither run may be empty.
pub proof fn lemma_whitespace_run_replaced(
    a: Seq<char>,
    w1: Seq<char>,
    w2: Seq<char>,
    b: Seq<char>,
)
    requires
        w1.len() > 0,
        w2.len() > 0,
        all_whitespace(w1),
        all_whitespace(w2),
        quote_at(a, a.len() as int) is Unquoted,
        !escaped(a, a.len() as int),
    ensures
        words(a + w1 + b) == words(a + w2 + b),
{
    let s = a + w1 + b;
    let t = a + w2 + b;
    let n = a.len() as int;
    lemma_scan_looks_back(a, s, n);
    lemma_scan_looks_back(a, t, n);
    lemma_whitespace_scanned(s, n, w1.len() as int);
    lemma_whitespace_scanned(t, n, w2.len() as int);
    assert(s.skip(n + w1.len()) =~= b);
    assert(t.skip(n + w2.len()) =~= b);
    lemma_same_state_same_words(s, n + w1.len(), t, n + w2.len());
}

/// Whitespace added at the start of an input, or behind a delimiter, changes
/// no word. It is added between `a` and `b`, outside quotes.
pub proof fn lemma_whitespace_behind_delimiter(a: Seq<char>, w: Seq<char>, b: Seq<char>)
    requires
        all_whitespace(w),
        quote_at(a, a.len() as int) is Unquoted,
        a.len() == 0 || role_at(a, a.len() - 1) is Delimiter,
    ensures
        words(a + w + b) == words(a + b),
{
    let s = a + b;
    let t = a + w + b;
    let n = a.len() as int;
    if w.len() > 0 {
        lemma_scan_looks_back(a, s, n);
        lemma_scan_looks_back(a, t, n);
        lemma_whitespace_scanned(t, n, w.len() as int);
        assert(s.skip(n) =~= b);
        assert(t.skip(n + w.len()) =~= b);
        lemma_same_state_same_words(s, n, t, n + w.len());
    }
}

/// Whitespace added in front of a delimiter changes no word. It is added
/// between `a` and `b`, outside quotes and unescaped, and `b` begins with a
/// quote or with whitespace.
pub proof fn lemma_whitespace_before_delimiter(a: Seq<char>, w: Seq<char>, b: Seq<char>)
    requires
        all_whitespace(w),
        quote_at(a, a.len() as int) is Unquoted,
        !escaped(a, a.len() as int),
        b.len() > 0,
        QuoteState::Unquoted.is_delimiter(b[0]),
    ensures
        words(a + w + b) == words(a + b),
{
    let s = a + b;
    let t = a + w + b;
    let n = a.len() as int;
    if w.len() > 0 {
        let m = n + w.len();
        lemma_scan_looks_back(a, s, n);
        lemma_scan_looks_back(a, t, n);
        lemma_whitespace_scanned(t, n, w.len() as int);
        lemma_scan_step(s, n);
        lemma_scan_step(t, m);
        assert(s.skip(n + 1) =~= b.skip(1));
        assert(t.skip(m + 1) =~= b.skip(1));
        lemma_same_state_same_words(s, n + 1, t, m + 1);
    }
}

/// Plain whitespace splits a text in two: the words of the whole are the
/// words of what stands before it and then the words of what stands behind
/// it. The text before it ends outside quotes, not with an unescaped
/// backslash, and with a fragment that trimming leaves as it is. (Only the
/// last fragment of a text is trimmed, and with something behind it, it is
/// the last one no longer.)
pub proof fn lemma_whitespace_splits(a: Seq<char>, w: Seq<char>, b: Seq<char>)
    requires
        w.len() > 0,
        all_whitespace(w),
        quote_at(a, a.len() as int) is Unquoted,
        !escaped(a, a.len() as int),
        trim(open_word(a, a.len() as int)) == open_word(a, a.len() as int),
    ensures
        words(a + w + b) == words(a) + words(b),
{
    let s = a + w + b;
    let n = a.len() as int;
    let m = n + w.len();
    lemma_scan_looks_back(a, s, n);
    lemma_whitespace_scanned(s, n, w.len() as int);
    lemma_words_of_scan(a);
    assert(s.skip(m) =~= b);
    assert(b.skip(0) =~= b);
    lemma_words_behind(words(a), s, m, b, 0);
}

/// Whitespace added at the end of a text changes no word, if the text ends
/// as it must for `lemma_whitespace_splits`.
pub proof fn lemma_whitespace_at_end(a: Seq<char>, w: Seq<char>)
    requires
        all_whitespace(w),
        quote_at(a, a.len() as int) is Unquoted,
        !escaped(a, a.len() as int),
        trim(open_word(a, a.len() as int)) == open_word(a, a.len() as int),
    ensures
        words(a + w) == words(a),
{
    if w.len() > 0 {
        lemma_whitespace_splits(a, w, Seq::empty());
        lemma_whitespace_alone_has_no_words(Seq::empty());
    }
}

// Text without quotes and backslashes

/// Whether `s` holds no quote and no backslash.
pub open spec fn is_plain(s: Seq<char>) -> bool {
    forall|i: int| 0 <= i < s.len() ==> s[i] != '\'' && s[i] != '"' && s[i] != '\\'
}

/// The whitespace-separated words of `s` are those of `s` before its last
/// run of characters other than whitespace, and that run if it is not empty.
proof fn lemma_words_by_last_run(s: Seq<char>)
    ensures
        whitespace_words(s) == with_word(
            whitespace_words(s.take(last_word_start(s))),
            s.skip(last_word_start(s)),
        ),
{
    lemma_last_word_start(s);
    if s.len() == 0 || is_whitespace(s.last()) {
        assert(s.take(s.len() as int) =~= s);
    }
}

/// A scan of plain text never enters a quote and never sees an escape. The
/// open fragment is the run of characters other than whitespace that ends
/// the text read so far, and the completed words are the
/// whitespace-separated words of the text before that run.
proof fn lemma_plain_scan(s: Seq<char>, n: int)
    requires
        is_plain(s),
        0 <= n <= s.len(),
    ensures
        quote_at(s, n) is Unquoted,
        !escaped(s, n),
        open_word(s, n) == s.take(n).skip(last_word_start(s.take(n))),
        closed_words(s, n) == whitespace_words(s.take(n).take(last_word_start(s.take(n)))),
    decreases n,
{
    if n > 0 {
        lemma_plain_scan(s, n - 1);
        let read = s.take(n - 1);
        let now = s.take(n);
        let start = last_word_start(read);
        lemma_last_word_start(read);
        lemma_scan_step(s, n - 1);
        assert(now.drop_last() =~= read);
        if is_whitespace(s[n - 1]) {
            lemma_words_by_last_run(read);
            assert(now.take(n) =~= now);
        } else {
            assert(now.take(start) =~= read.take(start));
        }
    }
}

/// Text without quotes and backslashes splits into its whitespace-separated
/// words.
pub proof fn lemma_plain_text_splits_at_whitespace(s: Seq<char>)
    requires
        is_plain(s),
    ensures
        words(s) == whitespace_words(s),
{
    let n = s.len() as int;
    lemma_plain_scan(s, n);
    lemma_words_of_scan(s);
    lemma_last_word_start(s);
    assert(s.take(n) =~= s);
    lemma_trim_keeps(open_word(s, n));
}

/// Whitespace alone has no whitespace-separated words.
proof fn lemma_no_whitespace_words(s: Seq<char>)
    requires
        all_whitespace(s),
    ensures
        whitespace_words(s) == Seq::<Seq<char>>::empty(),
    decreases s.len(),
{
    if s.len() > 0 {
        lemma_no_whitespace_words(s.drop_last());
    }
}

/// Text of whitespace alone, the empty text too, has no words.
pub proof fn lemma_whitespace_alone_has_no_words(s: Seq<char>)
    requires
        all_whitespace(s),
    ensures
        words(s) == Seq::<Seq<char>>::empty(),
{
    lemma_plain_text_splits_at_whitespace(s);
    lemma_no_whitespace_words(s);
}

} // verus!
