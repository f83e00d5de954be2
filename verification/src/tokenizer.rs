//! The tokenizer: one pass over the characters of a string.

use crate::escape::escaped;
use crate::fragments::{
    closed_words, lemma_scan_step, lemma_words_of_scan, open_word, quote_at, with_word, words,
};
use crate::quote::QuoteState;
use crate::whitespace::trim_range;
use vstd::prelude::*;

verus! {

/// `String::push` appends one character to the string: afterwards the string
/// holds what it held before and `ch` behind it. This is assumed of the
/// standard library, not proved.
pub assume_specification[ String::push ](s: &mut String, ch: char)
    ensures
        final(s)@ == old(s)@.push(ch),
;

/// Returns the characters of `text`.
fn chars_of(text: &str) -> (chars: Vec<char>)
    ensures
        chars@ == text@,
{
    let mut chars: Vec<char> = Vec::new();
    for c in it: text.chars()
        invariant
            chars@ == it.seq().take(it.index()),
    {
        chars.push(c);
    }
    chars
}

/// Appends the characters of `chars` from position `from` up to position
/// `to` to `parts` as one word, unless there are none.
fn push_word(parts: &mut Vec<String>, chars: &Vec<char>, from: usize, to: usize)
    requires
        from <= to <= chars.len(),
    ensures
        final(parts).deep_view() == with_word(
            old(parts).deep_view(),
            chars@.subrange(from as int, to as int),
        ),
{
    if from < to {
        let mut word = String::new();
        let mut i: usize = from;
        while i < to
            invariant
                from <= i <= to <= chars.len(),
                word@ == chars@.subrange(from as int, i as int),
            decreases to - i,
        {
            word.push(chars[i]);
            i += 1;
        }
        parts.push(word);
    }
}

/// Splits `string` into words at whitespace and at quotes. Single and double
/// quotes group text, whitespace included; the quotes themselves are dropped.
/// A backslash makes the character behind it plain text and is itself
/// dropped: write two for one that should stay. A quote that is never closed
/// groups the rest of the string. No word is empty.
///
/// The string is read once, from left to right; whether the next character
/// is escaped is carried along rather than looked up.
pub fn split_str(string: &str) -> (parts: Vec<String>)
    ensures
        parts.deep_view() == words(string@),
        forall|i: int| 0 <= i < parts.len() ==> (#[trigger] parts[i])@.len() >= 1,
{
    let chars = chars_of(string);
    let mut parts: Vec<String> = Vec::new();
    let mut word: Vec<char> = Vec::new();
    let mut quote = QuoteState::Unquoted;
    let mut escape = false;
    let mut i: usize = 0;
    while i < chars.len()
        invariant
            i <= chars.len(),
            i < chars.len() ==> escape == escaped(chars@, i as int),
            quote == quote_at(chars@, i as int),
            parts.deep_view() == closed_words(chars@, i as int),
            word@ == open_word(chars@, i as int),
        decreases chars.len() - i,
    {
        let c = chars[i];
        proof {
            lemma_scan_step(chars@, i as int);
        }
        if escape {
            word.push(c);
            escape = false;
        } else if quote.is_delimiter(c) {
            assert(word@.subrange(0, word.len() as int) =~= word@);
            push_word(&mut parts, &word, 0, word.len());
            word.clear();
            quote = quote.step(c);
        } else if c == '\\' && i + 1 < chars.len() {
            escape = true;
        } else {
            word.push(c);
        }
        i += 1;
    }
    let (start, end) = trim_range(&word);
    push_word(&mut parts, &word, start, end);
    proof {
        lemma_words_of_scan(chars@);
        assert forall|i: int| 0 <= i < parts.len() implies (#[trigger] parts[i])@.len() >= 1 by {
            assert(parts[i]@ == parts.deep_view()[i]);
        }
    }
    parts
}

} // verus!
