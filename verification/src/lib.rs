//! Shell-style word splitting.
//!
//! [`split_str`] cuts a string into words at unquoted whitespace. Single and
//! double quotes group text, whitespace included, into one word; a backslash
//! takes the special meaning from the character that follows it and is
//! itself dropped. Every function is specified over the string's sequence of
//! characters and verified against that specification.
//!
//! - [`whitespace`]: which characters are whitespace, and trimming.
//! - [`escape`]: which characters a backslash escapes.
//! - [`quote`]: the quote state and its transitions.
//! - [`fragments`]: what the words of a text are.
//! - [`tokenizer`]: the function that computes them.
//! - [`laws`]: what holds of the words of every text.

pub mod whitespace;

pub mod escape;

pub mod quote;

pub mod fragments;

pub mod tokenizer;

pub mod laws;

pub use escape::{get_char_before, is_escaped};
pub use tokenizer::split_str;
