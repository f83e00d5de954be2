//! Quoting: the state a scan is in, and how a character changes it.

use crate::whitespace::is_whitespace;
use vstd::prelude::*;

verus! {

/// Whether a scan is inside a quoted group, and which quote opened it. Groups
/// do not nest.
#[derive(Clone, Copy, Debug, PartialEq, Eq)]
pub enum QuoteState {
    /// Outside any group.
    Unquoted,
    /// Inside a group opened by `'`.
    InSingle,
    /// Inside a group opened by `"`.
    InDouble,
}

impl QuoteState {
    /// Whether the unescaped character `c` opens or closes a group in this
    /// state. Outside a group either quote opens one; inside, only the quote
    /// that opened the group closes it, and the other quote is plain text.
    pub open spec fn toggled_by(self, c: char) -> bool {
        match self {
            QuoteState::Unquoted => c == '\'' || c == '"',
            QuoteState::InSingle => c == '\'',
            QuoteState::InDouble => c == '"',
        }
    }

    /// Whether the unescaped character `c` is a delimiter in this state: a
    /// quote that opens or closes a group, or whitespace outside any group.
    /// In specifications `is_delimiter` stands for it.
    pub open spec fn spec_is_delimiter(self, c: char) -> bool {
        self.toggled_by(c) || (self is Unquoted && is_whitespace(c))
    }

    /// The state after the unescaped character `c` was read in this state.
    /// In specifications `step` stands for it.
    pub open spec fn spec_step(self, c: char) -> QuoteState {
        if !self.toggled_by(c) {
            self
        } else if !(self is Unquoted) {
            QuoteState::Unquoted
        } else if c == '\'' {
            QuoteState::InSingle
        } else {
            QuoteState::InDouble
        }
    }

    /// Tells whether the unescaped character `c` is a delimiter in this state.
    #[verifier::when_used_as_spec(spec_is_delimiter)]
    pub fn is_delimiter(self, c: char) -> (b: bool)
        ensures
            b == self.spec_is_delimiter(c),
    {
        match self {
            QuoteState::Unquoted => c == '\'' || c == '"' || is_whitespace(c),
            QuoteState::InSingle => c == '\'',
            QuoteState::InDouble => c == '"',
        }
    }

    /// Returns the state after the unescaped character `c` was read in this
    /// state.
    #[verifier::when_used_as_spec(spec_step)]
    pub fn step(self, c: char) -> (next: QuoteState)
        ensures
            next == self.spec_step(c),
    {
        match self {
            QuoteState::Unquoted => if c == '\'' {
                QuoteState::InSingle
            } else if c == '"' {
                QuoteState::InDouble
            } else {
                QuoteState::Unquoted
            },
            QuoteState::InSingle => if c == '\'' {
                QuoteState::Unquoted
            } else {
                QuoteState::InSingle
            },
            QuoteState::InDouble => if c == '"' {
                QuoteState::Unquoted
            } else {
                QuoteState::InDouble
            },
        }
    }
}

} // verus!
