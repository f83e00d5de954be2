use wordsplit::quote::QuoteState;

#[test]
fn a_quote_opens_its_group() {
    assert_eq!(QuoteState::Unquoted.step('\''), QuoteState::InSingle);
    assert_eq!(QuoteState::Unquoted.step('"'), QuoteState::InDouble);
    assert_eq!(QuoteState::Unquoted.step('a'), QuoteState::Unquoted);
    assert_eq!(QuoteState::Unquoted.step(' '), QuoteState::Unquoted);
}

#[test]
fn only_the_same_quote_closes_a_group() {
    assert_eq!(QuoteState::InSingle.step('\''), QuoteState::Unquoted);
    assert_eq!(QuoteState::InSingle.step('"'), QuoteState::InSingle);
    assert_eq!(QuoteState::InSingle.step(' '), QuoteState::InSingle);
    assert_eq!(QuoteState::InDouble.step('"'), QuoteState::Unquoted);
    assert_eq!(QuoteState::InDouble.step('\''), QuoteState::InDouble);
    assert_eq!(QuoteState::InDouble.step('x'), QuoteState::InDouble);
}

#[test]
fn delimiters_outside_a_group() {
    assert!(QuoteState::Unquoted.is_delimiter(' '));
    assert!(QuoteState::Unquoted.is_delimiter('\n'));
    assert!(QuoteState::Unquoted.is_delimiter('\u{3000}'));
    assert!(QuoteState::Unquoted.is_delimiter('\''));
    assert!(QuoteState::Unquoted.is_delimiter('"'));
    assert!(!QuoteState::Unquoted.is_delimiter('a'));
    assert!(!QuoteState::Unquoted.is_delimiter('\\'));
}

#[test]
fn delimiters_inside_a_group() {
    assert!(QuoteState::InSingle.is_delimiter('\''));
    assert!(!QuoteState::InSingle.is_delimiter('"'));
    assert!(!QuoteState::InSingle.is_delimiter(' '));
    assert!(!QuoteState::InSingle.is_delimiter('a'));
    assert!(QuoteState::InDouble.is_delimiter('"'));
    assert!(!QuoteState::InDouble.is_delimiter('\''));
    assert!(!QuoteState::InDouble.is_delimiter('\t'));
    assert!(!QuoteState::InDouble.is_delimiter('\\'));
}
