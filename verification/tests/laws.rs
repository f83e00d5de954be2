use wordsplit::split_str;

#[test]
fn a_whitespace_run_can_be_replaced() {
    let expected = ["ab", "c d", "ef"];
    for run in [" ", "  ", "\t", " \t\n ", "\u{3000}\u{a0}", "          "] {
        let input = format!("ab{}'c d'{}ef", run, run);
        assert_eq!(split_str(&input), expected, "{:?}", input);
    }
}

#[test]
fn a_whitespace_run_inside_a_group_cannot() {
    assert_eq!(split_str("'a b'"), ["a b"]);
    assert_eq!(split_str("'a  b'"), ["a  b"]);
}

#[test]
fn a_whitespace_run_behind_a_backslash_cannot() {
    assert_eq!(split_str(r#"a\ b"#), ["a b"]);
    assert_eq!(split_str(r#"a\  b"#), ["a ", "b"]);
}

#[test]
fn whitespace_can_be_added_at_the_start() {
    for input in ["a b", "'a b' c", r#"\a "b"#, ""] {
        let padded = format!(" \t {}", input);
        assert_eq!(split_str(&padded), split_str(input), "{:?}", input);
    }
}

#[test]
fn whitespace_can_be_added_behind_a_delimiter() {
    assert_eq!(split_str("a 'b'c"), ["a", "b", "c"]);
    assert_eq!(split_str("a   'b'  c"), ["a", "b", "c"]);
    assert_eq!(split_str("a \n'b' \tc"), ["a", "b", "c"]);
}

#[test]
fn whitespace_can_be_added_before_a_delimiter() {
    assert_eq!(split_str("a'b' c"), ["a", "b", "c"]);
    assert_eq!(split_str("a  'b'   c"), ["a", "b", "c"]);
}

#[test]
fn whitespace_can_be_added_at_the_end_of_trimmed_text() {
    for input in ["a b", "'a b' c", r#"a\ b"#, "'a'", ""] {
        let padded = format!("{} \t ", input);
        assert_eq!(split_str(&padded), split_str(input), "{:?}", input);
    }
}

#[test]
fn whitespace_splits_a_text_in_two() {
    let fronts = ["a b", "'c d' e", r#"f\\ \"g"#, "", "'h'", r#"i\ j "k""#];
    let backs = ["a b", " 'c d'e ", r#"\"f"#, "", "'g h", r#"i\ j\"#];
    for before in fronts {
        for behind in backs {
            for run in [" ", "\t \n"] {
                let whole = format!("{}{}{}", before, run, behind);
                let mut expected = split_str(before);
                expected.extend(split_str(behind));
                assert_eq!(split_str(&whole), expected, "{:?}", whole);
            }
        }
    }
}

#[test]
fn whitespace_does_not_split_what_ends_inside_a_group() {
    assert_eq!(split_str("'a"), ["a"]);
    assert_eq!(split_str("b'"), ["b"]);
    assert_eq!(split_str("'a b'"), ["a b"]);
}

#[test]
fn plain_text_splits_at_whitespace() {
    let texts = [
        "",
        "a",
        " a ",
        "ab cd  ef",
        "\tab\ncd\r\n ef \u{3000}gh",
        "  leading and trailing  ",
        "日本 語\u{a0}ü",
        "   ",
        "a,b;c d-e",
    ];
    for text in texts {
        let expected: Vec<String> = text.split_whitespace().map(String::from).collect();
        assert_eq!(split_str(text), expected, "{:?}", text);
    }
}

#[test]
fn plain_text_of_every_shape_splits_at_whitespace() {
    let alphabet = ['a', 'b', ' ', '\t'];
    for len in 0..=8u32 {
        for mut code in 0..4usize.pow(len) {
            let mut text = String::new();
            for _ in 0..len {
                text.push(alphabet[code % 4]);
                code /= 4;
            }
            let expected: Vec<String> = text.split_whitespace().map(String::from).collect();
            assert_eq!(split_str(&text), expected, "{:?}", text);
        }
    }
}

#[test]
fn the_words_hold_the_content_in_order() {
    let joined: String = split_str(r#"ab 'c d' e\"f "g\\" h"#).concat();
    assert_eq!(joined, r#"abc de"fg\h"#);
}
