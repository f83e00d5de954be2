use wordsplit::split_str;

/// Splits in two passes: the first marks what is kept and where to cut, the
/// second cuts.
fn two_pass(input: &str) -> Vec<String> {
    let chars: Vec<char> = input.chars().collect();
    let mut kept: Vec<char> = Vec::new();
    let mut cuts: Vec<usize> = Vec::new();
    let mut open: Option<char> = None;
    for (i, &c) in chars.iter().enumerate() {
        let run = chars[..i].iter().rev().take_while(|&&b| b == '\\').count();
        if run % 2 == 1 {
            kept.pop();
            kept.push(c);
        } else if open == Some(c) {
            open = None;
            cuts.push(kept.len());
        } else if open.is_none() && (c == '\'' || c == '"') {
            open = Some(c);
            cuts.push(kept.len());
        } else if open.is_none() && c.is_whitespace() {
            cuts.push(kept.len());
        } else {
            kept.push(c);
        }
    }
    let mut words: Vec<String> = Vec::new();
    let mut from = 0;
    for cut in cuts {
        if from < cut {
            words.push(kept[from..cut].iter().collect());
        }
        from = cut;
    }
    let last: String = kept[from..].iter().collect();
    if !last.trim().is_empty() {
        words.push(last.trim().to_string());
    }
    words
}

fn compare_all(alphabet: &[char], longest: u32) {
    for len in 0..=longest {
        for mut code in 0..alphabet.len().pow(len) {
            let mut input = String::new();
            for _ in 0..len {
                input.push(alphabet[code % alphabet.len()]);
                code /= alphabet.len();
            }
            assert_eq!(split_str(&input), two_pass(&input), "{:?}", input);
        }
    }
}

#[test]
fn one_pass_agrees_with_two_on_short_inputs() {
    compare_all(&['a', ' ', '"', '\'', '\\'], 8);
}

#[test]
fn one_pass_agrees_with_two_on_wide_characters() {
    compare_all(&['é', '\u{3000}', '\t', '"', '\'', '\\', '語'], 6);
}

#[test]
fn one_pass_agrees_with_two_on_samples() {
    let inputs = [
        r#"ab cd "ef gh ij" kl mn"#,
        r#"ab \" cd "ef gh ij" kl \"wx yz\" mn"#,
        r#"cmd --flag="a b" 'c d'\ e \\ "unclosed \" rest  "#,
        r#"  \  ' " ' " ' \\\ x\"#,
        "tab\tand\nnewline \"in\tgroup\" end\\",
    ];
    for input in inputs {
        assert_eq!(split_str(input), two_pass(input), "{:?}", input);
    }
}
