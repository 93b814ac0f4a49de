use dice_roller::text::to_chars;
use dice_roller::tokens::{char_is_whitespace, token_spans};

fn tokens_of(text: &str) -> Vec<String> {
    let chars = to_chars(text);
    token_spans(&chars)
        .into_iter()
        .map(|(from, to)| chars[from..to].iter().collect())
        .collect()
}

#[test]
fn whitespace_agrees_with_the_standard_function() {
    for code in 0..=0x10FFFFu32 {
        if let Some(c) = char::from_u32(code) {
            assert_eq!(char_is_whitespace(c), c.is_whitespace());
        }
    }
}

#[test]
fn spans_of_tokens() {
    assert_eq!(token_spans(&to_chars("3d6 1d4")), vec![(0, 3), (4, 7)]);
    assert_eq!(token_spans(&to_chars("  3d6\t\n1d4 ")), vec![(2, 5), (7, 10)]);
    assert_eq!(token_spans(&to_chars("x")), vec![(0, 1)]);
    assert_eq!(token_spans(&to_chars("é d")), vec![(0, 1), (2, 3)]);
}

#[test]
fn no_spans_in_empty_or_blank_text() {
    assert_eq!(token_spans(&to_chars("")), vec![]);
    assert_eq!(token_spans(&to_chars(" ")), vec![]);
    assert_eq!(token_spans(&to_chars(" \t\r\n\u{a0}\u{3000}")), vec![]);
}

#[test]
fn tokens_agree_with_the_standard_split() {
    let inputs = [
        "",
        " ",
        "3d6",
        "3d6 1d4",
        " 3d6  1d4 ",
        "1x6 0d4 1d6 1d4 3d6 2d20 -2d9 9d6 20d20",
        "a\tb\nc\r\nd\u{b}e\u{c}f",
        "one\u{85}two\u{a0}three\u{1680}four\u{2003}five\u{2028}six\u{2029}seven",
        "narrow\u{202f}space\u{205f}and\u{3000}wide",
        "zero\u{200b}width is no whitespace",
        "\n\n3d6\n\n",
    ];
    for input in inputs {
        let expected: Vec<String> = input.split_whitespace().map(String::from).collect();
        assert_eq!(tokens_of(input), expected);
    }
}

#[test]
fn tokens_of_two_texts_apart_are_those_of_each() {
    let cases = [("3d6 ", "1d4"), ("3d6", " 1d4"), ("", "1d4 x"), ("a b\n", "\tc d"), ("a", "")];
    for (left, right) in cases {
        let whole = format!("{left}{right}");
        let mut expected = tokens_of(left);
        expected.extend(tokens_of(right));
        assert_eq!(tokens_of(&whole), expected);
    }
}

#[test]
fn tokens_hold_no_whitespace_and_are_not_empty() {
    for token in tokens_of(" 3d6\t\t1d4 \u{3000} x\n") {
        assert!(!token.is_empty());
        assert!(!token.chars().any(char::is_whitespace));
    }
}
