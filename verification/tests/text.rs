use dice_roller::text::{push_decimal, to_chars, to_digit};

fn decimal(n: u8) -> String {
    let mut out = String::new();
    push_decimal(&mut out, n);
    out
}

#[test]
fn decimal_numerals_of_bytes() {
    assert_eq!(decimal(0), "0");
    assert_eq!(decimal(9), "9");
    assert_eq!(decimal(10), "10");
    assert_eq!(decimal(99), "99");
    assert_eq!(decimal(100), "100");
    assert_eq!(decimal(109), "109");
    assert_eq!(decimal(200), "200");
    assert_eq!(decimal(255), "255");
}

#[test]
fn decimal_numerals_agree_with_the_standard_rendering() {
    for n in 0..=u8::MAX {
        assert_eq!(decimal(n), n.to_string());
    }
}

#[test]
fn push_decimal_keeps_what_was_there() {
    let mut out = String::from("n = ");
    push_decimal(&mut out, 42);
    push_decimal(&mut out, 7);
    assert_eq!(out, "n = 427");
}

#[test]
fn to_digit_reads_ascii_digits_only() {
    assert_eq!(to_digit('0'), Some(0));
    assert_eq!(to_digit('5'), Some(5));
    assert_eq!(to_digit('9'), Some(9));
    assert_eq!(to_digit('/'), None);
    assert_eq!(to_digit(':'), None);
    assert_eq!(to_digit('a'), None);
    assert_eq!(to_digit('d'), None);
    assert_eq!(to_digit('+'), None);
    assert_eq!(to_digit('٣'), None);
}

#[test]
fn to_digit_agrees_with_the_standard_function() {
    for code in 0..=0x10FFFFu32 {
        if let Some(c) = char::from_u32(code) {
            assert_eq!(to_digit(c).map(u32::from), c.to_digit(10));
        }
    }
}

#[test]
fn to_chars_keeps_every_character() {
    assert_eq!(to_chars(""), Vec::<char>::new());
    assert_eq!(to_chars("3d6"), vec!['3', 'd', '6']);
    assert_eq!(to_chars("a\u{3000}é\n"), vec!['a', '\u{3000}', 'é', '\n']);
}
