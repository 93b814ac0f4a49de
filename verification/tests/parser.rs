use dice_roller::die::DieType;
use dice_roller::error::{NumberError, ParseError, ParseErrorKind};
use dice_roller::parser::{parse_chars, read_whole, roll_parser};
use dice_roller::roll::RollRequest;
use std::num::IntErrorKind;

fn kind_of(token: &str) -> ParseErrorKind {
    let err = roll_parser(token).unwrap_err();
    assert_eq!(err.token, token);
    err.kind
}

fn chars(text: &str) -> Vec<char> {
    text.chars().collect()
}

#[test]
fn parses_three_d_six() {
    assert_eq!(roll_parser("3d6"), Ok(RollRequest { die: DieType::D6, count: 3 }));
}

#[test]
fn parses_every_die_of_the_catalog() {
    assert_eq!(roll_parser("1d4"), Ok(RollRequest { die: DieType::D4, count: 1 }));
    assert_eq!(roll_parser("2d6"), Ok(RollRequest { die: DieType::D6, count: 2 }));
    assert_eq!(roll_parser("9d8"), Ok(RollRequest { die: DieType::D8, count: 9 }));
    assert_eq!(roll_parser("10d10"), Ok(RollRequest { die: DieType::D10, count: 10 }));
    assert_eq!(roll_parser("20d20"), Ok(RollRequest { die: DieType::D20, count: 20 }));
}

#[test]
fn parses_every_count_from_one_to_255() {
    for count in 1..=u8::MAX {
        for die in [DieType::D4, DieType::D6, DieType::D8, DieType::D10, DieType::D20] {
            let token = format!("{}d{}", count, die.sides());
            assert_eq!(roll_parser(&token), Ok(RollRequest { die, count }));
        }
    }
}

#[test]
fn accepts_a_plus_sign_and_leading_zeros() {
    assert_eq!(roll_parser("+3d6"), Ok(RollRequest { die: DieType::D6, count: 3 }));
    assert_eq!(roll_parser("3d+6"), Ok(RollRequest { die: DieType::D6, count: 3 }));
    assert_eq!(roll_parser("007d020"), Ok(RollRequest { die: DieType::D20, count: 7 }));
    assert_eq!(roll_parser("0000000000000000000255d4"), Ok(RollRequest { die: DieType::D4, count: 255 }));
}

#[test]
fn token_without_delimiter_is_malformed() {
    assert_eq!(kind_of("1x6"), ParseErrorKind::MalformedSyntax);
    assert_eq!(kind_of("36"), ParseErrorKind::MalformedSyntax);
    assert_eq!(kind_of("3D6"), ParseErrorKind::MalformedSyntax);
    assert_eq!(kind_of("x"), ParseErrorKind::MalformedSyntax);
}

#[test]
fn empty_token_is_malformed() {
    assert_eq!(
        roll_parser(""),
        Err(ParseError { kind: ParseErrorKind::MalformedSyntax, token: String::new() })
    );
}

#[test]
fn zero_count_is_invalid() {
    assert_eq!(kind_of("0d4"), ParseErrorKind::InvalidCount);
    assert_eq!(kind_of("000d6"), ParseErrorKind::InvalidCount);
    assert_eq!(kind_of("+0d6"), ParseErrorKind::InvalidCount);
}

#[test]
fn count_above_255_is_invalid() {
    assert_eq!(kind_of("256d6"), ParseErrorKind::InvalidCount);
    assert_eq!(kind_of("1000d6"), ParseErrorKind::InvalidCount);
    assert_eq!(kind_of("99999999999999999999999999999999999999999d6"), ParseErrorKind::InvalidCount);
}

#[test]
fn rejects_a_negative_count_as_no_number() {
    assert_eq!(kind_of("-2d9"), ParseErrorKind::NumberParseFailure(NumberError::InvalidDigit));
    assert_eq!(kind_of("-2d6"), ParseErrorKind::NumberParseFailure(NumberError::InvalidDigit));
    assert_eq!(kind_of("-0d6"), ParseErrorKind::NumberParseFailure(NumberError::InvalidDigit));
}

#[test]
fn non_numeric_halves_are_no_numbers() {
    assert_eq!(kind_of("xd6"), ParseErrorKind::NumberParseFailure(NumberError::InvalidDigit));
    assert_eq!(kind_of("3dx"), ParseErrorKind::NumberParseFailure(NumberError::InvalidDigit));
    assert_eq!(kind_of("3 d6"), ParseErrorKind::NumberParseFailure(NumberError::InvalidDigit));
    assert_eq!(kind_of("3d6 "), ParseErrorKind::NumberParseFailure(NumberError::InvalidDigit));
    assert_eq!(kind_of("3_0d6"), ParseErrorKind::NumberParseFailure(NumberError::InvalidDigit));
    assert_eq!(kind_of("+d6"), ParseErrorKind::NumberParseFailure(NumberError::InvalidDigit));
    assert_eq!(kind_of("++3d6"), ParseErrorKind::NumberParseFailure(NumberError::InvalidDigit));
    assert_eq!(kind_of("3d-6"), ParseErrorKind::NumberParseFailure(NumberError::InvalidDigit));
    assert_eq!(kind_of("٣d6"), ParseErrorKind::NumberParseFailure(NumberError::InvalidDigit));
}

#[test]
fn empty_halves_are_no_numbers() {
    assert_eq!(kind_of("d6"), ParseErrorKind::NumberParseFailure(NumberError::Empty));
    assert_eq!(kind_of("3d"), ParseErrorKind::NumberParseFailure(NumberError::Empty));
    assert_eq!(kind_of("d"), ParseErrorKind::NumberParseFailure(NumberError::Empty));
}

#[test]
fn sides_outside_the_catalog_are_unrecognized() {
    assert_eq!(kind_of("2d9"), ParseErrorKind::UnrecognizedDieType);
    assert_eq!(kind_of("2d12"), ParseErrorKind::UnrecognizedDieType);
    assert_eq!(kind_of("2d100"), ParseErrorKind::UnrecognizedDieType);
    assert_eq!(kind_of("2d0"), ParseErrorKind::UnrecognizedDieType);
    assert_eq!(kind_of("2d256"), ParseErrorKind::UnrecognizedDieType);
    assert_eq!(kind_of("2d260"), ParseErrorKind::UnrecognizedDieType);
    assert_eq!(kind_of("2d99999999999999999999999999"), ParseErrorKind::UnrecognizedDieType);
}

#[test]
fn token_is_split_at_its_first_delimiter() {
    assert_eq!(kind_of("1d6d4"), ParseErrorKind::NumberParseFailure(NumberError::InvalidDigit));
    assert_eq!(kind_of("dd"), ParseErrorKind::NumberParseFailure(NumberError::Empty));
    assert_eq!(kind_of("2dd6"), ParseErrorKind::NumberParseFailure(NumberError::InvalidDigit));
}

#[test]
fn the_count_is_checked_before_the_sides() {
    assert_eq!(kind_of("0dx"), ParseErrorKind::InvalidCount);
    assert_eq!(kind_of("0d9"), ParseErrorKind::InvalidCount);
    assert_eq!(kind_of("xd9"), ParseErrorKind::NumberParseFailure(NumberError::InvalidDigit));
    assert_eq!(kind_of("300d"), ParseErrorKind::InvalidCount);
}

#[test]
fn failure_carries_the_token_as_given() {
    assert_eq!(
        roll_parser("2d9"),
        Err(ParseError { kind: ParseErrorKind::UnrecognizedDieType, token: "2d9".to_string() })
    );
    assert_eq!(
        roll_parser("-2d9"),
        Err(ParseError {
            kind: ParseErrorKind::NumberParseFailure(NumberError::InvalidDigit),
            token: "-2d9".to_string(),
        })
    );
}

#[test]
fn parse_chars_agrees_with_roll_parser() {
    for token in ["3d6", "0d4", "1x6", "2d9", "-2d9", "", "d", "255d20", "256d20", "1d6d4"] {
        let by_chars = parse_chars(&chars(token));
        let by_text = roll_parser(token);
        assert_eq!(by_chars, by_text.map_err(|e| e.kind));
    }
}

#[test]
fn read_whole_reads_bytes() {
    assert_eq!(read_whole(&chars("0")), Ok(Some(0)));
    assert_eq!(read_whole(&chars("7")), Ok(Some(7)));
    assert_eq!(read_whole(&chars("255")), Ok(Some(255)));
    assert_eq!(read_whole(&chars("+42")), Ok(Some(42)));
    assert_eq!(read_whole(&chars("0042")), Ok(Some(42)));
}

#[test]
fn read_whole_tells_large_values_from_failures() {
    assert_eq!(read_whole(&chars("256")), Ok(None));
    assert_eq!(read_whole(&chars("65536")), Ok(None));
    assert_eq!(read_whole(&chars("")), Err(NumberError::Empty));
    assert_eq!(read_whole(&chars("+")), Err(NumberError::InvalidDigit));
    assert_eq!(read_whole(&chars("-")), Err(NumberError::InvalidDigit));
    assert_eq!(read_whole(&chars("-1")), Err(NumberError::InvalidDigit));
    assert_eq!(read_whole(&chars("12a")), Err(NumberError::InvalidDigit));
    assert_eq!(read_whole(&chars("9999x")), Err(NumberError::InvalidDigit));
    assert_eq!(read_whole(&chars("1 ")), Err(NumberError::InvalidDigit));
}

#[test]
fn read_whole_agrees_with_the_standard_parse_on_bytes() {
    for n in 0..=u8::MAX {
        let text = n.to_string();
        assert_eq!(read_whole(&chars(&text)), Ok(text.parse::<u8>().ok()));
        let signed = format!("+{}", n);
        assert_eq!(read_whole(&chars(&signed)), Ok(signed.parse::<u8>().ok()));
    }
}

#[test]
fn read_whole_agrees_with_the_standard_parse_on_short_texts() {
    let alphabet = ['+', '-', '0', '1', '2', '5', '9', 'd', ' ', 'a'];
    let mut texts = vec![String::new()];
    for _ in 0..4 {
        let mut longer = Vec::new();
        for text in &texts {
            for c in alphabet {
                longer.push(format!("{text}{c}"));
            }
        }
        for text in &longer {
            let read = read_whole(&chars(text));
            match text.parse::<u8>() {
                Ok(value) => assert_eq!(read, Ok(Some(value))),
                Err(e) => match e.kind() {
                    IntErrorKind::Empty => assert_eq!(read, Err(NumberError::Empty)),
                    IntErrorKind::InvalidDigit => assert_eq!(read, Err(NumberError::InvalidDigit)),
                    IntErrorKind::PosOverflow => {
                        assert!(read == Ok(None) || read == Err(NumberError::InvalidDigit))
                    }
                    _ => unreachable!(),
                },
            }
        }
        texts = longer;
    }
}
