use dice_roller::die::{DieType, DELIMITER};
use dice_roller::error::ParseErrorKind;

#[test]
fn catalog_lists_five_dice() {
    assert_eq!(DieType::try_from(4), Ok(DieType::D4));
    assert_eq!(DieType::try_from(6), Ok(DieType::D6));
    assert_eq!(DieType::try_from(8), Ok(DieType::D8));
    assert_eq!(DieType::try_from(10), Ok(DieType::D10));
    assert_eq!(DieType::try_from(20), Ok(DieType::D20));
}

#[test]
fn catalog_rejects_every_other_face_count() {
    let mut accepted = 0;
    for sides in 0..=u8::MAX {
        match DieType::try_from(sides) {
            Ok(die) => {
                accepted += 1;
                assert_eq!(die.sides(), sides);
            }
            Err(kind) => assert_eq!(kind, ParseErrorKind::UnrecognizedDieType),
        }
    }
    assert_eq!(accepted, 5);
}

#[test]
fn catalog_rejects_plausible_dice_that_are_not_listed() {
    assert_eq!(DieType::try_from(12), Err(ParseErrorKind::UnrecognizedDieType));
    assert_eq!(DieType::try_from(100), Err(ParseErrorKind::UnrecognizedDieType));
    assert_eq!(DieType::try_from(0), Err(ParseErrorKind::UnrecognizedDieType));
    assert_eq!(DieType::try_from(5), Err(ParseErrorKind::UnrecognizedDieType));
}

#[test]
fn sides_of_each_die() {
    assert_eq!(DieType::D4.sides(), 4);
    assert_eq!(DieType::D6.sides(), 6);
    assert_eq!(DieType::D8.sides(), 8);
    assert_eq!(DieType::D10.sides(), 10);
    assert_eq!(DieType::D20.sides(), 20);
}

#[test]
fn faces_run_from_one_to_the_number_of_sides() {
    assert_eq!(DieType::D4.faces(), vec![1, 2, 3, 4]);
    assert_eq!(DieType::D6.faces(), vec![1, 2, 3, 4, 5, 6]);
    assert_eq!(DieType::D8.faces(), vec![1, 2, 3, 4, 5, 6, 7, 8]);
    assert_eq!(DieType::D10.faces(), vec![1, 2, 3, 4, 5, 6, 7, 8, 9, 10]);
    let d20: Vec<u8> = (1..=20).collect();
    assert_eq!(DieType::D20.faces(), d20);
}

#[test]
fn label_is_delimiter_and_sides() {
    assert_eq!(DELIMITER, 'd');
    assert_eq!(DieType::D4.label(), "d4");
    assert_eq!(DieType::D6.label(), "d6");
    assert_eq!(DieType::D8.label(), "d8");
    assert_eq!(DieType::D10.label(), "d10");
    assert_eq!(DieType::D20.label(), "d20");
}
