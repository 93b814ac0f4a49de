use dice_roller::die::DieType;
use dice_roller::parser::roll_parser;
use dice_roller::roll::{RollRequest, RollResult};
use rand::rngs::StdRng;
use rand::SeedableRng;

const DICE: [DieType; 5] = [DieType::D4, DieType::D6, DieType::D8, DieType::D10, DieType::D20];

fn assert_valid(result: &RollResult) {
    assert_eq!(result.outcomes.len(), usize::from(result.request.count));
    for face in &result.outcomes {
        assert!(1 <= *face && *face <= result.request.die.sides());
    }
}

#[test]
fn every_valid_token_rolls_its_count_of_faces() {
    let mut rng = StdRng::seed_from_u64(1);
    for die in DICE {
        for count in 1..=u8::MAX {
            let token = format!("{}d{}", count, die.sides());
            let request = roll_parser(&token).unwrap();
            let result = request.do_roll(&mut rng);
            assert_eq!(result.request, request);
            assert_valid(&result);
        }
    }
}

#[test]
fn one_die_gives_one_outcome() {
    let mut rng = StdRng::seed_from_u64(2);
    let request = RollRequest { die: DieType::D6, count: 1 };
    let result = request.do_roll(&mut rng);
    assert_eq!(result.outcomes.len(), 1);
    assert_valid(&result);
}

#[test]
fn the_largest_count_gives_255_outcomes() {
    let mut rng = StdRng::seed_from_u64(3);
    for die in DICE {
        let request = RollRequest { die, count: 255 };
        let result = request.do_roll(&mut rng);
        assert_eq!(result.outcomes.len(), 255);
        assert_valid(&result);
    }
}

#[test]
fn same_seed_same_outcomes() {
    let requests = [
        RollRequest { die: DieType::D6, count: 3 },
        RollRequest { die: DieType::D20, count: 255 },
        RollRequest { die: DieType::D4, count: 1 },
        RollRequest { die: DieType::D10, count: 17 },
    ];
    let mut first = StdRng::seed_from_u64(0xD1CE);
    let mut second = StdRng::seed_from_u64(0xD1CE);
    for request in requests {
        assert_eq!(request.do_roll(&mut first), request.do_roll(&mut second));
    }
}

#[test]
fn the_source_is_advanced_by_a_roll() {
    let request = RollRequest { die: DieType::D20, count: 255 };
    let mut rng = StdRng::seed_from_u64(5);
    let first = request.do_roll(&mut rng);
    let second = request.do_roll(&mut rng);
    assert_ne!(first.outcomes, second.outcomes);
}

#[test]
fn draws_are_picked_from_all_the_faces() {
    let mut rng = StdRng::seed_from_u64(6);
    for die in DICE {
        let result = RollRequest { die, count: 255 }.do_roll(&mut rng);
        for face in die.faces() {
            assert!(result.outcomes.contains(&face));
        }
    }
}

#[test]
fn a_request_for_no_dice_rolls_none() {
    let mut rng = StdRng::seed_from_u64(7);
    let result = RollRequest { die: DieType::D8, count: 0 }.do_roll(&mut rng);
    assert_eq!(result.outcomes, Vec::<u8>::new());
}
