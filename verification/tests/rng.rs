use anthill::util::rng::{Check, DieSize, Roll};
use rand::rngs::StdRng;
use rand::SeedableRng;

#[test]
fn unmodified_roll_in_bounds() {
    let mut rng = StdRng::seed_from_u64(73);

    let roll = Roll::new(1, DieSize::D6);
    let result = roll.roll(&mut rng);

    assert!((1..=6).contains(&result));
}

#[test]
fn modified_roll_modifies_result() {
    let mut rng = StdRng::seed_from_u64(73);

    let base_roll = Roll::new(1, DieSize::D6);
    let modified_roll_positive = base_roll.add_modifier(10);
    let modified_roll_negative = base_roll.add_modifier(-10);

    let base = base_roll.roll(&mut rng);
    let modified_positive = modified_roll_positive.roll(&mut rng);
    let modified_negative = modified_roll_negative.roll(&mut rng);

    assert_eq!(modified_positive, base + 10);
    assert_eq!(modified_negative, base - 10);
}

#[test]
fn stacking_modifiers() {
    let mut rng1 = StdRng::seed_from_u64(73);

    let modified = Roll::new(1, DieSize::D20).add_modifier(5).add_modifier(-2).roll(&mut rng1);

    let mut rng2 = StdRng::seed_from_u64(73);
    let unmodified = Roll::new(1, DieSize::D20).roll(&mut rng2);

    assert_eq!(modified, unmodified + 3);
}

#[test]
fn check_degrees_of_success() {
    let mut rng1 = StdRng::seed_from_u64(73);

    let roll = Roll::new(1, DieSize::D20);
    let value = roll.roll(&mut rng1);

    let check_success = Check::new(roll).set_difficulty(value);
    let check_failure = Check::new(roll).set_difficulty(value + 1);

    let mut rng2 = StdRng::seed_from_u64(73);
    let mut rng3 = StdRng::seed_from_u64(73);

    assert!(check_success.resolve(&mut rng2));
    assert!(!check_failure.resolve(&mut rng3));
}

#[test]
fn modifier_exceeding_difficulty() {
    let mut rng = StdRng::seed_from_u64(73);

    let roll1 = Roll::new(1, DieSize::D20).add_modifier(40);
    let check1 = Check::new(roll1).set_difficulty(30);

    assert!(check1.resolve(&mut rng));

    let roll2 = Roll::new(1, DieSize::D20).add_modifier(-20);
    let check2 = Check::new(roll2).set_difficulty(1);

    assert!(!check2.resolve(&mut rng));
}

#[test]
fn check_modifiers_stack_on_its_roll() {
    let mut rng = StdRng::seed_from_u64(73);

    let check = Check::new(Roll::new(1, DieSize::D20)).add_modifier(45).add_modifier(-5).set_difficulty(41);
    assert!(check.resolve(&mut rng));

    let check = Check::new(Roll::new(1, DieSize::D20)).add_modifier(-30).add_modifier(9).set_difficulty(0);
    assert!(!check.resolve(&mut rng));
}
