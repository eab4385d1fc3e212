use bio_brain_snake::evolution::{GenerationEvent, MutationLevel, Snowball, STABLE_GENS_REQUIRED};

#[test]
fn snowball_starts_high_with_no_record() {
    let s = Snowball::new();
    assert_eq!(s.last_record_food, 0);
    assert_eq!(s.record_holding_gens, 0);
    assert_eq!(s.level, MutationLevel::High);
    assert_eq!(s.snowball_counter, 0);
}

#[test]
fn three_apples_over_the_record_make_a_new_one() {
    let mut s = Snowball::new();
    assert_eq!(s.after_generation(3), GenerationEvent::Record);
    assert_eq!(s.last_record_food, 3);
    assert_eq!(s.level, MutationLevel::Low);
    assert_eq!(s.snowball_counter, 1);
    assert_eq!(s.after_generation(20), GenerationEvent::Record);
    assert_eq!(s.last_record_food, 20);
    assert_eq!(s.snowball_counter, 2);
    assert_eq!(s.record_holding_gens, 0);
}

#[test]
fn two_apples_over_the_record_only_hold_it() {
    let mut s = Snowball::new();
    s.last_record_food = 20;
    s.level = MutationLevel::Low;
    assert_eq!(s.after_generation(22), GenerationEvent::Holding);
    assert_eq!(s.last_record_food, 20);
    assert_eq!(s.record_holding_gens, 1);
    assert_eq!(s.level, MutationLevel::Low);
}

#[test]
fn a_drop_of_more_than_eight_raises_mutation() {
    let mut s = Snowball::new();
    s.last_record_food = 20;
    s.level = MutationLevel::Low;
    assert_eq!(s.after_generation(12), GenerationEvent::Holding);
    assert_eq!(s.level, MutationLevel::Low);
    assert_eq!(s.after_generation(11), GenerationEvent::Holding);
    assert_eq!(s.level, MutationLevel::High);
    assert_eq!(s.record_holding_gens, 2);
}

#[test]
fn a_drop_of_more_than_ten_is_quiet() {
    let mut s = Snowball::new();
    s.last_record_food = 20;
    s.record_holding_gens = 4;
    s.level = MutationLevel::Low;
    let before = s;
    assert_eq!(s.after_generation(9), GenerationEvent::Quiet);
    assert_eq!(s, before);
}

#[test]
fn thirty_generations_of_holding_end_in_stagnation() {
    let mut s = Snowball::new();
    s.last_record_food = 20;
    s.level = MutationLevel::Low;
    for _ in 0..STABLE_GENS_REQUIRED {
        assert_eq!(s.after_generation(19), GenerationEvent::Holding);
    }
    assert_eq!(s.record_holding_gens, 30);
    assert_eq!(s.level, MutationLevel::Low);
    assert_eq!(s.after_generation(19), GenerationEvent::Stagnation);
    assert_eq!(s.record_holding_gens, 0);
    assert_eq!(s.level, MutationLevel::High);
    assert_eq!(s.last_record_food, 20);
    assert_eq!(s.after_generation(19), GenerationEvent::Holding);
    assert_eq!(s.record_holding_gens, 1);
}

#[test]
fn a_low_record_is_held_without_underflow() {
    let mut s = Snowball::new();
    assert_eq!(s.after_generation(0), GenerationEvent::Holding);
    assert_eq!(s.record_holding_gens, 1);
    assert_eq!(s.level, MutationLevel::High);
    s.last_record_food = 5;
    s.level = MutationLevel::Low;
    assert_eq!(s.after_generation(0), GenerationEvent::Holding);
    assert_eq!(s.level, MutationLevel::Low);
    s.last_record_food = 9;
    assert_eq!(s.after_generation(0), GenerationEvent::Holding);
    assert_eq!(s.level, MutationLevel::High);
}
