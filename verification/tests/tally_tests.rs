use bio_brain_snake::snake::DeathReason;
use bio_brain_snake::tally::Tally;

#[test]
fn tally_starts_empty() {
    let t = Tally::new();
    assert_eq!(t.food_ok, 0);
    assert_eq!(t.total_deaths(), Some(0));
}

#[test]
fn each_death_goes_to_its_counter() {
    let mut t = Tally::new();
    t.note_death(DeathReason::WallCollision);
    t.note_death(DeathReason::WallCollision);
    t.note_death(DeathReason::Starvation);
    t.note_death(DeathReason::Looping);
    t.note_death(DeathReason::SelfCollision);
    t.note_death(DeathReason::SelfCollision);
    t.note_death(DeathReason::SelfCollision);
    assert_eq!(t.w_death, 2);
    assert_eq!(t.s_death, 1);
    assert_eq!(t.l_death, 1);
    assert_eq!(t.self_death, 3);
    assert_eq!(t.count(DeathReason::SelfCollision), 3);
    assert_eq!(t.total_deaths(), Some(7));
    assert_eq!(t.food_ok, 0);
}

#[test]
fn unset_reason_counts_nothing() {
    let mut t = Tally::new();
    t.note_food();
    let before = t;
    t.note_death(DeathReason::Unset);
    assert_eq!(t, before);
    assert_eq!(t.count(DeathReason::Unset), 0);
    assert_eq!(t.food_ok, 1);
}

#[test]
fn total_deaths_that_overflow_is_none() {
    let mut t = Tally::new();
    t.w_death = u64::MAX;
    assert_eq!(t.total_deaths(), Some(u64::MAX));
    t.self_death = 1;
    assert_eq!(t.total_deaths(), None);
}
