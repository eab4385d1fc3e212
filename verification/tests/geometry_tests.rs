use bio_brain_snake::geometry::{fallback_dir, first_safe_dir, is_safe_position, safe_dirs, toward_food, Dir, FIELD_SZ};
use std::collections::VecDeque;

#[test]
fn dir_opposites() {
    assert_eq!(Dir::Up.opp(), Dir::Down);
    assert_eq!(Dir::Down.opp(), Dir::Up);
    assert_eq!(Dir::Left.opp(), Dir::Right);
    assert_eq!(Dir::Right.opp(), Dir::Left);
    for d in [Dir::Up, Dir::Down, Dir::Left, Dir::Right] {
        assert_eq!(d.opp().opp(), d);
        assert_ne!(d.opp(), d);
    }
}

#[test]
fn dir_steps() {
    assert_eq!(Dir::Up.dxy(), (0, -1));
    assert_eq!(Dir::Down.dxy(), (0, 1));
    assert_eq!(Dir::Left.dxy(), (-1, 0));
    assert_eq!(Dir::Right.dxy(), (1, 0));
    for d in [Dir::Up, Dir::Down, Dir::Left, Dir::Right] {
        let (a, b) = d.dxy();
        let (c, e) = d.opp().dxy();
        assert_eq!((a + c, b + e), (0, 0));
    }
}

#[test]
fn dir_numbers() {
    assert_eq!(Dir::from(0), Dir::Up);
    assert_eq!(Dir::from(1), Dir::Down);
    assert_eq!(Dir::from(2), Dir::Left);
    assert_eq!(Dir::from(3), Dir::Right);
    assert_eq!(Dir::from(4), Dir::Right);
    assert_eq!(Dir::from(usize::MAX), Dir::Right);
}

#[test]
fn safe_positions() {
    let body: VecDeque<(i32, i32)> = VecDeque::from(vec![(5, 5), (4, 5), (3, 5)]);
    assert!(is_safe_position((6, 5), &body));
    assert!(!is_safe_position((4, 5), &body));
    assert!(!is_safe_position((-1, 5), &body));
    assert!(!is_safe_position((FIELD_SZ, 5), &body));
    assert!(!is_safe_position((5, FIELD_SZ), &body));
    assert!(is_safe_position((0, 0), &body));
    assert!(is_safe_position((FIELD_SZ - 1, FIELD_SZ - 1), &body));
}

#[test]
fn safe_directions_from_a_corner() {
    let body: VecDeque<(i32, i32)> = VecDeque::from(vec![(0, 0), (1, 0)]);
    // Up and left leave the board; right is the body; only down is safe.
    assert_eq!(safe_dirs((0, 0), &body), vec![1]);
    assert_eq!(first_safe_dir((0, 0), &body), Some(1));
}

#[test]
fn no_safe_direction() {
    let body: VecDeque<(i32, i32)> = VecDeque::from(vec![(0, 0), (1, 0), (0, 1)]);
    assert_eq!(safe_dirs((0, 0), &body), Vec::<usize>::new());
    assert_eq!(first_safe_dir((0, 0), &body), None);
}

#[test]
fn all_directions_safe_in_open_field() {
    let body: VecDeque<(i32, i32)> = VecDeque::new();
    assert_eq!(safe_dirs((10, 10), &body), vec![0, 1, 2, 3]);
    assert_eq!(first_safe_dir((10, 10), &body), Some(0));
}

#[test]
fn fallback_takes_the_only_safe_move() {
    let mut body = VecDeque::new();
    body.push_back((0, 0));
    body.push_back((1, 0));
    for _ in 0..20 {
        assert_eq!(fallback_dir((0, 0), &body), 1);
    }
}

#[test]
fn fallback_draws_among_safe_moves() {
    let mut body = VecDeque::new();
    body.push_back((5, 5));
    body.push_back((6, 5));
    for _ in 0..50 {
        let d = fallback_dir((5, 5), &body);
        assert!(d == 0 || d == 1 || d == 2);
    }
}

#[test]
fn fallback_with_no_safe_move_is_any_direction() {
    let mut body = VecDeque::new();
    body.push_back((0, 0));
    body.push_back((1, 0));
    body.push_back((0, 1));
    for _ in 0..20 {
        assert!(fallback_dir((0, 0), &body) < 4);
    }
}

#[test]
fn toward_food_keeps_a_safe_direction() {
    let mut body = VecDeque::new();
    body.push_back((5, 5));
    body.push_back((4, 5));
    assert_eq!(toward_food((5, 5), &body, 3), Some(3));
    assert_eq!(toward_food((5, 5), &body, 0), Some(0));
}

#[test]
fn toward_food_falls_back_to_the_first_safe_direction() {
    let mut body = VecDeque::new();
    body.push_back((5, 5));
    body.push_back((4, 5));
    assert_eq!(toward_food((5, 5), &body, 2), Some(0));
    let mut corner = VecDeque::new();
    corner.push_back((0, 0));
    corner.push_back((0, 1));
    assert_eq!(toward_food((0, 0), &corner, 1), Some(3));
}

#[test]
fn toward_food_with_no_safe_move_is_none() {
    let mut body = VecDeque::new();
    body.push_back((0, 0));
    body.push_back((1, 0));
    body.push_back((0, 1));
    assert_eq!(toward_food((0, 0), &body, 3), None);
}
