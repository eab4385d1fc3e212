use bio_brain_snake::geometry::{Dir, FIELD_SZ};
use bio_brain_snake::snake::{
    count_in, free_cells, push_bounded, ray_offset, sign_of, DeathReason, Snake, SnakeStats,
    MAX_STEPS,
};
use std::collections::VecDeque;

fn snake_at(cells: &[(i32, i32)], dir: Dir, food: (i32, i32)) -> Snake {
    Snake {
        body: cells.iter().copied().collect(),
        dir,
        food,
        steps: 0,
        eaten: cells.len() - 3,
        turns: 0,
        alive: true,
        reason: DeathReason::Unset,
        pos_hist: VecDeque::new(),
        loop_cnt: 0,
        stats: SnakeStats::new(),
        loop_det: false,
    }
}

#[test]
fn new_snake_starts_in_a_row() {
    for _ in 0..200 {
        let s = Snake::new();
        assert_eq!(s.body.len(), 3);
        let (x, y) = s.body[0];
        assert!((5..15).contains(&x) && (5..15).contains(&y));
        assert_eq!(s.body[1], (x - 1, y));
        assert_eq!(s.body[2], (x - 2, y));
        assert_eq!(s.dir, Dir::Right);
        assert!(s.alive);
        assert_eq!(s.reason, DeathReason::Unset);
        assert_eq!((s.steps, s.eaten, s.turns, s.loop_cnt), (0, 0, 0, 0));
        assert!(s.pos_hist.is_empty());
        let (fx, fy) = s.food;
        assert!((0..FIELD_SZ).contains(&fx) && (0..FIELD_SZ).contains(&fy));
        assert!(!s.body.contains(&s.food));
    }
}

#[test]
fn spawn_food_avoids_body() {
    let mut s = snake_at(&[(5, 5), (4, 5), (3, 5)], Dir::Right, (0, 0));
    for _ in 0..200 {
        s.spawn_food();
        let (fx, fy) = s.food;
        assert!((0..FIELD_SZ).contains(&fx) && (0..FIELD_SZ).contains(&fy));
        assert!(!s.body.contains(&s.food));
    }
}

#[test]
fn spawn_food_finds_the_only_free_cell() {
    let mut cells = Vec::new();
    for x in 0..FIELD_SZ {
        for y in 0..FIELD_SZ {
            if (x, y) != (7, 3) {
                cells.push((x, y));
            }
        }
    }
    let mut s = snake_at(&cells, Dir::Right, (0, 0));
    s.spawn_food();
    assert_eq!(s.food, (7, 3));
}

#[test]
fn free_cells_lists_board_minus_body() {
    let body: VecDeque<(i32, i32)> = VecDeque::from(vec![(0, 0), (0, 1)]);
    let free = free_cells(&body);
    assert_eq!(free.len(), 398);
    assert_eq!(free[0], (0, 2));
    assert!(!free.contains(&(0, 0)));
}

#[test]
fn move_forward_keeps_length() {
    let mut s = snake_at(&[(5, 5), (4, 5), (3, 5)], Dir::Right, (15, 15));
    s.update(3);
    assert!(s.alive);
    assert_eq!(s.body, VecDeque::from(vec![(6, 5), (5, 5), (4, 5)]));
    assert_eq!(s.steps, 1);
    assert_eq!(s.turns, 0);
    assert_eq!(s.food, (15, 15));
    assert_eq!(s.pos_hist, VecDeque::from(vec![(6, 5)]));
    assert_eq!(s.stats.no_food, 1);
}

#[test]
fn reversing_is_ignored() {
    let mut s = snake_at(&[(5, 5), (4, 5), (3, 5)], Dir::Right, (15, 15));
    s.update(2);
    assert_eq!(s.dir, Dir::Right);
    assert_eq!(s.turns, 0);
    assert_eq!(s.body[0], (6, 5));
}

#[test]
fn turning_counts() {
    let mut s = snake_at(&[(5, 5), (4, 5), (3, 5)], Dir::Right, (15, 15));
    s.update(0);
    assert_eq!(s.dir, Dir::Up);
    assert_eq!(s.turns, 1);
    assert_eq!(s.body[0], (5, 4));
    s.update(0);
    assert_eq!(s.turns, 1);
    s.update(7);
    assert_eq!(s.dir, Dir::Right);
    assert_eq!(s.turns, 2);
}

#[test]
fn wall_collision_stops_the_snake() {
    let mut s = snake_at(&[(19, 5), (18, 5), (17, 5)], Dir::Right, (0, 0));
    s.update(3);
    assert!(!s.alive);
    assert_eq!(s.reason, DeathReason::WallCollision);
    assert_eq!(s.reason.as_str(), "wall_collision");
    assert_eq!(s.body, VecDeque::from(vec![(19, 5), (18, 5), (17, 5)]));
    assert_eq!(s.steps, 0);
}

#[test]
fn self_collision_stops_the_snake() {
    let mut s = snake_at(&[(5, 5), (5, 6), (4, 6), (4, 5), (4, 4)], Dir::Up, (15, 15));
    s.update(2);
    assert!(!s.alive);
    assert_eq!(s.reason, DeathReason::SelfCollision);
    assert_eq!(s.reason.as_str(), "self_collision");
    assert_eq!(s.dir, Dir::Left);
    assert_eq!(s.turns, 1);
}

#[test]
fn tail_cell_counts_as_body() {
    // The head may not move onto the cell the tail is about to leave.
    let mut s = snake_at(&[(5, 5), (6, 5), (6, 6), (5, 6)], Dir::Left, (15, 15));
    s.update(1);
    assert!(!s.alive);
    assert_eq!(s.reason, DeathReason::SelfCollision);
}

#[test]
fn eating_grows_and_moves_food() {
    let mut s = snake_at(&[(5, 5), (4, 5), (3, 5)], Dir::Right, (6, 5));
    s.steps = 10;
    s.update(3);
    assert!(s.alive);
    assert_eq!(s.eaten, 1);
    assert_eq!(s.steps, 0);
    assert_eq!(s.body, VecDeque::from(vec![(6, 5), (5, 5), (4, 5), (3, 5)]));
    assert!(!s.body.contains(&s.food));
    assert_ne!(s.food, (6, 5));
}

#[test]
fn stopped_snake_does_not_move() {
    let mut s = snake_at(&[(5, 5), (4, 5), (3, 5)], Dir::Right, (15, 15));
    s.alive = false;
    s.reason = DeathReason::Starvation;
    s.update(0);
    assert_eq!(s.body, VecDeque::from(vec![(5, 5), (4, 5), (3, 5)]));
    assert_eq!(s.dir, Dir::Right);
    assert_eq!(s.reason, DeathReason::Starvation);
}

#[test]
fn starvation_after_max_steps() {
    let mut s = snake_at(&[(5, 5), (4, 5), (3, 5)], Dir::Right, (15, 15));
    s.steps = MAX_STEPS;
    s.update(3);
    assert!(!s.alive);
    assert_eq!(s.reason, DeathReason::Starvation);
    assert_eq!(s.reason.as_str(), "starvation");
    assert_eq!(s.steps, MAX_STEPS + 1);
}

#[test]
fn circling_is_detected_as_looping() {
    let mut s = snake_at(&[(5, 5), (4, 5), (3, 5)], Dir::Right, (15, 15));
    // Circle a 2x2 square: right, down, left, up.
    let moves = [1usize, 2, 0, 3];
    let mut k = 0;
    while s.alive && k < 200 {
        s.update(moves[k % 4]);
        k += 1;
    }
    assert!(!s.alive);
    assert_eq!(s.reason, DeathReason::Looping);
    assert_eq!(s.reason.as_str(), "looping");
    assert_eq!(s.loop_cnt, 16);
    assert!(s.loop_det);
}

#[test]
fn loop_check_counts_oldest_cell() {
    let mut s = snake_at(&[(5, 5), (4, 5), (3, 5)], Dir::Right, (15, 15));
    for d in [1usize, 2, 0, 3, 1, 2, 0] {
        s.update(d);
    }
    assert_eq!(s.pos_hist.len(), 7);
    s.update(3);
    // Eight head cells remembered; the oldest, (5, 6), occurs twice.
    assert_eq!(s.pos_hist.len(), 8);
    assert_eq!(s.stats.repeated, 2);
    assert!(!s.loop_det);
    assert_eq!(s.loop_cnt, 0);
}

#[test]
fn update_allowed_checks_room_for_food() {
    let s = snake_at(&[(5, 5), (4, 5), (3, 5)], Dir::Right, (6, 5));
    assert!(s.update_allowed(3));
    let mut t = snake_at(&[(5, 5), (4, 5), (3, 5)], Dir::Right, (15, 15));
    t.turns = usize::MAX;
    assert!(t.update_allowed(3));
    assert!(!t.update_allowed(0));
    assert!(t.turn_overflows(0));
    assert!(!t.turn_overflows(3));
    assert!(!t.turn_overflows(2));
    t.alive = false;
    assert!(t.update_allowed(0));
    assert!(!t.turn_overflows(0));
    let mut cells = Vec::new();
    for x in 0..FIELD_SZ {
        for y in 0..FIELD_SZ {
            if (x, y) != (7, 3) {
                cells.push((x, y));
            }
        }
    }
    cells.sort_by_key(|&c| if c == (7, 2) { 0 } else { 1 });
    let full = snake_at(&cells, Dir::Down, (7, 3));
    assert!(!full.update_allowed(1));
    assert!(full.update_allowed(2));
}

#[test]
fn rays_from_the_middle() {
    let s = snake_at(&[(5, 5), (4, 5), (3, 5)], Dir::Right, (8, 2));
    let rays = s.sense_rays();
    assert_eq!(rays.len(), 8);
    // Up: the edge is 6 steps away; no body; the food lies upwards.
    assert_eq!((rays[0].wall, rays[0].body, rays[0].food_seen), (6, 0, true));
    // Down: 15 steps.
    assert_eq!((rays[1].wall, rays[1].body, rays[1].food_seen), (15, 0, false));
    // Left: the body one step away, the edge at 6.
    assert_eq!((rays[2].wall, rays[2].body, rays[2].food_seen), (6, 1, false));
    // Right: 15 steps; the food lies to the right.
    assert_eq!((rays[3].wall, rays[3].body, rays[3].food_seen), (15, 0, true));
    // Up-left and down-right do not see it.
    assert!(!rays[4].food_seen && !rays[7].food_seen);
    // Up-right sees the food.
    assert_eq!((rays[6].wall, rays[6].food_seen), (6, true));
    assert_eq!(s.food_distance(), 6);
}

#[test]
fn ray_without_edge_within_reach_reads_zero() {
    let s = snake_at(&[(0, 0), (0, 1), (0, 2)], Dir::Up, (5, 0));
    let rays = s.sense_rays();
    // Right from column 0: column 19 is reached at step 19 and still on the board.
    assert_eq!(rays[3].wall, 0);
    assert!(rays[3].food_seen);
    assert_eq!(rays[1].body, 1);
    assert_eq!(s.food_distance(), 5);
}

#[test]
fn ray_offsets_and_signs() {
    assert_eq!(ray_offset(0), (0, -1));
    assert_eq!(ray_offset(4), (-1, -1));
    assert_eq!(ray_offset(7), (1, 1));
    assert_eq!(sign_of(-7), -1);
    assert_eq!(sign_of(0), 0);
    assert_eq!(sign_of(3), 1);
}

#[test]
fn bounded_history() {
    let mut h: VecDeque<(i32, i32)> = VecDeque::new();
    for i in 0..25 {
        push_bounded(&mut h, (i, 0), 20);
    }
    assert_eq!(h.len(), 20);
    assert_eq!(h[0], (5, 0));
    assert_eq!(h[19], (24, 0));
    assert_eq!(count_in(&h, (5, 0)), 1);
    assert_eq!(count_in(&h, (0, 0)), 0);
}

#[test]
fn board_row_draws_head_body_and_food() {
    let sn = snake_at(&[(3, 2), (2, 2), (1, 2)], Dir::Right, (6, 2));
    let row = sn.board_row(2);
    assert_eq!(row.len(), 40);
    assert_eq!(&row[0..14], "  o o @     * ");
    assert_eq!(sn.board_row(3), " ".repeat(40));
}

#[test]
fn board_row_of_food_alone() {
    let sn = snake_at(&[(3, 2), (2, 2), (1, 2)], Dir::Right, (19, 0));
    let row = sn.board_row(0);
    assert_eq!(&row[36..40], "  * ");
}

#[test]
fn bounded_push_works_for_any_item() {
    let mut h: VecDeque<&str> = VecDeque::new();
    push_bounded(&mut h, "a", 2);
    push_bounded(&mut h, "b", 2);
    push_bounded(&mut h, "c", 2);
    assert_eq!(h, VecDeque::from(vec!["b", "c"]));
}
