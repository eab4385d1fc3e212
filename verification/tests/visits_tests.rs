use bio_brain_snake::visits::Visits;

#[test]
fn visits_start_at_zero() {
    let v = Visits::new();
    assert_eq!(v.count((0, 0)), 0);
    assert_eq!(v.count((19, 7)), 0);
}

#[test]
fn each_cell_counts_its_own_visits() {
    let mut v = Visits::new();
    v.visit((3, 4));
    v.visit((3, 4));
    v.visit((4, 3));
    assert_eq!(v.count((3, 4)), 2);
    assert_eq!(v.count((4, 3)), 1);
    assert_eq!(v.count((3, 3)), 0);
}

#[test]
fn far_apart_cells_do_not_collide() {
    let mut v = Visits::new();
    v.visit((i32::MIN, i32::MAX));
    v.visit((-1, 0));
    assert_eq!(v.count((i32::MIN, i32::MAX)), 1);
    assert_eq!(v.count((i32::MAX, i32::MIN)), 0);
    assert_eq!(v.count((-1, 0)), 1);
    assert_eq!(v.count((0, -1)), 0);
}

#[test]
fn clear_forgets_everything() {
    let mut v = Visits::new();
    v.visit((1, 1));
    v.clear();
    assert_eq!(v.count((1, 1)), 0);
}
