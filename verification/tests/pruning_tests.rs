use bio_brain_snake::pruning::{prune_plan, prune_weak, remove_positions};

#[test]
fn plan_lists_every_weak_position() {
    let weak = vec![false, true, true, false, true, true];
    assert_eq!(prune_plan(&weak), vec![1, 2, 4, 5]);
    assert_eq!(prune_plan(&vec![false, false]), Vec::<usize>::new());
}

#[test]
fn plan_has_no_limit() {
    let weak = vec![true; 25];
    assert_eq!(prune_plan(&weak), (0..25).collect::<Vec<usize>>());
}

#[test]
fn removal_keeps_the_rest_in_order() {
    let mut v = vec!['a', 'b', 'c', 'd', 'e'];
    remove_positions(&mut v, &vec![0, 2, 4]);
    assert_eq!(v, vec!['b', 'd']);
}

#[test]
fn prune_weak_drops_every_weak_entry() {
    let mut v: Vec<u32> = (0..30).collect();
    let weak: Vec<bool> = (0..30).map(|i| i % 3 == 0).collect();
    prune_weak(&mut v, &weak);
    let expected: Vec<u32> = (0..30).filter(|i| i % 3 != 0).collect();
    assert_eq!(v, expected);
    assert_eq!(v.len(), 20);
}

#[test]
fn twelve_weak_entries_all_go() {
    let mut v: Vec<u32> = (0..20).collect();
    let weak: Vec<bool> = (0..20).map(|i| i < 12).collect();
    prune_weak(&mut v, &weak);
    assert_eq!(v, (12..20).collect::<Vec<u32>>());
}

#[test]
fn prune_weak_with_nothing_weak_changes_nothing() {
    let mut v = vec![5, 6, 7];
    prune_weak(&mut v, &vec![false, false, false]);
    assert_eq!(v, vec![5, 6, 7]);
}
