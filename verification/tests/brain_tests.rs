use bio_brain_snake::crossover::crossover_order;
use bio_brain_snake::history::{fired_within, fresh_history, record_firing, HIST_LEN};
use bio_brain_snake::ntype::NType;
use bio_brain_snake::scoring::{food_bonus, main_reason};
use bio_brain_snake::snake::DeathReason;
use bio_brain_snake::specials::{all_specials, effector_for_code, kind_for_code, missing_specials, Special};
use bio_brain_snake::wiring::{
    default_sensors, effector_slot, filler_count, filler_type, missing_sensor_links, mutation_type, IdAllocator,
    SenT, Sensor, MAX_MODULES,
};

#[test]
fn ids_count_up() {
    let mut a = IdAllocator::new();
    assert_eq!(a.alloc_id(), 0);
    assert_eq!(a.alloc_id(), 1);
    assert_eq!(a.next_id, 2);
    assert_eq!(a.next_module, 0);
}

#[test]
fn modules_cycle_through_forty() {
    let mut a = IdAllocator::new();
    for m in 0..MAX_MODULES {
        assert_eq!(a.alloc_module(), m);
    }
    assert_eq!(a.alloc_module(), 0);
    assert_eq!(a.next_id, 0);
}

#[test]
fn module_counter_out_of_range_restarts() {
    let mut a = IdAllocator { next_id: 0, next_module: 100 };
    assert_eq!(a.alloc_module(), 100);
    assert_eq!(a.next_module, 0);
    let mut b = IdAllocator { next_id: 0, next_module: 255 };
    assert_eq!(b.alloc_module(), 255);
    assert_eq!(b.next_module, 0);
}

#[test]
fn note_id_keeps_ids_above() {
    let mut a = IdAllocator { next_id: 10, next_module: 3 };
    a.note_id(4);
    assert_eq!(a.next_id, 10);
    a.note_id(20);
    assert_eq!(a.next_id, 21);
    assert_eq!(a.next_module, 3);
}

#[test]
fn sensor_new_sets_fields() {
    let s = Sensor::new(7, SenT::Food, 2);
    assert_eq!((s.id, s.typ, s.dir), (7, SenT::Food, 2));
}

#[test]
fn default_sensor_layout() {
    let sens = default_sensors();
    assert_eq!(sens.len(), 24);
    assert_eq!(sens[0], Sensor::new(0, SenT::Wall, 0));
    assert_eq!(sens[1], Sensor::new(1, SenT::Food, 0));
    assert_eq!(sens[2], Sensor::new(2, SenT::Body, 0));
    assert_eq!(sens[23], Sensor::new(23, SenT::Body, 7));
}

#[test]
fn effector_slots_by_direction() {
    let slots: Vec<usize> = (0..8u8).map(effector_slot).collect();
    assert_eq!(slots, vec![0, 1, 2, 3, 0, 1, 2, 3]);
    assert_eq!(effector_slot(200), 3);
}

#[test]
fn filler_and_mutation_kinds() {
    assert_eq!(filler_type(0), NType::Memory);
    assert_eq!(filler_type(1), NType::Randomizer);
    assert_eq!(filler_type(2), NType::Excitatory);
    assert_eq!(filler_type(3), NType::Memory);
    let kinds: Vec<NType> = (0..10).map(mutation_type).collect();
    assert_eq!(
        kinds,
        vec![
            NType::Randomizer,
            NType::FoodSeek,
            NType::Novelty,
            NType::Memory,
            NType::Risk,
            NType::LoopDet,
            NType::Excitatory,
            NType::Excitatory,
            NType::Excitatory,
            NType::Excitatory,
        ]
    );
}

#[test]
fn links_for_all_sensors_of_a_fresh_brain() {
    let sens = default_sensors();
    let links = missing_sensor_links(&sens, [100, 101, 102, 103], &vec![]);
    assert_eq!(links.len(), 24);
    assert_eq!(links[0], (0, 100, SenT::Wall));
    assert_eq!(links[4], (4, 101, SenT::Food));
    assert_eq!(links[23], (23, 103, SenT::Body));
}

#[test]
fn existing_and_repeated_links_are_skipped() {
    let sens = vec![
        Sensor::new(0, SenT::Wall, 0),
        Sensor::new(1, SenT::Food, 1),
        Sensor::new(0, SenT::Body, 4),
        Sensor::new(2, SenT::Body, 2),
    ];
    let links = missing_sensor_links(&sens, [10, 11, 12, 13], &vec![(2, 12)]);
    assert_eq!(links, vec![(0, 10, SenT::Wall), (1, 11, SenT::Food)]);
}

#[test]
fn specials_in_order_with_names() {
    let sp = all_specials();
    assert_eq!(sp.len(), 16);
    let names: Vec<&str> = sp.iter().map(|s| s.name()).collect();
    assert_eq!(
        names,
        vec![
            "loop",
            "food",
            "wall",
            "random",
            "memory",
            "speed",
            "risk",
            "novelty",
            "hormone_src",
            "hormone_sink",
            "osc",
            "query",
            "key",
            "value",
            "attn_out",
            "plasticity",
        ]
    );
    for s in &sp {
        assert_eq!(Special::for_code(s.ntype().ch()), Some(*s));
    }
    assert_eq!(Special::for_code('E'), None);
    assert_eq!(Special::for_code('X'), None);
    assert!(Special::Plasticity.sensitizes_all());
    assert!(!Special::Loop.sensitizes_all());
}

#[test]
fn effector_letters() {
    assert_eq!(effector_for_code('T'), Some(0));
    assert_eq!(effector_for_code('D'), Some(1));
    assert_eq!(effector_for_code('B'), Some(2));
    assert_eq!(effector_for_code('C'), Some(3));
    assert_eq!(effector_for_code('Q'), None);
    assert_eq!(effector_for_code('L'), None);
    assert_eq!(effector_for_code('R'), None);
    assert_eq!(effector_for_code('U'), None);
    assert_eq!(kind_for_code('T'), NType::Effector);
    assert_eq!(kind_for_code('L'), NType::LoopDet);
    assert_eq!(kind_for_code('R'), NType::Randomizer);
    assert_eq!(kind_for_code('U'), NType::Value);
}

#[test]
fn special_links_by_kind() {
    let sens = default_sensors();
    let eff = [1, 2, 3, 4];
    let food = Special::Food.links(50, &sens, eff, &vec![]);
    assert_eq!(food.len(), 8 + 4);
    assert_eq!((food[0].from, food[0].to, food[0].strength), (1, 50, 400));
    assert_eq!((food[7].from, food[7].to), (22, 50));
    assert_eq!((food[8].from, food[8].to, food[8].strength), (50, 1, 250));
    let wall = Special::Wall.links(51, &sens, eff, &vec![]);
    assert_eq!(wall.len(), 12);
    assert_eq!((wall[0].from, wall[11].strength), (0, -180));
    let memory = Special::Memory.links(52, &sens, eff, &vec![]);
    assert_eq!(memory.len(), 28);
    assert!(memory.iter().all(|l| l.rec && !l.hormone));
    let src = Special::HormoneSrc.links(53, &sens, eff, &vec![]);
    assert_eq!(src.len(), 24);
    assert!(src.iter().all(|l| l.hormone && l.strength == 80 && l.to == 53));
    let query = Special::Query.links(54, &sens, eff, &vec![9, 8]);
    assert_eq!(query.len(), 26);
    assert_eq!((query[24].from, query[24].to, query[24].strength), (54, 9, 120));
    assert_eq!(query[25].to, 8);
    let lp = Special::Loop.links(55, &sens, eff, &vec![]);
    assert_eq!(lp.iter().map(|l| (l.to, l.strength)).collect::<Vec<_>>(), vec![(1, -50), (2, -50), (3, -50), (4, -50)]);
    assert!(Special::Plasticity.links(56, &sens, eff, &vec![]).is_empty());
    assert_eq!(Special::Speed.links(57, &sens, eff, &vec![])[0].strength, 100);
    assert_eq!(Special::HormoneSink.links(58, &sens, eff, &vec![])[3].strength, 80);
    assert_eq!(Special::AttnOut.links(59, &sens, eff, &vec![])[0].strength, 150);
}

#[test]
fn food_bonus_tiers() {
    assert_eq!(food_bonus(0), 0);
    assert_eq!(food_bonus(19), 0);
    assert_eq!(food_bonus(20), 1000);
    assert_eq!(food_bonus(35), 5000);
    assert_eq!(food_bonus(40), 10000);
    assert_eq!(food_bonus(50), 20000);
    assert_eq!(food_bonus(60), 40000);
    assert_eq!(food_bonus(70), 80000);
    assert_eq!(food_bonus(86), 150000);
    assert_eq!(food_bonus(90), 300000);
    assert_eq!(food_bonus(100), 500000);
    assert_eq!(food_bonus(usize::MAX), 500000);
}

#[test]
fn death_penalties() {
    assert_eq!(DeathReason::WallCollision.penalty(), 200);
    assert_eq!(DeathReason::SelfCollision.penalty(), 300);
    assert_eq!(DeathReason::Starvation.penalty(), 150);
    assert_eq!(DeathReason::Looping.penalty(), 250);
    assert_eq!(DeathReason::Unset.penalty(), 0);
    assert_eq!(DeathReason::Unset.as_str(), "");
}

#[test]
fn main_reason_prefers_most_frequent_then_last() {
    assert_eq!(main_reason(&vec![]), DeathReason::Unset);
    assert_eq!(
        main_reason(&vec![DeathReason::Starvation, DeathReason::WallCollision]),
        DeathReason::WallCollision
    );
    assert_eq!(
        main_reason(&vec![DeathReason::Looping, DeathReason::Looping]),
        DeathReason::Looping
    );
    assert_eq!(
        main_reason(&vec![
            DeathReason::Looping,
            DeathReason::WallCollision,
            DeathReason::Looping,
            DeathReason::SelfCollision,
        ]),
        DeathReason::Looping
    );
}

#[test]
fn firing_history_window() {
    let mut h = fresh_history();
    assert_eq!(h.len(), HIST_LEN);
    assert!(!fired_within(&h, HIST_LEN));
    record_firing(&mut h, true);
    assert_eq!(h.len(), HIST_LEN);
    assert!(fired_within(&h, 1));
    assert!(!fired_within(&h, 0));
    for _ in 0..7 {
        record_firing(&mut h, false);
    }
    assert!(!fired_within(&h, 7));
    assert!(fired_within(&h, 8));
    assert!(fired_within(&h, 100));
    for _ in 0..HIST_LEN {
        record_firing(&mut h, false);
    }
    assert!(!fired_within(&h, HIST_LEN));
}

#[test]
fn crossover_keeps_first_of_each_pair_in_order() {
    let keys = vec![(3, 1), (1, 2), (3, 1), (0, 9), (1, 2), (1, 1), (3, 0)];
    assert_eq!(crossover_order(&keys), vec![3, 5, 1, 6, 0]);
    assert_eq!(crossover_order(&vec![]), Vec::<usize>::new());
    assert_eq!(crossover_order(&vec![(2, 2), (2, 2), (2, 2)]), vec![0]);
}

#[test]
fn crossover_order_matches_stable_sort_and_dedup() {
    let keys: Vec<(u32, u32)> = (0..300u32).map(|i| ((i * 7919) % 13, (i * 104729) % 5)).collect();
    let mut idx: Vec<usize> = (0..keys.len()).collect();
    idx.sort_by_key(|&i| keys[i]);
    idx.dedup_by_key(|i| keys[*i]);
    assert_eq!(crossover_order(&keys), idx);
}

#[test]
fn drives_follow_the_snake_state() {
    assert_eq!(NType::LoopDet.drive(true, 0, 3, 0, 0), Some(20));
    assert_eq!(NType::LoopDet.drive(false, 0, 3, 0, 0), Some(0));
    assert_eq!(NType::FoodSeek.drive(false, 2, 5, 0, 0), Some(30));
    assert_eq!(NType::FoodSeek.drive(false, 3, 6, 0, 0), Some(0));
    assert_eq!(NType::WallAvoid.drive(false, 6, 9, 0, 0), Some(20));
    assert_eq!(NType::WallAvoid.drive(false, 5, 8, 0, 0), Some(0));
    assert_eq!(NType::Randomizer.drive(false, 0, 30, 1, 0), Some(15));
    assert_eq!(NType::Randomizer.drive(false, 0, 21, 2, 0), Some(20));
    assert_eq!(NType::Randomizer.drive(false, 0, 20, 2, 0), Some(0));
    assert_eq!(NType::Novelty.drive(false, 0, 3, 0, 1), Some(20));
    assert_eq!(NType::Novelty.drive(false, 0, 3, 0, 2), Some(0));
    assert_eq!(NType::Memory.drive(true, 0, 30, 0, 0), None);
    assert_eq!(NType::Oscillator.drive(true, 0, 30, 0, 0), None);
}

#[test]
fn relaying_kinds() {
    assert!(!NType::Excitatory.relays_charge());
    assert!(!NType::Inhibitory.relays_charge());
    assert!(!NType::Effector.relays_charge());
    assert!(!NType::Gate.relays_charge());
    assert!(NType::LoopDet.relays_charge());
    assert!(NType::PlasticityMod.relays_charge());
    assert!(NType::Query.relays_charge());
}

#[test]
fn missing_specials_in_order() {
    let all = all_specials();
    assert_eq!(missing_specials(&vec![]), all);
    assert!(missing_specials(&all).is_empty());
    let m = missing_specials(&vec![Special::Food, Special::Plasticity, Special::Loop]);
    assert_eq!(m.len(), 13);
    assert_eq!(m[0], Special::Wall);
    assert_eq!(m[12], Special::AttnOut);
}

#[test]
fn fillers_up_to_sixty() {
    assert_eq!(filler_count(0), 60);
    assert_eq!(filler_count(24), 36);
    assert_eq!(filler_count(60), 0);
    assert_eq!(filler_count(100), 0);
}
