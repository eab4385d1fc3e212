use bio_brain_snake::genome::parse_genome;
use bio_brain_snake::genome_write::{to_genome, Level, NeuronRecord, SynapseRecord};
use bio_brain_snake::ntype::NType;
use bio_brain_snake::skeleton::{NeuronSlot, Skeleton};
use bio_brain_snake::specials::{all_specials, Special};
use bio_brain_snake::wiring::{IdAllocator, SenT};

fn empty() -> Skeleton {
    Skeleton {
        ids: IdAllocator::new(),
        eff: [0; 4],
        sens: vec![],
        neurons: vec![],
        links: vec![],
        specials: vec![],
    }
}

#[test]
fn circuits_of_an_empty_skeleton() {
    let mut sk = empty();
    let g = sk.ensure_minimum_circuits();
    assert!(g.sensors_added);
    assert_eq!(sk.sens.len(), 24);
    assert_eq!(g.effectors, vec![0, 1, 2, 3]);
    assert_eq!(sk.eff, [0, 1, 2, 3]);
    assert_eq!(g.fillers.len(), 56);
    assert_eq!(g.fillers[0], NeuronSlot { id: 4, typ: NType::Memory, module: 0 });
    assert_eq!(g.fillers[1], NeuronSlot { id: 5, typ: NType::Randomizer, module: 1 });
    assert_eq!(sk.neurons.len(), 60);
    assert_eq!(g.links.len(), 24);
    assert_eq!((g.links[0].from, g.links[0].to, g.links[0].typ), (0, 0, SenT::Wall));
    assert_eq!(g.links[0].module, 16);
    assert_eq!(sk.links.len(), 24);
    assert_eq!(sk.ids.next_id, 60);
}

#[test]
fn a_first_effector_with_id_zero_gets_four_more() {
    let mut sk = empty();
    sk.ensure_minimum_circuits();
    let g = sk.ensure_minimum_circuits();
    assert_eq!(g.effectors, vec![60, 61, 62, 63]);
    assert!(g.fillers.is_empty());
    assert_eq!(g.links.len(), 24);
    let h = sk.ensure_minimum_circuits();
    assert!(h.effectors.is_empty() && h.fillers.is_empty() && h.links.is_empty() && !h.sensors_added);
}

#[test]
fn specials_are_added_once() {
    let mut sk = empty();
    sk.ensure_minimum_circuits();
    let g = sk.ensure_specials();
    assert_eq!(g.len(), 16);
    assert_eq!(g[0].special, Special::Loop);
    assert_eq!(g[0].id, 60);
    assert_eq!(g[0].links.len(), 4);
    assert_eq!(sk.specials, all_specials());
    assert!(sk.ensure_specials().is_empty());
}

#[test]
fn no_specials_without_sensors() {
    let mut sk = empty();
    assert!(sk.ensure_specials().is_empty());
    assert!(sk.neurons.is_empty());
}

#[test]
fn a_taken_id_is_replaced() {
    let mut sk = empty();
    sk.neurons.push(NeuronSlot { id: 0, typ: NType::Risk, module: 7 });
    let g = sk.ensure_minimum_circuits();
    assert_eq!(g.effectors, vec![0, 1, 2, 3]);
    assert_eq!(sk.neurons[0], NeuronSlot { id: 0, typ: NType::Effector, module: 0 });
    assert_eq!(g.fillers.len(), 56);
}

#[test]
fn brain_read_back_from_its_genome() {
    let lv = Level { negative: false, level: 300 };
    let neuron = |id: u32, typ: NType, module: u8| NeuronRecord {
        id,
        typ,
        threshold: lv,
        total: 1,
        food_ok: 2,
        w_death: 3,
        module,
        attention: vec![lv; 12],
    };
    let eff = [100, 101, 102, 103];
    let mut ns: Vec<NeuronRecord> = (0..4).map(|k| neuron(100 + k, NType::Effector, 1)).collect();
    ns.push(neuron(200, NType::LoopDet, 7));
    ns.push(neuron(201, NType::Query, 8));
    let ss = vec![SynapseRecord {
        from: 200,
        to: 102,
        strength: lv,
        delay: 2,
        rec: false,
        modu: true,
        total: 0,
        food_ok: 0,
        w_death: 0,
        module: 3,
        attention: lv,
    }];
    let genes = parse_genome(&to_genome(&ns, &ss, eff));
    let sk = Skeleton::from_genes(&genes);
    assert_eq!(sk.eff, eff);
    for r in &ns {
        assert!(sk.neurons.contains(&NeuronSlot { id: r.id, typ: r.typ, module: r.module }));
    }
    assert!(sk.links.contains(&(200, 102)));
    assert_eq!(sk.specials.len(), 16);
    assert_eq!(&sk.specials[..2], &[Special::Loop, Special::Query]);
    for sp in all_specials() {
        assert!(sk.specials.contains(&sp));
    }
    assert!(sk.ids.next_id >= 202);
}
