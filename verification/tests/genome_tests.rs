use bio_brain_snake::genome::{genome_is_readable, parse_genome, Gene};
use bio_brain_snake::genome_write::{to_genome, type_char, Level, NeuronRecord, SynapseRecord};
use bio_brain_snake::ntype::NType;
use bio_brain_snake::specials::{effector_for_code, kind_for_code};

fn lv(negative: bool, level: usize) -> Level {
    Level { negative, level }
}

fn neuron(id: u32, typ: NType, module: u8) -> NeuronRecord {
    NeuronRecord {
        id,
        typ,
        threshold: lv(false, 100),
        total: 5,
        food_ok: 0,
        w_death: 700,
        module,
        attention: (0..12).map(|i| lv(i % 2 == 1, i * 60)).collect(),
    }
}

fn synapse(from: u32, to: u32) -> SynapseRecord {
    SynapseRecord {
        from,
        to,
        strength: lv(true, 338),
        delay: 0,
        rec: true,
        modu: false,
        total: 1000,
        food_ok: 1,
        w_death: 2,
        module: 39,
        attention: lv(false, 675),
    }
}

#[test]
fn writes_neuron_and_synapse_entries() {
    let g = to_genome(&vec![neuron(3, NType::Excitatory, 2)], &vec![synapse(3, 700)], [0, 0, 0, 0]);
    assert_eq!(g, "NADEPDWAFAAZZC|SADAYNNAARSZZABAChPZZBK");
}

#[test]
fn writes_vectors_for_query_neurons() {
    let g = to_genome(&vec![neuron(1, NType::Query, 0)], &vec![], [0, 0, 0, 0]);
    let entry = &g[..g.len() - 2];
    assert_eq!(entry.len(), 50);
    assert_eq!(&entry[..14], "NABQPDWAFAAZZA");
    assert_eq!(&entry[14..20], "PAANCI");
}

#[test]
fn writes_effectors_by_direction() {
    let eff = [5, 6, 7, 8];
    assert_eq!(type_char(NType::Effector, 5, eff), 'T');
    assert_eq!(type_char(NType::Effector, 6, eff), 'D');
    assert_eq!(type_char(NType::Effector, 7, eff), 'B');
    assert_eq!(type_char(NType::Effector, 8, eff), 'C');
    assert_eq!(type_char(NType::Effector, 9, eff), 'C');
    assert_eq!(type_char(NType::Query, 5, eff), 'Q');
    assert_eq!(type_char(NType::Memory, 5, eff), 'M');
}

#[test]
fn empty_brain_writes_length_code_only() {
    let g = to_genome(&vec![], &vec![], [0, 0, 0, 0]);
    assert_eq!(g, "AA");
    assert!(genome_is_readable(&g));
    assert!(parse_genome(&g).is_empty());
}

#[test]
fn reads_back_every_entry_whole() {
    let g = to_genome(&vec![neuron(3, NType::Excitatory, 2)], &vec![synapse(3, 700)], [0, 0, 0, 0]);
    assert!(genome_is_readable(&g));
    let genes = parse_genome(&g);
    assert_eq!(genes.len(), 2);
    match &genes[0] {
        Gene::Neuron(n) => {
            assert_eq!(n.id, 3);
            assert_eq!(n.code, b'E');
            assert_eq!(n.threshold, 100);
            assert_eq!((n.total, n.food_ok, n.w_death), (5, 0, 675));
            assert_eq!(n.module, 2);
            assert!(n.attention.is_empty());
        },
        Gene::Synapse(_) => panic!("expected a neuron"),
    }
    match &genes[1] {
        Gene::Synapse(s) => {
            assert_eq!((s.from, s.to), (3, 24));
            assert_eq!(s.strength, 338);
            assert_eq!(s.delay, 0);
            assert!(s.rec && !s.modu);
            assert_eq!((s.total, s.food_ok, s.w_death), (675, 1, 2));
            assert_eq!(s.module, 39);
            assert_eq!(s.attention, Some(675));
        },
        Gene::Neuron(_) => panic!("expected a synapse"),
    }
}

#[test]
fn every_synapse_keeps_its_attention_weight() {
    let g = to_genome(&vec![], &vec![synapse(1, 2), synapse(2, 1)], [0, 0, 0, 0]);
    let genes = parse_genome(&g);
    assert_eq!(genes.len(), 2);
    match (&genes[0], &genes[1]) {
        (Gene::Synapse(a), Gene::Synapse(b)) => {
            assert_eq!(a.attention, Some(675));
            assert_eq!(b.attention, Some(675));
            assert_eq!((b.from, b.to), (2, 1));
        },
        _ => panic!("expected synapses"),
    }
}

#[test]
fn last_plain_neuron_is_kept() {
    let g = to_genome(
        &vec![neuron(1, NType::Memory, 0), neuron(2, NType::Risk, 1)],
        &vec![],
        [0, 0, 0, 0],
    );
    let genes = parse_genome(&g);
    assert_eq!(genes.len(), 2);
    match (&genes[0], &genes[1]) {
        (Gene::Neuron(a), Gene::Neuron(b)) => {
            assert_eq!((a.id, a.code), (1, b'M'));
            assert_eq!((b.id, b.code, b.module), (2, b'K', 1));
        },
        _ => panic!("expected neurons"),
    }
}

#[test]
fn effectors_read_back_as_effectors() {
    let eff = [4, 5, 6, 7];
    let ns: Vec<NeuronRecord> = (4..8).map(|id| neuron(id, NType::Effector, 0))
        .chain([neuron(8, NType::LoopDet, 0), neuron(9, NType::Randomizer, 0), neuron(10, NType::Value, 0)])
        .collect();
    let g = to_genome(&ns, &vec![], eff);
    let genes = parse_genome(&g);
    assert_eq!(genes.len(), 7);
    let mut kinds = Vec::new();
    let mut slots = Vec::new();
    for gene in &genes {
        match gene {
            Gene::Neuron(n) => {
                kinds.push(kind_for_code(n.code as char));
                slots.push(effector_for_code(n.code as char));
            },
            Gene::Synapse(_) => panic!("expected neurons"),
        }
    }
    assert_eq!(
        kinds,
        vec![
            NType::Effector,
            NType::Effector,
            NType::Effector,
            NType::Effector,
            NType::LoopDet,
            NType::Randomizer,
            NType::Value
        ]
    );
    assert_eq!(slots, vec![Some(0), Some(1), Some(2), Some(3), None, None, None]);
}

#[test]
fn query_neuron_vectors_round_trip() {
    let g = to_genome(
        &vec![neuron(1, NType::Key, 0), neuron(2, NType::Value, 1)],
        &vec![],
        [0, 0, 0, 0],
    );
    let genes = parse_genome(&g);
    assert_eq!(genes.len(), 2);
    match (&genes[0], &genes[1]) {
        (Gene::Neuron(a), Gene::Neuron(b)) => {
            let want: Vec<usize> = (0..12).map(|i| (i * 60).min(675)).collect();
            assert_eq!(a.attention, want);
            assert_eq!(a.code, b'Y');
            assert_eq!(b.attention, want);
            assert_eq!(b.code, b'U');
        },
        _ => panic!("expected neurons"),
    }
}

#[test]
fn parse_skips_short_and_unknown_pieces() {
    let genes = parse_genome("NAB|XYZ||SAB|NADEPDWAFAAZZC|QQQQ");
    assert_eq!(genes.len(), 1);
    match &genes[0] {
        Gene::Neuron(n) => assert_eq!(n.id, 3),
        Gene::Synapse(_) => panic!("expected a neuron"),
    }
}

#[test]
fn short_genome_is_read_whole() {
    assert!(parse_genome("NAB").is_empty());
    assert!(parse_genome("").is_empty());
}

#[test]
fn unreadable_genomes_are_detected() {
    assert!(genome_is_readable("NADEPDWAFAAZZC|XXXX"));
    assert!(!genome_is_readable("N1AEPDWAFAAZZCXXXX"));
    assert!(!genome_is_readable("NADEPDWAFAAZZ\u{e9}XXXX"));
    assert!(!genome_is_readable("SADAYNNAARSZZABAC!PZZXXXX"));
    assert!(genome_is_readable("garbage|that|is|no|entry"));
}

#[test]
fn non_ascii_outside_read_letters_is_fine() {
    let g = "NAAEPAAAAAAAAA|\u{e9}|ZZZZ";
    assert!(genome_is_readable(g));
    let genes = parse_genome(g);
    assert_eq!(genes.len(), 1);
    let tail = "NADEPDWAFAAZZC\u{e9}|AA";
    assert!(genome_is_readable(tail));
    assert_eq!(parse_genome(tail).len(), 1);
}
