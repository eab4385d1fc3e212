//! What the brain read back from a written genome holds: every neuron with
//! its kind and module, the same effectors, and every synapse's link.

use crate::genome::{entries, Gene};
use crate::genome_laws::{lemma_genome_round_trip, neuron_writable, record_read_back, synapse_writable};
use crate::genome_write::{effector_slot_of, genome_text, type_char, NeuronRecord, SynapseRecord};
use crate::ntype::NType;
use crate::skeleton::{
    absorb_all, absorb_gene, add_special, add_specials, circuits, empty_model, fresh, has_id,
    ids_below, lacking, lemma_add_specials_ids, lemma_circuits_complete, lemma_first_circuits,
    lemma_lacking_len, put, rebuilt, with_effectors, with_fillers, with_sensor_links,
    with_sensors, with_specials, NeuronSlot, SkeletonModel,
};
use crate::specials::{effector_for_code, kind_for_code, lemma_kind_letter_round_trip};
use vstd::prelude::*;

verus! {

/// The skeleton neuron that a neuron record is.
pub open spec fn slot_of(r: NeuronRecord) -> NeuronSlot {
    NeuronSlot { id: r.id, typ: r.typ, module: r.module }
}

/// Whether a brain's records can be written and read back whole: each fits a
/// genome (see `neuron_writable`, `synapse_writable`); neuron ids are
/// different and, as every id a synapse names, below 676 (two letters); the
/// four effector ids are different, the first not 0 (an empty brain's), and
/// the effector neurons are exactly the four.
pub open spec fn brain_writable(ns: Seq<NeuronRecord>, ss: Seq<SynapseRecord>, eff: [u32; 4]) -> bool {
    &&& forall|i: int| 0 <= i < ns.len() ==> neuron_writable(#[trigger] ns[i]) && ns[i].id < 676
    &&& forall|i: int| 0 <= i < ss.len() ==> synapse_writable(#[trigger] ss[i]) && ss[i].from < 676
        && ss[i].to < 676
    &&& forall|i: int, j: int| 0 <= i < j < ns.len() ==> ns[i].id != ns[j].id
    &&& forall|a: int, b: int| 0 <= a < b < 4 ==> eff[a] != eff[b]
    &&& eff[0] != 0
    &&& forall|i: int|
        0 <= i < ns.len() && (#[trigger] ns[i]).typ == NType::Effector ==> exists|k: int|
            0 <= k < 4 && ns[i].id == eff[k]
    &&& forall|k: int|
        #![trigger eff[k]]
        0 <= k < 4 ==> exists|i: int|
            0 <= i < ns.len() && (#[trigger] ns[i]).id == eff[k] && ns[i].typ == NType::Effector
}

/// Putting a neuron in keeps every neuron of another id and holds the new one.
proof fn lemma_put_contains(ns: Seq<NeuronSlot>, s: NeuronSlot)
    ensures
        put(ns, s).contains(s),
        forall|x: NeuronSlot| ns.contains(x) && x.id != s.id ==> #[trigger] put(ns, s).contains(x),
{
    let p = put(ns, s);
    if has_id(ns, s.id) {
        crate::skeleton::lemma_first_with(ns, s.id);
        let f = crate::skeleton::first_with(ns, s.id);
        assert(p[f] == s);
        assert forall|x: NeuronSlot| ns.contains(x) && x.id != s.id implies #[trigger] p.contains(x) by {
            let i = choose|i: int| 0 <= i < ns.len() && ns[i] == x;
            assert(p[i] == x);
        }
    } else {
        assert(p[ns.len() as int] == s);
        assert forall|x: NeuronSlot| ns.contains(x) && x.id != s.id implies #[trigger] p.contains(x) by {
            let i = choose|i: int| 0 <= i < ns.len() && ns[i] == x;
            assert(p[i] == x);
        }
    }
}

/// What the `i`-th gene of a written brain is, from its record.
proof fn lemma_gene_facts(
    ns: Seq<NeuronRecord>,
    ss: Seq<SynapseRecord>,
    eff: [u32; 4],
    gs: Seq<Gene>,
    i: int,
)
    requires
        brain_writable(ns, ss, eff),
        0 <= i < gs.len() == ns.len() + ss.len(),
        record_read_back(gs[i], ns, ss, eff, i),
    ensures
        i < ns.len() ==> (gs[i] matches Gene::Neuron(x) && x.id == ns[i].id && x.module
            == ns[i].module && kind_for_code(x.code as char) == ns[i].typ && effector_for_code(
            x.code as char,
        ) == if ns[i].typ == NType::Effector {
            Some(effector_slot_of(ns[i].id, eff))
        } else {
            None::<usize>
        }),
        i >= ns.len() ==> (gs[i] matches Gene::Synapse(y) && y.from == ss[i - ns.len()].from
            && y.to == ss[i - ns.len()].to),
{
    if i < ns.len() {
        let r = ns[i];
        assert(neuron_writable(r) && r.id < 676);
        lemma_kind_letter_round_trip(r.typ, r.id, eff);
        let c = type_char(r.typ, r.id, eff);
        assert((c as u8) as char == c);
    } else {
        assert(synapse_writable(ss[i - ns.len()]));
    }
}

/// Whether the first `j` genes have been taken in: every neuron among them is
/// there with its kind and module; each effector slot whose neuron came is
/// that neuron, and every other slot is as before; every synapse among them
/// has its link; and the ids are all below the next one.
spec fn absorbed(
    m0: SkeletonModel,
    m: SkeletonModel,
    ns: Seq<NeuronRecord>,
    ss: Seq<SynapseRecord>,
    eff: [u32; 4],
    j: int,
) -> bool {
    &&& fresh(m)
    &&& m.sens == m0.sens
    &&& forall|i: int| 0 <= i < j && i < ns.len() ==> m.neurons.contains(#[trigger] slot_of(ns[i]))
    &&& forall|k: int| 0 <= k < 4 ==> m.eff[k] == m0.eff[k] || m.eff[k] == eff[k]
    &&& forall|i: int, k: int|
        #![trigger ns[i], m.eff[k]]
        0 <= i < j && i < ns.len() && 0 <= k < 4 && ns[i].typ == NType::Effector
            && ns[i].id == eff[k] ==> m.eff[k] == eff[k]
    &&& forall|i: int|
        ns.len() <= i < j ==> m.links.contains((ss[i - ns.len()].from, #[trigger] ss[i - ns.len()].to))
}

/// Taking in the gene of neuron record `i` keeps `absorbed`.
#[verifier::spinoff_prover]
#[verifier::rlimit(60)]
proof fn lemma_absorb_neuron(
    m0: SkeletonModel,
    a: SkeletonModel,
    ns: Seq<NeuronRecord>,
    ss: Seq<SynapseRecord>,
    eff: [u32; 4],
    g: Gene,
    i: int,
)
    requires
        brain_writable(ns, ss, eff),
        0 <= i < ns.len(),
        absorbed(m0, a, ns, ss, eff, i),
        g matches Gene::Neuron(x) && x.id == ns[i].id && x.module == ns[i].module && kind_for_code(
            x.code as char,
        ) == ns[i].typ && effector_for_code(x.code as char) == if ns[i].typ == NType::Effector {
            Some(effector_slot_of(ns[i].id, eff))
        } else {
            None::<usize>
        },
    ensures
        absorbed(m0, absorb_gene(a, g), ns, ss, eff, i + 1),
{
    let b = absorb_gene(a, g);
    let r = ns[i];
    let s = slot_of(r);
    assert(b.neurons == put(a.neurons, s));
    lemma_put_contains(a.neurons, s);
    assert forall|t: int| 0 <= t < i + 1 && t < ns.len() implies b.neurons.contains(
        #[trigger] slot_of(ns[t]),
    ) by {
        if t < i {
            assert(a.neurons.contains(slot_of(ns[t])));
            assert(ns[t].id != r.id);
        }
    }
    assert forall|q: int| 0 <= q < b.neurons.len() implies #[trigger] b.neurons[q].id
        < b.ids.next_id by {
        if has_id(a.neurons, s.id) {
            crate::skeleton::lemma_first_with(a.neurons, s.id);
            let f = crate::skeleton::first_with(a.neurons, s.id);
            if q != f {
                assert(b.neurons[q] == a.neurons[q]);
            }
        } else if q < a.neurons.len() {
            assert(b.neurons[q] == a.neurons[q]);
        }
    }
    if r.typ == NType::Effector {
        let k = choose|k: int| 0 <= k < 4 && r.id == eff[k];
        assert(effector_slot_of(r.id, eff) == k);
        assert forall|t: int, k2: int|
            #![trigger ns[t], b.eff[k2]]
            0 <= t < i + 1 && t < ns.len() && 0 <= k2 < 4 && ns[t].typ == NType::Effector
                && ns[t].id == eff[k2] implies b.eff[k2] == eff[k2] by {
            if k2 != k {
                assert(a.eff[k2] == b.eff[k2]);
                if t == i {
                    assert(eff[k2] != eff[k]);
                }
            }
        }
        assert forall|k2: int| 0 <= k2 < 4 implies b.eff[k2] == m0.eff[k2] || b.eff[k2] == eff[k2] by {
            if k2 != k {
                assert(a.eff[k2] == b.eff[k2]);
            }
        }
    } else {
        assert(b.eff == a.eff);
    }
    assert forall|t: int|
        ns.len() <= t < i + 1 implies b.links.contains(
        (ss[t - ns.len()].from, #[trigger] ss[t - ns.len()].to),
    ) by {}
}

/// Taking in the gene of synapse record `i - ns.len()` keeps `absorbed`.
#[verifier::spinoff_prover]
#[verifier::rlimit(60)]
proof fn lemma_absorb_synapse(
    m0: SkeletonModel,
    a: SkeletonModel,
    ns: Seq<NeuronRecord>,
    ss: Seq<SynapseRecord>,
    eff: [u32; 4],
    g: Gene,
    i: int,
)
    requires
        ns.len() <= i < ns.len() + ss.len(),
        absorbed(m0, a, ns, ss, eff, i),
        g matches Gene::Synapse(y) && y.from == ss[i - ns.len()].from && y.to == ss[i - ns.len()].to,
    ensures
        absorbed(m0, absorb_gene(a, g), ns, ss, eff, i + 1),
{
    let b = absorb_gene(a, g);
    let p = (ss[i - ns.len()].from, ss[i - ns.len()].to);
    assert(b.links == a.links.push(p));
    assert forall|t: int|
        ns.len() <= t < i + 1 implies b.links.contains(
        (ss[t - ns.len()].from, #[trigger] ss[t - ns.len()].to),
    ) by {
        if t < i {
            let pt = (ss[t - ns.len()].from, ss[t - ns.len()].to);
            assert(a.links.contains(pt));
            let q = choose|q: int| 0 <= q < a.links.len() && a.links[q] == pt;
            assert(b.links[q] == pt);
        } else {
            assert(b.links[a.links.len() as int] == p);
        }
    }
    assert forall|t: int| 0 <= t < i + 1 && t < ns.len() implies b.neurons.contains(
        #[trigger] slot_of(ns[t]),
    ) by {}
    assert forall|q: int| 0 <= q < b.neurons.len() implies #[trigger] b.neurons[q].id
        < b.ids.next_id by {
        assert(b.neurons[q] == a.neurons[q]);
    }
}

/// Taking in the genes of a written brain one by one keeps `absorbed`.
proof fn lemma_absorb_steps(
    m0: SkeletonModel,
    ns: Seq<NeuronRecord>,
    ss: Seq<SynapseRecord>,
    eff: [u32; 4],
    gs: Seq<Gene>,
    j: int,
)
    requires
        brain_writable(ns, ss, eff),
        gs.len() == ns.len() + ss.len(),
        forall|i: int| 0 <= i < gs.len() ==> record_read_back(#[trigger] gs[i], ns, ss, eff, i),
        fresh(m0),
        0 <= j <= gs.len(),
    ensures
        absorbed(m0, absorb_all(m0, gs.take(j)), ns, ss, eff, j),
    decreases j,
{
    if j == 0 {
        assert(gs.take(0) =~= Seq::<Gene>::empty());
    } else {
        lemma_absorb_steps(m0, ns, ss, eff, gs, j - 1);
        let i = j - 1;
        assert(gs.take(j).drop_last() =~= gs.take(i));
        assert(gs.take(j).last() == gs[i]);
        let a = absorb_all(m0, gs.take(i));
        lemma_gene_facts(ns, ss, eff, gs, i);
        if i < ns.len() {
            lemma_absorb_neuron(m0, a, ns, ss, eff, gs[i], i);
        } else {
            lemma_absorb_synapse(m0, a, ns, ss, eff, gs[i], i);
        }
    }
}

/// Adding special neurons to a skeleton whose ids are all below the next one
/// keeps its neurons and links in place, and its effectors.
proof fn lemma_add_specials_keep(m: SkeletonModel, sps: Seq<crate::specials::Special>)
    requires
        fresh(m),
        m.ids.next_id + sps.len() <= u32::MAX,
    ensures
        ({
            let a = add_specials(m, sps);
            &&& fresh(a)
            &&& a.neurons.len() >= m.neurons.len()
            &&& a.neurons.take(m.neurons.len() as int) == m.neurons
            &&& a.links.len() >= m.links.len()
            &&& a.links.take(m.links.len() as int) == m.links
            &&& a.eff == m.eff
            &&& a.sens == m.sens
        }),
    decreases sps.len(),
{
    if sps.len() > 0 {
        lemma_add_specials_keep(m, sps.drop_last());
        lemma_add_specials_ids(m, sps.drop_last());
        let a = add_specials(m, sps.drop_last());
        let b = add_specials(m, sps);
        let s = NeuronSlot { id: a.ids.next_id, typ: sps.last().ntype(), module: a.ids.next_module };
        if has_id(a.neurons, s.id) {
            let q = choose|q: int| 0 <= q < a.neurons.len() && a.neurons[q].id == s.id;
            assert(a.neurons[q].id < a.ids.next_id);
        }
        assert(b.neurons == a.neurons.push(s));
        assert(b.neurons.take(m.neurons.len() as int) =~= m.neurons) by {
            assert forall|q: int| 0 <= q < m.neurons.len() implies b.neurons[q] == m.neurons[q] by {
                assert(a.neurons.take(m.neurons.len() as int)[q] == a.neurons[q]);
            }
        }
        let ls = crate::specials::special_links(
            sps.last(),
            a.ids.next_id,
            a.sens,
            a.eff,
            crate::skeleton::attn_outs(a.neurons),
        ).map_values(|l: crate::specials::Link| (l.from, l.to));
        assert(b.links == a.links + ls);
        assert(b.links.take(m.links.len() as int) =~= m.links) by {
            assert forall|q: int| 0 <= q < m.links.len() implies b.links[q] == m.links[q] by {
                assert(a.links.take(m.links.len() as int)[q] == a.links[q]);
            }
        }
        assert forall|q: int| 0 <= q < b.neurons.len() implies #[trigger] b.neurons[q].id
            < b.ids.next_id by {
            if q < a.neurons.len() {
                assert(b.neurons[q] == a.neurons[q]);
            }
        }
    }
}

/// The brain read back from a written genome: write a brain whose records
/// can be written and read back whole (see `brain_writable`), read the
/// genome's genes, and rebuild the brain from them as reading a genome does
/// (see `rebuilt`). Every neuron is there with its id, kind and module; the
/// effectors are the same; and every synapse's link is there. The genes'
/// neuron ids are small enough for `Skeleton::from_genes`.
#[verifier::spinoff_prover]
#[verifier::rlimit(80)]
pub proof fn lemma_brain_round_trip(
    ns: Seq<NeuronRecord>,
    ss: Seq<SynapseRecord>,
    eff: [u32; 4],
    gs: Seq<Gene>,
)
    requires
        ns.len() + ss.len() >= 1,
        brain_writable(ns, ss, eff),
        ({
            let g = vstd::utf8::encode_utf8(genome_text(ns, ss, eff));
            &&& gs.len() == entries(g).len()
            &&& forall|i: int| 0 <= i < gs.len() ==> #[trigger] gs[i].read_from(entries(g)[i])
        }),
    ensures
        ids_below(gs, 1_000_000),
        forall|i: int| 0 <= i < ns.len() ==> rebuilt(gs).neurons.contains(#[trigger] slot_of(ns[i])),
        rebuilt(gs).eff == eff,
        forall|i: int|
            0 <= i < ss.len() ==> rebuilt(gs).links.contains((ss[i].from, #[trigger] ss[i].to)),
{
    assert forall|k: int| 0 <= k < ns.len() implies neuron_writable(#[trigger] ns[k]) by {}
    assert forall|k: int| 0 <= k < ss.len() implies crate::genome_laws::synapse_writable(
        #[trigger] ss[k],
    ) by {}
    lemma_genome_round_trip(ns, ss, eff);
    let g = vstd::utf8::encode_utf8(genome_text(ns, ss, eff));
    assert forall|i: int| 0 <= i < gs.len() implies record_read_back(#[trigger] gs[i], ns, ss, eff, i) by {
        assert(gs[i].read_from(entries(g)[i]));
    }
    assert forall|i: int| 0 <= i < gs.len() implies match #[trigger] gs[i] {
        Gene::Neuron(n) => n.id < 1_000_000,
        Gene::Synapse(_) => true,
    } by {
        lemma_gene_facts(ns, ss, eff, gs, i);
    }
    let m0 = circuits(empty_model());
    lemma_first_circuits();
    lemma_circuits_complete(empty_model());
    lemma_absorb_steps(m0, ns, ss, eff, gs, gs.len() as int);
    assert(gs.take(gs.len() as int) =~= gs);
    let a = absorb_all(m0, gs);
    assert forall|k: int| 0 <= k < 4 implies a.eff[k] == eff[k] by {
        let i = choose|i: int| 0 <= i < ns.len() && (#[trigger] ns[i]).id == eff[k] && ns[i].typ
            == NType::Effector;
        assert(absorbed(m0, a, ns, ss, eff, gs.len() as int));
    }
    assert(a.eff =~= eff);
    crate::skeleton::lemma_absorb_bounds(m0, gs, 1_000_000);
    let w = with_specials(a);
    lemma_lacking_len(a);
    lemma_add_specials_keep(a, lacking(a));
    lemma_add_specials_ids(a, lacking(a));
    assert(w.sens.len() > 0);
    lemma_circuits_complete(w);
    let b = circuits(w);
    assert(b == rebuilt(gs));
    assert(with_effectors(with_sensors(w)).eff == eff);
    assert forall|i: int| 0 <= i < ns.len() implies b.neurons.contains(#[trigger] slot_of(ns[i])) by {
        assert(a.neurons.contains(slot_of(ns[i])));
        let q = choose|q: int| 0 <= q < a.neurons.len() && a.neurons[q] == slot_of(ns[i]);
        assert(w.neurons.take(a.neurons.len() as int)[q] == w.neurons[q]);
        assert(b.neurons.take(w.neurons.len() as int)[q] == b.neurons[q]);
    }
    assert forall|i: int| 0 <= i < ss.len() implies b.links.contains((ss[i].from, #[trigger] ss[i].to)) by {
        let t = ns.len() + i;
        assert(ss[t - ns.len()] == ss[i]);
        assert(a.links.contains((ss[i].from, ss[i].to)));
        let q = choose|q: int| 0 <= q < a.links.len() && a.links[q] == (ss[i].from, ss[i].to);
        assert(w.links.take(a.links.len() as int)[q] == w.links[q]);
        assert(b.links.take(w.links.len() as int)[q] == b.links[q]);
    }
}

} // verus!
