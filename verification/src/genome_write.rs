//! Writing a brain as a genome.

use vstd::prelude::*;
use crate::encoding::{code_of, push_char, push_code};
use crate::ntype::NType;

verus! {

/// The largest level a code can hold.
pub const MAX_LEVEL: usize = 675;

/// A value between two bounds as a genome codes it: its sign and its level,
/// the share of the way from the lower to the upper bound, in 675ths.
#[derive(Clone, Copy, Debug, PartialEq, Eq, Structural)]
pub struct Level {
    pub negative: bool,
    pub level: usize,
}

/// A neuron to be written.
#[derive(Clone, Debug)]
pub struct NeuronRecord {
    pub id: u32,
    pub typ: NType,
    pub threshold: Level,
    pub total: u64,
    pub food_ok: u64,
    pub w_death: u64,
    pub module: u8,
    /// The query, key and value vectors, four levels each.
    pub attention: Vec<Level>,
}

/// A synapse to be written.
#[derive(Clone, Copy, Debug, PartialEq, Eq, Structural)]
pub struct SynapseRecord {
    pub from: u32,
    pub to: u32,
    pub strength: Level,
    pub delay: u8,
    pub rec: bool,
    pub modu: bool,
    pub total: u64,
    pub food_ok: u64,
    pub w_death: u64,
    pub module: u8,
    pub attention: Level,
}

/// The smaller of two numbers.
pub open spec fn min(a: int, b: int) -> int {
    if a < b {
        a
    } else {
        b
    }
}

/// The three letters of a level code: `N` or `P` for the sign, then the level
/// (at most 675) in two letters.
pub open spec fn level_code(l: Level) -> Seq<char> {
    seq![if l.negative {
        'N'
    } else {
        'P'
    }] + code_of(min(l.level as int, MAX_LEVEL as int) as nat)
}

/// The level codes of `ls`, one after the other.
pub open spec fn level_codes(ls: Seq<Level>) -> Seq<char>
    decreases ls.len(),
{
    if ls.len() == 0 {
        seq![]
    } else {
        level_codes(ls.drop_last()) + level_code(ls.last())
    }
}

/// A count as a genome writes it: at most 675, in two letters.
pub open spec fn count_code(c: u64) -> Seq<char> {
    code_of(min(c as int, MAX_LEVEL as int) as nat)
}

/// The letter `A` moved on by `n`.
pub open spec fn offset_letter(n: u8) -> char {
    (65 + n) as char
}

/// The effector slot a genome writes for the effector `id`: the first of the
/// four effectors that is `id`, and the last (3) when none is.
pub open spec fn effector_slot_of(id: u32, eff: [u32; 4]) -> usize {
    if id == eff[0] {
        0
    } else if id == eff[1] {
        1
    } else if id == eff[2] {
        2
    } else {
        3
    }
}

/// The letter a genome writes for the effector in slot `slot`: `T`, `D`, `B`
/// and `C` for up, down, left and right, letters that name no kind of neuron.
pub open spec fn effector_letter(slot: usize) -> char {
    if slot == 0 {
        'T'
    } else if slot == 1 {
        'D'
    } else if slot == 2 {
        'B'
    } else {
        'C'
    }
}

/// The letter a genome writes for a neuron's kind: the kind's own letter, but
/// for an effector the letter of the direction it drives (see
/// `effector_slot_of` and `effector_letter`).
#[verifier::allow_in_spec]
pub fn type_char(typ: NType, id: u32, eff: [u32; 4]) -> char
    returns
        if typ == NType::Effector {
            effector_letter(effector_slot_of(id, eff))
        } else {
            typ.ch()
        },
{
    match typ {
        NType::Effector => {
            if id == eff[0] {
                'T'
            } else if id == eff[1] {
                'D'
            } else if id == eff[2] {
                'B'
            } else {
                'C'
            }
        },
        _ => typ.ch(),
    }
}

/// The entry a genome writes for a neuron: `N`, the id, the kind letter, the
/// threshold, three counts, the module letter, and for query, key and value
/// neurons their twelve vector levels.
#[verifier::opaque]
pub open spec fn neuron_entry(r: NeuronRecord, eff: [u32; 4]) -> Seq<char> {
    seq!['N'] + code_of(r.id as nat) + seq![type_char(r.typ, r.id, eff)] + level_code(r.threshold)
        + count_code(r.total) + count_code(r.food_ok) + count_code(r.w_death) + seq![
        offset_letter(r.module),
    ] + if r.typ.is_attention_source() {
        level_codes(r.attention@)
    } else {
        Seq::<char>::empty()
    }
}

/// The entry a genome writes for a synapse: `S`, both ends, the strength, the
/// delay letter, `R` or `F`, `M` or `S`, three counts, the module letter and the
/// attention weight.
#[verifier::opaque]
pub open spec fn synapse_entry(r: SynapseRecord) -> Seq<char> {
    seq!['S'] + code_of(r.from as nat) + code_of(r.to as nat) + level_code(r.strength) + seq![
        offset_letter(r.delay),
        if r.rec {
            'R'
        } else {
            'F'
        },
        if r.modu {
            'M'
        } else {
            'S'
        },
    ] + count_code(r.total) + count_code(r.food_ok) + count_code(r.w_death) + seq![
        offset_letter(r.module),
    ] + level_code(r.attention)
}

/// The pieces joined by `sep`.
pub open spec fn join<T>(es: Seq<Seq<T>>, sep: T) -> Seq<T>
    decreases es.len(),
{
    if es.len() == 0 {
        seq![]
    } else if es.len() == 1 {
        es[0]
    } else {
        es[0] + seq![sep] + join(es.drop_first(), sep)
    }
}

/// Appending a piece to at least one joins it on with the separator.
pub proof fn lemma_join_push<T>(es: Seq<Seq<T>>, e: Seq<T>, sep: T)
    requires
        es.len() >= 1,
    ensures
        join(es.push(e), sep) == join(es, sep) + seq![sep] + e,
    decreases es.len(),
{
    if es.len() == 1 {
        assert(es.push(e).drop_first() =~= seq![e]);
        assert(join(seq![e], sep) == e);
    } else {
        lemma_join_push(es.drop_first(), e, sep);
        assert(es.push(e).drop_first() =~= es.drop_first().push(e));
        assert(join(es.push(e), sep) =~= join(es, sep) + seq![sep] + e);
    }
}

/// The entries of a brain: its neurons, then its synapses.
pub open spec fn genome_entries(
    neurons: Seq<NeuronRecord>,
    synapses: Seq<SynapseRecord>,
    eff: [u32; 4],
) -> Seq<Seq<char>> {
    neurons.map_values(|r: NeuronRecord| neuron_entry(r, eff)) + synapses.map_values(
        |r: SynapseRecord| synapse_entry(r),
    )
}

/// The genome text: the entries joined by `|`, then the code of the byte
/// length of that (as a `usize`, modulo 456976; the code keeps it modulo
/// 676).
pub open spec fn genome_text(
    neurons: Seq<NeuronRecord>,
    synapses: Seq<SynapseRecord>,
    eff: [u32; 4],
) -> Seq<char> {
    let p = join(genome_entries(neurons, synapses, eff), '|');
    p + code_of(((vstd::utf8::encode_utf8(p).len() as usize) % 456976) as nat)
}

/// Appends a level code.
fn push_level(s: &mut String, l: Level)
    ensures
        final(s)@ == old(s)@ + level_code(l),
{
    push_char(
        s,
        if l.negative {
            'N'
        } else {
            'P'
        },
    );
    let v = if l.level < MAX_LEVEL {
        l.level
    } else {
        MAX_LEVEL
    };
    push_code(s, v);
    assert(final(s)@ =~= old(s)@ + level_code(l));
}

/// Appends a count code.
fn push_count(s: &mut String, c: u64)
    ensures
        final(s)@ == old(s)@ + count_code(c),
{
    let v: usize = if c < 675 {
        c as usize
    } else {
        MAX_LEVEL
    };
    push_code(s, v);
}

/// Appends the letter `A` moved on by `n`.
fn push_offset_letter(s: &mut String, n: u8)
    requires
        n <= 190,
    ensures
        final(s)@ == old(s)@.push(offset_letter(n)),
{
    let b: u8 = 65u8 + n;
    push_char(s, b as char);
}

/// Appends the entry of a neuron.
#[verifier::spinoff_prover]
#[verifier::rlimit(60)]
fn push_neuron_entry(s: &mut String, r: &NeuronRecord, eff: [u32; 4])
    requires
        r.module <= 190,
    ensures
        final(s)@ == old(s)@ + neuron_entry(*r, eff),
{
    let ghost s0 = s@;
    push_char(s, 'N');
    push_code(s, r.id as usize);
    push_char(s, type_char(r.typ, r.id, eff));
    push_level(s, r.threshold);
    push_count(s, r.total);
    push_count(s, r.food_ok);
    push_count(s, r.w_death);
    push_offset_letter(s, r.module);
    let ghost mid = s@;
    if r.typ.is_attention_source() {
        let n = r.attention.len();
        let mut i: usize = 0;
        while i < n
            invariant
                n == r.attention@.len(),
                i <= n,
                s@ == mid + level_codes(r.attention@.take(i as int)),
            decreases n - i,
        {
            push_level(s, r.attention[i]);
            proof {
                assert(r.attention@.take(i + 1).drop_last() =~= r.attention@.take(i as int));
                assert(s@ =~= mid + level_codes(r.attention@.take(i + 1)));
            }
            i = i + 1;
        }
        proof {
            assert(r.attention@.take(n as int) =~= r.attention@);
        }
    }
    proof {
        reveal(neuron_entry);
    }
    assert(s@ =~= s0 + neuron_entry(*r, eff));
}

/// Appends the entry of a synapse.
#[verifier::spinoff_prover]
#[verifier::rlimit(60)]
fn push_synapse_entry(s: &mut String, r: &SynapseRecord)
    requires
        r.module <= 190,
        r.delay <= 190,
    ensures
        final(s)@ == old(s)@ + synapse_entry(*r),
{
    let ghost s0 = s@;
    push_char(s, 'S');
    push_code(s, r.from as usize);
    push_code(s, r.to as usize);
    push_level(s, r.strength);
    push_offset_letter(s, r.delay);
    push_char(
        s,
        if r.rec {
            'R'
        } else {
            'F'
        },
    );
    push_char(
        s,
        if r.modu {
            'M'
        } else {
            'S'
        },
    );
    push_count(s, r.total);
    push_count(s, r.food_ok);
    push_count(s, r.w_death);
    push_offset_letter(s, r.module);
    push_level(s, r.attention);
    proof {
        reveal(synapse_entry);
    }
    assert(s@ =~= s0 + synapse_entry(*r));
}

/// Writes a brain as a genome: the entries of its neurons, then those of its
/// synapses, joined by `|`, then the two-letter code of the byte length of
/// that (see `genome_text`). `eff` names the brain's four effectors.
pub fn to_genome(neurons: &Vec<NeuronRecord>, synapses: &Vec<SynapseRecord>, eff: [u32; 4]) -> (g:
    String)
    requires
        forall|i: int| 0 <= i < neurons@.len() ==> (#[trigger] neurons@[i]).module <= 190,
        forall|i: int|
            0 <= i < synapses@.len() ==> (#[trigger] synapses@[i]).module <= 190
                && synapses@[i].delay <= 190,
    ensures
        g@ == genome_text(neurons@, synapses@, eff),
{
    let mut p = String::new();
    let ghost mut es: Seq<Seq<char>> = seq![];
    let nn = neurons.len();
    let mut i: usize = 0;
    while i < nn
        invariant
            nn == neurons@.len(),
            i <= nn,
            forall|k: int| 0 <= k < neurons@.len() ==> (#[trigger] neurons@[k]).module <= 190,
            es == neurons@.take(i as int).map_values(|r: NeuronRecord| neuron_entry(r, eff)),
            p@ == join(es, '|'),
        decreases nn - i,
    {
        let ghost e = neuron_entry(neurons@[i as int], eff);
        if i > 0 {
            push_char(&mut p, '|');
        }
        push_neuron_entry(&mut p, &neurons[i], eff);
        proof {
            if i > 0 {
                lemma_join_push(es, e, '|');
            } else {
                assert(join(es.push(e), '|') == e);
            }
            es = es.push(e);
            assert(es =~= neurons@.take(i + 1).map_values(|r: NeuronRecord| neuron_entry(r, eff)));
            assert(p@ =~= join(es, '|'));
        }
        i = i + 1;
    }
    let ghost ne = es;
    proof {
        assert(neurons@.take(nn as int) =~= neurons@);
    }
    let ns = synapses.len();
    let mut j: usize = 0;
    while j < ns
        invariant
            ns == synapses@.len(),
            j <= ns,
            forall|k: int|
                0 <= k < synapses@.len() ==> (#[trigger] synapses@[k]).module <= 190
                    && synapses@[k].delay <= 190,
            ne == neurons@.map_values(|r: NeuronRecord| neuron_entry(r, eff)),
            ne.len() == nn,
            es == ne + synapses@.take(j as int).map_values(|r: SynapseRecord| synapse_entry(r)),
            p@ == join(es, '|'),
        decreases ns - j,
    {
        let ghost e = synapse_entry(synapses@[j as int]);
        if nn > 0 || j > 0 {
            push_char(&mut p, '|');
        }
        push_synapse_entry(&mut p, &synapses[j]);
        proof {
            if nn > 0 || j > 0 {
                lemma_join_push(es, e, '|');
            } else {
                assert(join(es.push(e), '|') == e);
            }
            es = es.push(e);
            assert(es =~= ne + synapses@.take(j + 1).map_values(|r: SynapseRecord| synapse_entry(r)));
            assert(p@ =~= join(es, '|'));
        }
        j = j + 1;
    }
    proof {
        assert(synapses@.take(ns as int) =~= synapses@);
        assert(es =~= genome_entries(neurons@, synapses@, eff));
    }
    let len = p.as_str().len();
    push_code(&mut p, len % 456976);
    p
}

} // verus!
