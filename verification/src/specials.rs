//! The special neurons every brain carries, and the links each one gets.

use vstd::prelude::*;
use crate::genome_write::{effector_slot_of, type_char};
use crate::ntype::NType;
use crate::wiring::{SenT, Sensor};

verus! {

/// A special neuron: one of each is added to every brain that lacks it.
#[derive(Clone, Copy, Debug, PartialEq, Eq, Structural)]
pub enum Special {
    Loop,
    Food,
    Wall,
    Random,
    Memory,
    Speed,
    Risk,
    Novelty,
    HormoneSrc,
    HormoneSink,
    Osc,
    Query,
    Key,
    Value,
    AttnOut,
    Plasticity,
}

/// A link to be made: its ends, its strength in hundredths, whether it is
/// recurrent, and whether it feels the hormone level.
#[derive(Clone, Copy, Debug, PartialEq, Eq, Structural)]
pub struct Link {
    pub from: u32,
    pub to: u32,
    pub strength: i32,
    pub rec: bool,
    pub hormone: bool,
}

impl Special {
    /// The name under which a brain keeps the special neuron.
    pub fn name(&self) -> (s: &'static str)
        ensures
            match *self {
                Special::Loop => s@ == "loop"@,
                Special::Food => s@ == "food"@,
                Special::Wall => s@ == "wall"@,
                Special::Random => s@ == "random"@,
                Special::Memory => s@ == "memory"@,
                Special::Speed => s@ == "speed"@,
                Special::Risk => s@ == "risk"@,
                Special::Novelty => s@ == "novelty"@,
                Special::HormoneSrc => s@ == "hormone_src"@,
                Special::HormoneSink => s@ == "hormone_sink"@,
                Special::Osc => s@ == "osc"@,
                Special::Query => s@ == "query"@,
                Special::Key => s@ == "key"@,
                Special::Value => s@ == "value"@,
                Special::AttnOut => s@ == "attn_out"@,
                Special::Plasticity => s@ == "plasticity"@,
            },
    {
        match *self {
            Special::Loop => "loop",
            Special::Food => "food",
            Special::Wall => "wall",
            Special::Random => "random",
            Special::Memory => "memory",
            Special::Speed => "speed",
            Special::Risk => "risk",
            Special::Novelty => "novelty",
            Special::HormoneSrc => "hormone_src",
            Special::HormoneSink => "hormone_sink",
            Special::Osc => "osc",
            Special::Query => "query",
            Special::Key => "key",
            Special::Value => "value",
            Special::AttnOut => "attn_out",
            Special::Plasticity => "plasticity",
        }
    }

    /// The kind of the special neuron.
    #[verifier::allow_in_spec]
    pub fn ntype(&self) -> NType
        returns
            match *self {
                Special::Loop => NType::LoopDet,
                Special::Food => NType::FoodSeek,
                Special::Wall => NType::WallAvoid,
                Special::Random => NType::Randomizer,
                Special::Memory => NType::Memory,
                Special::Speed => NType::Speed,
                Special::Risk => NType::Risk,
                Special::Novelty => NType::Novelty,
                Special::HormoneSrc => NType::HormoneSrc,
                Special::HormoneSink => NType::HormoneSink,
                Special::Osc => NType::Oscillator,
                Special::Query => NType::Query,
                Special::Key => NType::Key,
                Special::Value => NType::Value,
                Special::AttnOut => NType::AttentionOut,
                Special::Plasticity => NType::PlasticityMod,
            },
    {
        match *self {
            Special::Loop => NType::LoopDet,
            Special::Food => NType::FoodSeek,
            Special::Wall => NType::WallAvoid,
            Special::Random => NType::Randomizer,
            Special::Memory => NType::Memory,
            Special::Speed => NType::Speed,
            Special::Risk => NType::Risk,
            Special::Novelty => NType::Novelty,
            Special::HormoneSrc => NType::HormoneSrc,
            Special::HormoneSink => NType::HormoneSink,
            Special::Osc => NType::Oscillator,
            Special::Query => NType::Query,
            Special::Key => NType::Key,
            Special::Value => NType::Value,
            Special::AttnOut => NType::AttentionOut,
            Special::Plasticity => NType::PlasticityMod,
        }
    }

    /// The special neuron that a genome's kind letter names, if any.
    #[verifier::allow_in_spec]
    pub fn for_code(c: char) -> Option<Special>
        returns
            match c {
                'L' => Some(Special::Loop),
                'F' => Some(Special::Food),
                'W' => Some(Special::Wall),
                'R' => Some(Special::Random),
                'M' => Some(Special::Memory),
                'S' => Some(Special::Speed),
                'K' => Some(Special::Risk),
                'V' => Some(Special::Novelty),
                'H' => Some(Special::HormoneSrc),
                'Z' => Some(Special::HormoneSink),
                'O' => Some(Special::Osc),
                'Q' => Some(Special::Query),
                'Y' => Some(Special::Key),
                'U' => Some(Special::Value),
                'A' => Some(Special::AttnOut),
                'P' => Some(Special::Plasticity),
                _ => None,
            },
    {
        match c {
            'L' => Some(Special::Loop),
            'F' => Some(Special::Food),
            'W' => Some(Special::Wall),
            'R' => Some(Special::Random),
            'M' => Some(Special::Memory),
            'S' => Some(Special::Speed),
            'K' => Some(Special::Risk),
            'V' => Some(Special::Novelty),
            'H' => Some(Special::HormoneSrc),
            'Z' => Some(Special::HormoneSink),
            'O' => Some(Special::Osc),
            'Q' => Some(Special::Query),
            'Y' => Some(Special::Key),
            'U' => Some(Special::Value),
            'A' => Some(Special::AttnOut),
            'P' => Some(Special::Plasticity),
            _ => None,
        }
    }

    /// Whether adding this special neuron makes every synapse feel the
    /// hormone level.
    pub fn sensitizes_all(&self) -> (b: bool)
        ensures
            b == (*self == Special::Plasticity),
    {
        match *self {
            Special::Plasticity => true,
            _ => false,
        }
    }
}

/// The special neurons in the order they are added.
pub open spec fn special_order() -> Seq<Special> {
    seq![
        Special::Loop,
        Special::Food,
        Special::Wall,
        Special::Random,
        Special::Memory,
        Special::Speed,
        Special::Risk,
        Special::Novelty,
        Special::HormoneSrc,
        Special::HormoneSink,
        Special::Osc,
        Special::Query,
        Special::Key,
        Special::Value,
        Special::AttnOut,
        Special::Plasticity,
    ]
}

/// The special neurons in the order they are added.
pub fn all_specials() -> (v: Vec<Special>)
    ensures
        v@ == special_order(),
{
    let v = vec![
        Special::Loop,
        Special::Food,
        Special::Wall,
        Special::Random,
        Special::Memory,
        Special::Speed,
        Special::Risk,
        Special::Novelty,
        Special::HormoneSrc,
        Special::HormoneSink,
        Special::Osc,
        Special::Query,
        Special::Key,
        Special::Value,
        Special::AttnOut,
        Special::Plasticity,
    ];
    assert(v@ =~= special_order());
    v
}

/// Whether `sp` is among `present`.
fn is_present(present: &Vec<Special>, sp: Special) -> (b: bool)
    ensures
        b == present@.contains(sp),
{
    let n = present.len();
    let mut i: usize = 0;
    while i < n
        invariant
            n == present@.len(),
            i <= n,
            forall|k: int| 0 <= k < i ==> present@[k] != sp,
        decreases n - i,
    {
        if present[i] == sp {
            return true;
        }
        i = i + 1;
    }
    false
}

/// The special neurons a brain still lacks, given those it has, in the order
/// they are added.
pub fn missing_specials(present: &Vec<Special>) -> (m: Vec<Special>)
    ensures
        m@ == special_order().filter(|sp: Special| !present@.contains(sp)),
{
    let all = all_specials();
    let ghost pred = |sp: Special| !present@.contains(sp);
    let mut m: Vec<Special> = Vec::new();
    let n = all.len();
    let mut i: usize = 0;
    while i < n
        invariant
            n == all@.len(),
            all@ == special_order(),
            i <= n,
            pred == (|sp: Special| !present@.contains(sp)),
            m@ == all@.take(i as int).filter(pred),
        decreases n - i,
    {
        proof {
            reveal_with_fuel(Seq::filter, 1);
            assert(all@.take(i + 1).drop_last() =~= all@.take(i as int));
        }
        if !is_present(present, all[i]) {
            m.push(all[i]);
        }
        i = i + 1;
    }
    proof {
        assert(all@.take(n as int) =~= all@);
    }
    m
}

/// The effector that a genome's kind letter puts a neuron in charge of: `T`,
/// `D`, `B` and `C` for effectors 0 to 3 (up, down, left, right).
#[verifier::allow_in_spec]
pub fn effector_for_code(c: char) -> Option<usize>
    returns
        match c {
            'T' => Some(0usize),
            'D' => Some(1usize),
            'B' => Some(2usize),
            'C' => Some(3usize),
            _ => None,
        },
{
    match c {
        'T' => Some(0),
        'D' => Some(1),
        'B' => Some(2),
        'C' => Some(3),
        _ => None,
    }
}

/// The kind of neuron a genome's kind letter stands for: an effector for the
/// letter of an effector, and otherwise the kind the letter names.
#[verifier::allow_in_spec]
pub fn kind_for_code(c: char) -> NType
    returns
        if effector_for_code(c) is Some {
            NType::Effector
        } else {
            NType::from(c)
        },
{
    match effector_for_code(c) {
        Some(_) => NType::Effector,
        None => NType::from(c),
    }
}

/// The kind letter a genome writes reads back as the neuron's kind, and as
/// its effector slot exactly when it is an effector: no kind's letter is
/// taken for an effector's, nor the other way round.
pub proof fn lemma_kind_letter_round_trip(typ: NType, id: u32, eff: [u32; 4])
    ensures
        kind_for_code(type_char(typ, id, eff)) == typ,
        effector_for_code(type_char(typ, id, eff)) == if typ == NType::Effector {
            Some(effector_slot_of(id, eff))
        } else {
            None::<usize>
        },
{
}

/// Each special neuron is named by the letter of its kind, and its kind is
/// the one its letter names.
pub proof fn lemma_special_code_round_trip(sp: Special)
    ensures
        Special::for_code(sp.ntype().ch()) == Some(sp),
        NType::from(sp.ntype().ch()) == sp.ntype(),
{
}

/// Links from `id` to each of the four effectors.
pub open spec fn to_effectors(id: u32, eff: [u32; 4], strength: i32, rec: bool, hormone: bool) -> Seq<
    Link,
> {
    Seq::new(
        4,
        |k: int| Link { from: id, to: eff[k], strength: strength, rec: rec, hormone: hormone },
    )
}

/// Whether a sensor of kind `t` is one that `kind` asks for (all when `None`).
pub open spec fn kind_matches(kind: Option<SenT>, t: SenT) -> bool {
    match kind {
        Some(k) => t == k,
        None => true,
    }
}

/// Links to `id` from each sensor of the asked kind, numbered by their place
/// in `sens`.
pub open spec fn from_sensors(
    sens: Seq<Sensor>,
    kind: Option<SenT>,
    id: u32,
    strength: i32,
    rec: bool,
    hormone: bool,
) -> Seq<Link> {
    Seq::new(sens.len(), |k: int| k).filter(|k: int| kind_matches(kind, sens[k].typ)).map_values(
        |k: int| Link { from: k as u32, to: id, strength: strength, rec: rec, hormone: hormone },
    )
}

/// Links from `id` to each of the attention outputs.
pub open spec fn to_outputs(id: u32, outs: Seq<u32>) -> Seq<Link> {
    outs.map_values(|o: u32| Link { from: id, to: o, strength: 120, rec: false, hormone: false })
}

/// The links a new special neuron `id` gets, given the brain's sensors, its
/// effectors and its attention outputs.
pub open spec fn special_links(
    sp: Special,
    id: u32,
    sens: Seq<Sensor>,
    eff: [u32; 4],
    outs: Seq<u32>,
) -> Seq<Link> {
    match sp {
        Special::Loop => to_effectors(id, eff, -50i32, false, false),
        Special::Food => from_sensors(sens, Some(SenT::Food), id, 400, false, false) + to_effectors(
            id,
            eff,
            250,
            false,
            false,
        ),
        Special::Wall => from_sensors(sens, Some(SenT::Wall), id, 250, false, false) + to_effectors(
            id,
            eff,
            -180i32,
            false,
            false,
        ),
        Special::Random => to_effectors(id, eff, 150, false, false),
        Special::Memory => from_sensors(sens, None, id, 150, true, false) + to_effectors(
            id,
            eff,
            120,
            true,
            false,
        ),
        Special::HormoneSrc => from_sensors(sens, None, id, 80, false, true),
        Special::HormoneSink => to_effectors(id, eff, 80, false, true),
        Special::Osc => to_effectors(id, eff, 100, false, false),
        Special::Query | Special::Key | Special::Value => from_sensors(
            sens,
            None,
            id,
            100,
            false,
            false,
        ) + to_outputs(id, outs),
        Special::AttnOut => to_effectors(id, eff, 150, false, false),
        Special::Plasticity => Seq::empty(),
        Special::Speed | Special::Risk | Special::Novelty => to_effectors(
            id,
            eff,
            100,
            false,
            false,
        ),
    }
}

/// Appends links from `id` to each effector.
fn push_to_effectors(
    links: &mut Vec<Link>,
    id: u32,
    eff: [u32; 4],
    strength: i32,
    rec: bool,
    hormone: bool,
)
    ensures
        final(links)@ == old(links)@ + to_effectors(id, eff, strength, rec, hormone),
{
    let mut k: usize = 0;
    let ghost start = links@;
    while k < 4
        invariant
            k <= 4,
            links@ == start + to_effectors(id, eff, strength, rec, hormone).take(k as int),
        decreases 4 - k,
    {
        links.push(Link { from: id, to: eff[k], strength, rec, hormone });
        proof {
            assert(links@ =~= start + to_effectors(id, eff, strength, rec, hormone).take(k + 1));
        }
        k = k + 1;
    }
    assert(to_effectors(id, eff, strength, rec, hormone).take(4) =~= to_effectors(
        id,
        eff,
        strength,
        rec,
        hormone,
    ));
}

/// Whether a sensor kind is the asked one.
fn kind_matches_exec(kind: Option<SenT>, t: SenT) -> (b: bool)
    ensures
        b == kind_matches(kind, t),
{
    match kind {
        Some(k) => t == k,
        None => true,
    }
}

/// Appends links to `id` from each sensor of the asked kind.
fn push_from_sensors(
    links: &mut Vec<Link>,
    sens: &Vec<Sensor>,
    kind: Option<SenT>,
    id: u32,
    strength: i32,
    rec: bool,
    hormone: bool,
)
    requires
        sens@.len() <= u32::MAX,
    ensures
        final(links)@ == old(links)@ + from_sensors(sens@, kind, id, strength, rec, hormone),
{
    let ghost start = links@;
    let ghost idx = Seq::new(sens@.len(), |k: int| k);
    let ghost pred = |k: int| kind_matches(kind, sens@[k].typ);
    let ghost f = |k: int|
        Link { from: k as u32, to: id, strength: strength, rec: rec, hormone: hormone };
    let n = sens.len();
    let mut i: usize = 0;
    while i < n
        invariant
            n == sens@.len(),
            n <= u32::MAX,
            i <= n,
            idx == Seq::new(sens@.len(), |k: int| k),
            pred == (|k: int| kind_matches(kind, sens@[k].typ)),
            f == (|k: int|
                Link { from: k as u32, to: id, strength: strength, rec: rec, hormone: hormone }),
            links@ == start + idx.take(i as int).filter(pred).map_values(f),
        decreases n - i,
    {
        proof {
            reveal_with_fuel(Seq::filter, 1);
            assert(idx.take(i + 1).drop_last() =~= idx.take(i as int));
        }
        let ghost before = idx.take(i as int).filter(pred);
        if kind_matches_exec(kind, sens[i].typ) {
            links.push(Link { from: i as u32, to: id, strength, rec, hormone });
            proof {
                assert(links@ =~= start + before.push(i as int).map_values(f));
            }
        }
        i = i + 1;
    }
    proof {
        assert(idx.take(n as int) =~= idx);
    }
}

impl Special {
    /// The links that the new special neuron `id` gets: see `special_links`.
    pub fn links(&self, id: u32, sens: &Vec<Sensor>, eff: [u32; 4], outs: &Vec<u32>) -> (links: Vec<
        Link,
    >)
        requires
            sens@.len() <= u32::MAX,
        ensures
            links@ == special_links(*self, id, sens@, eff, outs@),
    {
        let mut links: Vec<Link> = Vec::new();
        match *self {
            Special::Loop => push_to_effectors(&mut links, id, eff, -50, false, false),
            Special::Food => {
                push_from_sensors(&mut links, sens, Some(SenT::Food), id, 400, false, false);
                push_to_effectors(&mut links, id, eff, 250, false, false);
            },
            Special::Wall => {
                push_from_sensors(&mut links, sens, Some(SenT::Wall), id, 250, false, false);
                push_to_effectors(&mut links, id, eff, -180, false, false);
            },
            Special::Random => push_to_effectors(&mut links, id, eff, 150, false, false),
            Special::Memory => {
                push_from_sensors(&mut links, sens, None, id, 150, true, false);
                push_to_effectors(&mut links, id, eff, 120, true, false);
            },
            Special::HormoneSrc => push_from_sensors(&mut links, sens, None, id, 80, false, true),
            Special::HormoneSink => push_to_effectors(&mut links, id, eff, 80, false, true),
            Special::Osc => push_to_effectors(&mut links, id, eff, 100, false, false),
            Special::Query | Special::Key | Special::Value => {
                push_from_sensors(&mut links, sens, None, id, 100, false, false);
                let ghost mid = links@;
                let n = outs.len();
                let mut i: usize = 0;
                while i < n
                    invariant
                        n == outs@.len(),
                        i <= n,
                        links@ == mid + to_outputs(id, outs@.take(i as int)),
                    decreases n - i,
                {
                    links.push(Link { from: id, to: outs[i], strength: 120, rec: false, hormone: false });
                    proof {
                        assert(outs@.take(i + 1) =~= outs@.take(i as int).push(outs@[i as int]));
                        assert(links@ =~= mid + to_outputs(id, outs@.take(i + 1)));
                    }
                    i = i + 1;
                }
                proof {
                    assert(outs@.take(n as int) =~= outs@);
                }
            },
            Special::AttnOut => push_to_effectors(&mut links, id, eff, 150, false, false),
            Special::Plasticity => {},
            Special::Speed | Special::Risk | Special::Novelty => push_to_effectors(
                &mut links,
                id,
                eff,
                100,
                false,
                false,
            ),
        }
        proof {
            assert(links@ =~= special_links(*self, id, sens@, eff, outs@));
        }
        links
    }
}

/// The positions below `n` that a filter keeps go strictly up and lie below
/// `n`; each position that passes is kept; with a filter that passes all,
/// all are kept in order.
proof fn lemma_index_filter(n: nat, p: spec_fn(int) -> bool)
    ensures
        ({
            let f = Seq::new(n, |k: int| k).filter(p);
            &&& forall|j: int| 0 <= j < f.len() ==> 0 <= #[trigger] f[j] < n && p(f[j])
            &&& forall|j: int, j2: int| 0 <= j < j2 < f.len() ==> f[j] < f[j2]
            &&& forall|k: int| 0 <= k < n && p(k) ==> #[trigger] f.contains(k)
            &&& (forall|k: int| 0 <= k < n ==> #[trigger] p(k)) ==> f == Seq::new(n, |k: int| k)
        }),
    decreases n,
{
    reveal_with_fuel(Seq::filter, 1);
    let all = Seq::new(n, |k: int| k);
    let f = all.filter(p);
    if n > 0 {
        lemma_index_filter((n - 1) as nat, p);
        let prev = Seq::new((n - 1) as nat, |k: int| k);
        assert(all.drop_last() =~= prev);
        let g = prev.filter(p);
        assert(all.last() == n - 1);
        assert(f == if p(n - 1) {
            g.push(n - 1)
        } else {
            g
        });
        assert forall|j: int| 0 <= j < f.len() implies 0 <= #[trigger] f[j] < n && p(f[j]) by {
            if j < g.len() {
                assert(f[j] == g[j]);
            }
        }
        assert forall|j: int, j2: int| 0 <= j < j2 < f.len() implies f[j] < f[j2] by {
            if j2 < g.len() {
                assert(f[j] == g[j] && f[j2] == g[j2]);
            } else {
                assert(f[j] == g[j]);
            }
        }
        assert forall|k: int| 0 <= k < n && p(k) implies #[trigger] f.contains(k) by {
            if k < n - 1 {
                assert(g.contains(k));
                let j = choose|j: int| 0 <= j < g.len() && g[j] == k;
                assert(f[j] == k);
            } else {
                assert(f[g.len() as int] == k);
            }
        }
        if forall|k: int| 0 <= k < n ==> #[trigger] p(k) {
            assert(p(n - 1));
            assert(forall|k: int| 0 <= k < n - 1 ==> #[trigger] p(k));
            assert(g == prev);
            assert(f =~= all);
        }
    } else {
        assert(f =~= Seq::<int>::empty());
        assert(all =~= Seq::<int>::empty());
    }
}

/// The links from sensors to a special neuron, in literal terms: each runs
/// from a sensor of the asked kind (any kind for `None`) to `id`, with the
/// given strength and flags, sensors in increasing order and each sensor of
/// the kind once; with `None`, every sensor in order.
pub proof fn lemma_from_sensors_links(
    sens: Seq<Sensor>,
    kind: Option<SenT>,
    id: u32,
    strength: i32,
    rec: bool,
    hormone: bool,
)
    requires
        sens.len() <= u32::MAX,
    ensures
        ({
            let f = from_sensors(sens, kind, id, strength, rec, hormone);
            &&& forall|j: int|
                0 <= j < f.len() ==> {
                    &&& (#[trigger] f[j]).to == id
                    &&& f[j].strength == strength
                    &&& f[j].rec == rec
                    &&& f[j].hormone == hormone
                    &&& f[j].from < sens.len()
                    &&& (kind matches Some(t) ==> sens[f[j].from as int].typ == t)
                }
            &&& forall|j: int, j2: int| 0 <= j < j2 < f.len() ==> f[j].from < f[j2].from
            &&& forall|k: int|
                #![trigger sens[k]]
                0 <= k < sens.len() && (kind matches Some(t) ==> sens[k].typ == t) ==> exists|j: int|
                    0 <= j < f.len() && #[trigger] f[j].from == k
            &&& kind is None ==> f.len() == sens.len() && forall|j: int|
                0 <= j < f.len() ==> (#[trigger] f[j]).from == j
        }),
{
    let p = |k: int| kind_matches(kind, sens[k].typ);
    lemma_index_filter(sens.len(), p);
    let idx = Seq::new(sens.len(), |k: int| k).filter(p);
    let f = from_sensors(sens, kind, id, strength, rec, hormone);
    assert(f.len() == idx.len());
    assert forall|j: int| 0 <= j < f.len() implies (#[trigger] f[j]).from == idx[j] by {
        assert(0 <= idx[j] < sens.len());
    }
    assert forall|k: int|
        #![trigger sens[k]]
        0 <= k < sens.len() && (kind matches Some(t) ==> sens[k].typ == t) implies exists|j: int|
        0 <= j < f.len() && #[trigger] f[j].from == k by {
        assert(p(k));
        assert(idx.contains(k));
        let j = choose|j: int| 0 <= j < idx.len() && idx[j] == k;
        assert(f[j].from == idx[j]);
    }
}

/// The links of each special neuron, in literal terms. The ones that drive
/// the effectors alone get one link to each effector in turn: loop detector
/// -0.50, randomizer 1.50, hormone sink 0.80 (feeling the hormone level),
/// oscillator 1.00, attention output 1.50, speed, risk and novelty 1.00.
/// Plasticity gets none. Food and wall neurons get a link from each food or
/// wall sensor (4.00 and 2.50), then one to each effector (2.50 and -1.80);
/// the memory neuron one from every sensor, 1.50, then one to each effector,
/// 1.20, all recurrent; the hormone source one from every sensor, 0.80,
/// feeling the hormone level; query, key and value neurons one from every
/// sensor, 1.00, then one to each attention output, 1.20.
pub proof fn lemma_special_links_literal(
    sp: Special,
    id: u32,
    sens: Seq<Sensor>,
    eff: [u32; 4],
    outs: Seq<u32>,
)
    requires
        sens.len() <= u32::MAX,
    ensures
        ({
            let l = special_links(sp, id, sens, eff, outs);
            let n = sens.len() as int;
            let e = (l.len() - 4) as int;
            &&& (sp == Special::Loop || sp == Special::Random || sp == Special::HormoneSink || sp
                == Special::Osc || sp == Special::AttnOut || sp == Special::Speed || sp
                == Special::Risk || sp == Special::Novelty) ==> l.len() == 4 && forall|k: int|
                0 <= k < 4 ==> (#[trigger] l[k]).from == id && l[k].to == eff[k] && !l[k].rec
                    && l[k].strength == (if sp == Special::Loop {
                    -50i32
                } else if sp == Special::Random || sp == Special::AttnOut {
                    150i32
                } else if sp == Special::HormoneSink {
                    80i32
                } else {
                    100i32
                }) && l[k].hormone == (sp == Special::HormoneSink)
            &&& sp == Special::Plasticity ==> l.len() == 0
            &&& (sp == Special::Food || sp == Special::Wall || sp == Special::Memory) ==> {
                &&& l.len() >= 4
                &&& forall|k: int|
                    0 <= k < 4 ==> (#[trigger] l[e + k]).from == id && l[e + k].to == eff[k]
                        && !l[e + k].hormone && l[e + k].rec == (sp == Special::Memory)
                        && l[e + k].strength == (if sp == Special::Food {
                        250i32
                    } else if sp == Special::Wall {
                        -180i32
                    } else {
                        120i32
                    })
                &&& forall|j: int|
                    0 <= j < e ==> (#[trigger] l[j]).to == id && l[j].from < n && !l[j].hormone
                        && l[j].rec == (sp == Special::Memory) && l[j].strength == (if sp
                        == Special::Food {
                        400i32
                    } else if sp == Special::Wall {
                        250i32
                    } else {
                        150i32
                    }) && (sp == Special::Food ==> sens[l[j].from as int].typ == SenT::Food) && (
                    sp == Special::Wall ==> sens[l[j].from as int].typ == SenT::Wall)
                &&& forall|j: int, j2: int| 0 <= j < j2 < e ==> l[j].from < l[j2].from
                &&& forall|k: int|
                    #![trigger sens[k]]
                    0 <= k < n && (sp == Special::Memory || (sp == Special::Food && sens[k].typ
                        == SenT::Food) || (sp == Special::Wall && sens[k].typ == SenT::Wall))
                        ==> exists|j: int| 0 <= j < e && #[trigger] l[j].from == k
            }
            &&& sp == Special::HormoneSrc ==> l.len() == n && forall|j: int|
                0 <= j < n ==> (#[trigger] l[j]) == Link {
                    from: j as u32,
                    to: id,
                    strength: 80,
                    rec: false,
                    hormone: true,
                }
            &&& (sp == Special::Query || sp == Special::Key || sp == Special::Value) ==> {
                &&& l.len() == n + outs.len()
                &&& forall|j: int|
                    0 <= j < n ==> (#[trigger] l[j]) == Link {
                        from: j as u32,
                        to: id,
                        strength: 100,
                        rec: false,
                        hormone: false,
                    }
                &&& forall|q: int|
                    0 <= q < outs.len() ==> (#[trigger] l[n + q]) == Link {
                        from: id,
                        to: outs[q],
                        strength: 120,
                        rec: false,
                        hormone: false,
                    }
            }
        }),
{
    let l = special_links(sp, id, sens, eff, outs);
    let n = sens.len() as int;
    match sp {
        Special::Food => {
            lemma_from_sensors_links(sens, Some(SenT::Food), id, 400, false, false);
            let f = from_sensors(sens, Some(SenT::Food), id, 400, false, false);
            let t = to_effectors(id, eff, 250, false, false);
            assert(l == f + t);
            let e = f.len() as int;
            assert forall|k: int| 0 <= k < 4 implies #[trigger] l[e + k] == t[k] by {}
            assert forall|j: int| 0 <= j < e implies #[trigger] l[j] == f[j] by {}
            assert forall|k: int|
                #![trigger sens[k]]
                0 <= k < n && sens[k].typ == SenT::Food implies exists|j: int| 0 <= j < e && #[trigger] l[j].from == k by {
                let j = choose|j: int| 0 <= j < f.len() && #[trigger] f[j].from == k;
                assert(l[j] == f[j]);
            }
        },
        Special::Wall => {
            lemma_from_sensors_links(sens, Some(SenT::Wall), id, 250, false, false);
            let f = from_sensors(sens, Some(SenT::Wall), id, 250, false, false);
            let t = to_effectors(id, eff, -180i32, false, false);
            assert(l == f + t);
            let e = f.len() as int;
            assert forall|k: int| 0 <= k < 4 implies #[trigger] l[e + k] == t[k] by {}
            assert forall|j: int| 0 <= j < e implies #[trigger] l[j] == f[j] by {}
            assert forall|k: int|
                #![trigger sens[k]]
                0 <= k < n && sens[k].typ == SenT::Wall implies exists|j: int| 0 <= j < e && #[trigger] l[j].from == k by {
                let j = choose|j: int| 0 <= j < f.len() && #[trigger] f[j].from == k;
                assert(l[j] == f[j]);
            }
        },
        Special::Memory => {
            lemma_from_sensors_links(sens, None, id, 150, true, false);
            let f = from_sensors(sens, None, id, 150, true, false);
            let t = to_effectors(id, eff, 120, true, false);
            assert(l == f + t);
            let e = f.len() as int;
            assert forall|k: int| 0 <= k < 4 implies #[trigger] l[e + k] == t[k] by {}
            assert forall|j: int| 0 <= j < e implies #[trigger] l[j] == f[j] by {}
            assert forall|k: int|
                #![trigger sens[k]]
                0 <= k < n && true implies exists|j: int| 0 <= j < e && #[trigger] l[j].from == k by {
                assert(f[k].from == k);
                assert(l[k] == f[k]);
            }
        },
        Special::HormoneSrc => {
            lemma_from_sensors_links(sens, None, id, 80, false, true);
        },
        Special::Query | Special::Key | Special::Value => {
            lemma_from_sensors_links(sens, None, id, 100, false, false);
            let f = from_sensors(sens, None, id, 100, false, false);
            assert forall|j: int| 0 <= j < n implies (#[trigger] l[j]) == Link {
                from: j as u32,
                to: id,
                strength: 100,
                rec: false,
                hormone: false,
            } by {
                assert(l[j] == f[j]);
                assert(f[j].from == j);
            }
        },
        _ => {},
    }
}

} // verus!
