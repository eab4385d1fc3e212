//! The integer side of a brain's wiring: numbering neurons and modules, the
//! sensors, and which links the fixed circuits need.

use vstd::prelude::*;
use crate::ntype::NType;

verus! {

/// The number of modules; module numbers run from 0 to 39.
pub const MAX_MODULES: u8 = 40;

/// The number of sensors a brain has: three kinds in eight directions.
pub const SENSOR_COUNT: u32 = 24;

/// The brain's counters for new neuron ids and module numbers.
#[derive(Clone, Copy, Debug, PartialEq, Eq, Structural)]
pub struct IdAllocator {
    pub next_id: u32,
    pub next_module: u8,
}

/// The module number that follows `m`: one more, wrapping past 255, and back
/// to 0 from 40 on.
pub open spec fn next_module_after(m: u8) -> u8 {
    let w: int = (m + 1) % 256;
    if w >= MAX_MODULES {
        0
    } else {
        w as u8
    }
}

impl IdAllocator {
    /// Both counters at zero.
    pub fn new() -> (a: Self)
        ensures
            a.next_id == 0,
            a.next_module == 0,
    {
        IdAllocator { next_id: 0, next_module: 0 }
    }

    /// Hands out the next neuron id.
    pub fn alloc_id(&mut self) -> (id: u32)
        requires
            old(self).next_id < u32::MAX,
        ensures
            id == old(self).next_id,
            final(self).next_id == old(self).next_id + 1,
            final(self).next_module == old(self).next_module,
    {
        let i = self.next_id;
        self.next_id += 1;
        i
    }

    /// Hands out the next module number, cycling through 0 to 39.
    pub fn alloc_module(&mut self) -> (m: u8)
        ensures
            m == old(self).next_module,
            final(self).next_module == next_module_after(old(self).next_module),
            final(self).next_id == old(self).next_id,
    {
        let m = self.next_module;
        self.next_module = self.next_module.wrapping_add(1);
        if self.next_module >= MAX_MODULES {
            self.next_module = 0;
        }
        m
    }

    /// Makes sure ids from now on are above `id`.
    pub fn note_id(&mut self, id: u32)
        requires
            id < u32::MAX,
        ensures
            final(self).next_id == if old(self).next_id > id + 1 {
                old(self).next_id as int
            } else {
                id + 1
            },
            final(self).next_module == old(self).next_module,
    {
        if self.next_id < id + 1 {
            self.next_id = id + 1;
        }
    }
}

/// Module numbers stay below 40 and go round in order: whatever number comes
/// before, the next is below 40, and from a number below 40 the next is one
/// more, or 0 after 39.
pub proof fn lemma_modules_cycle(m: u8)
    ensures
        next_module_after(m) < MAX_MODULES,
        m < MAX_MODULES ==> next_module_after(m) == (m + 1) % (MAX_MODULES as int),
{
}

/// What a sensor senses.
#[derive(Clone, Copy, Debug, PartialEq, Eq, Structural)]
pub enum SenT {
    Wall,
    Food,
    Body,
}

/// A sensor: its id, what it senses, and the direction (0 to 7) it looks in.
#[derive(Clone, Copy, Debug, PartialEq, Eq, Structural)]
pub struct Sensor {
    pub id: u32,
    pub typ: SenT,
    pub dir: u8,
}

impl Sensor {
    /// A sensor with the given id, kind and direction.
    pub fn new(id: u32, t: SenT, d: u8) -> (s: Self)
        ensures
            s.id == id,
            s.typ == t,
            s.dir == d,
    {
        Sensor { id, typ: t, dir: d }
    }
}

/// The kind of the `i`-th sensor: wall, food and body in turn.
pub open spec fn sensor_kind(i: int) -> SenT {
    if i % 3 == 0 {
        SenT::Wall
    } else if i % 3 == 1 {
        SenT::Food
    } else {
        SenT::Body
    }
}

/// The 24 sensors of a brain: sensor `i` senses `sensor_kind(i)` in direction
/// `i / 3`.
pub fn default_sensors() -> (sens: Vec<Sensor>)
    ensures
        sens@.len() == SENSOR_COUNT,
        forall|i: int|
            0 <= i < SENSOR_COUNT ==> #[trigger] sens@[i] == (Sensor {
                id: i as u32,
                typ: sensor_kind(i),
                dir: (i / 3) as u8,
            }),
{
    let mut sens: Vec<Sensor> = Vec::new();
    let mut i: u32 = 0;
    while i < SENSOR_COUNT
        invariant
            i <= SENSOR_COUNT,
            sens@.len() == i,
            forall|k: int|
                0 <= k < i ==> #[trigger] sens@[k] == (Sensor {
                    id: k as u32,
                    typ: sensor_kind(k),
                    dir: (k / 3) as u8,
                }),
        decreases SENSOR_COUNT - i,
    {
        let d = (i / 3) as u8;
        let t = if i % 3 == 0 {
            SenT::Wall
        } else if i % 3 == 1 {
            SenT::Food
        } else {
            SenT::Body
        };
        sens.push(Sensor::new(i, t, d));
        i = i + 1;
    }
    sens
}

/// The effector a sensor looking in direction `dir` drives: directions 0 to 2
/// and 4 to 6 drive effector `dir % 4`; any other drives effector 3.
#[verifier::allow_in_spec]
pub fn effector_slot(dir: u8) -> usize
    returns
        if dir == 0 || dir == 4 {
            0usize
        } else if dir == 1 || dir == 5 {
            1usize
        } else if dir == 2 || dir == 6 {
            2usize
        } else {
            3usize
        },
{
    match dir {
        0 | 4 => 0,
        1 | 5 => 1,
        2 | 6 => 2,
        _ => 3,
    }
}

/// The fewest neurons a brain is filled up to.
pub const MIN_NEURONS: usize = 60;

/// How many neurons a brain of `n` neurons is filled up with.
pub fn filler_count(n: usize) -> (k: usize)
    ensures
        k == if n < MIN_NEURONS {
            MIN_NEURONS - n
        } else {
            0
        },
{
    if n < MIN_NEURONS {
        MIN_NEURONS - n
    } else {
        0
    }
}

/// The kind of the `i`-th neuron added to fill a brain up: memory, randomizer
/// and excitatory in turn.
#[verifier::allow_in_spec]
pub fn filler_type(i: usize) -> NType
    returns
        if i % 3 == 0 {
            NType::Memory
        } else if i % 3 == 1 {
            NType::Randomizer
        } else {
            NType::Excitatory
        },
{
    if i % 3 == 0 {
        NType::Memory
    } else if i % 3 == 1 {
        NType::Randomizer
    } else {
        NType::Excitatory
    }
}

/// The kind of a neuron added by mutation, from a draw `k` in 0 to 9:
/// randomizer, food seeker, novelty, memory, risk and loop detector for 0 to 5,
/// excitatory otherwise.
#[verifier::allow_in_spec]
pub fn mutation_type(k: usize) -> NType
    returns
        if k == 0 {
            NType::Randomizer
        } else if k == 1 {
            NType::FoodSeek
        } else if k == 2 {
            NType::Novelty
        } else if k == 3 {
            NType::Memory
        } else if k == 4 {
            NType::Risk
        } else if k == 5 {
            NType::LoopDet
        } else {
            NType::Excitatory
        },
{
    match k {
        0 => NType::Randomizer,
        1 => NType::FoodSeek,
        2 => NType::Novelty,
        3 => NType::Memory,
        4 => NType::Risk,
        5 => NType::LoopDet,
        _ => NType::Excitatory,
    }
}

/// The link from sensor `s` to the effector it drives.
pub open spec fn sensor_pair(s: Sensor, eff: [u32; 4]) -> (u32, u32) {
    (s.id, eff[effector_slot(s.dir) as int])
}

/// Whether the `k`-th sensor needs a new link to its effector: no such link
/// exists yet, and no earlier sensor asks for the same link.
pub open spec fn needs_link(sens: Seq<Sensor>, eff: [u32; 4], existing: Seq<(u32, u32)>, k: int) -> bool {
    &&& !existing.contains(sensor_pair(sens[k], eff))
    &&& forall|j: int| 0 <= j < k ==> sensor_pair(#[trigger] sens[j], eff) != sensor_pair(sens[k], eff)
}

/// Whether two links are the same.
fn same_pair(a: (u32, u32), b: (u32, u32)) -> (r: bool)
    ensures
        r == (a == b),
{
    a.0 == b.0 && a.1 == b.1
}

/// Whether the list holds the link.
fn pairs_contain(ps: &Vec<(u32, u32)>, p: (u32, u32)) -> (r: bool)
    ensures
        r == ps@.contains(p),
{
    let n = ps.len();
    let mut i: usize = 0;
    while i < n
        invariant
            n == ps@.len(),
            i <= n,
            forall|k: int| 0 <= k < i ==> ps@[k] != p,
        decreases n - i,
    {
        if same_pair(ps[i], p) {
            assert(ps@[i as int] == p);
            return true;
        }
        i = i + 1;
    }
    false
}

/// The links from sensors to effectors that a brain still needs, in sensor
/// order: for each sensor that `needs_link`, its id, the effector's id and
/// what it senses.
pub fn missing_sensor_links(sens: &Vec<Sensor>, eff: [u32; 4], existing: &Vec<(u32, u32)>) -> (links:
    Vec<(u32, u32, SenT)>)
    ensures
        links@ == Seq::new(sens@.len(), |k: int| k).filter(
            |k: int| needs_link(sens@, eff, existing@, k),
        ).map_values(
            |k: int| (sens@[k].id, eff[effector_slot(sens@[k].dir) as int], sens@[k].typ),
        ),
{
    let ghost idx = Seq::new(sens@.len(), |k: int| k);
    let ghost f = |k: int| (sens@[k].id, eff[effector_slot(sens@[k].dir) as int], sens@[k].typ);
    let mut links: Vec<(u32, u32, SenT)> = Vec::new();
    let mut added: Vec<(u32, u32)> = Vec::new();
    let n = sens.len();
    let mut i: usize = 0;
    while i < n
        invariant
            n == sens@.len(),
            i <= n,
            idx == Seq::new(sens@.len(), |k: int| k),
            f == (|k: int| (sens@[k].id, eff[effector_slot(sens@[k].dir) as int], sens@[k].typ)),
            links@ == idx.take(i as int).filter(|k: int| needs_link(sens@, eff, existing@, k)).map_values(f),
            forall|j: int|
                0 <= j < i ==> existing@.contains(sensor_pair(#[trigger] sens@[j], eff))
                    || added@.contains(sensor_pair(sens@[j], eff)),
            forall|q: int| 0 <= q < added@.len() ==> exists|j: int| 0 <= j < i && #[trigger] added@[q] == sensor_pair(#[trigger] sens@[j], eff),
            added@.len() == links@.len(),
            forall|q: int| 0 <= q < added@.len() ==> #[trigger] added@[q] == (links@[q].0, links@[q].1),
        decreases n - i,
    {
        let s = sens[i];
        let pair = (s.id, eff[effector_slot(s.dir)]);
        let ghost before = idx.take(i as int).filter(|k: int| needs_link(sens@, eff, existing@, k));
        proof {
            reveal_with_fuel(Seq::filter, 1);
            assert(idx.take(i + 1).drop_last() =~= idx.take(i as int));
        }
        let in_existing = pairs_contain(existing, pair);
        let in_added = pairs_contain(&added, pair);
        let fresh = !in_existing && !in_added;
        proof {
            assert(pair == sensor_pair(sens@[i as int], eff));
            if !in_existing {
                if in_added {
                    let q = choose|q: int| 0 <= q < added@.len() && added@[q] == pair;
                    let j = choose|j: int| 0 <= j < i && added@[q] == sensor_pair(sens@[j], eff);
                    assert(sensor_pair(sens@[j], eff) == pair);
                } else {
                    assert forall|j: int| 0 <= j < i implies sensor_pair(#[trigger] sens@[j], eff)
                        != pair by {
                        if sensor_pair(sens@[j], eff) == pair {
                            assert(existing@.contains(sensor_pair(sens@[j], eff)) || added@.contains(
                                sensor_pair(sens@[j], eff),
                            ));
                        }
                    }
                }
            }
            assert(fresh == needs_link(sens@, eff, existing@, i as int));
        }
        let ghost added0 = added@;
        let ghost links0 = links@;
        if fresh {
            links.push((s.id, pair.1, s.typ));
            added.push(pair);
            proof {
                assert(links@ =~= before.push(i as int).map_values(f));
            }
        } else {
            proof {
                assert(links@ =~= before.map_values(f));
            }
        }
        proof {
            assert forall|j: int| 0 <= j < i + 1 implies existing@.contains(
                sensor_pair(#[trigger] sens@[j], eff),
            ) || added@.contains(sensor_pair(sens@[j], eff)) by {
                if j < i {
                    if added0.contains(sensor_pair(sens@[j], eff)) {
                        let q = choose|q: int| 0 <= q < added0.len() && added0[q] == sensor_pair(sens@[j], eff);
                        assert(added@[q] == added0[q]);
                    }
                } else if fresh {
                    assert(added@[added@.len() - 1] == pair);
                }
            }
            assert forall|q: int| 0 <= q < added@.len() implies #[trigger] added@[q] == (
                links@[q].0,
                links@[q].1,
            ) by {
                if q < added0.len() {
                    assert(added@[q] == added0[q]);
                    assert(links@[q] == links0[q]);
                }
            }
            assert forall|q: int| 0 <= q < added@.len() implies exists|j: int|
                0 <= j < i + 1 && #[trigger] added@[q] == sensor_pair(#[trigger] sens@[j], eff) by {
                if q < added0.len() {
                    assert(added@[q] == added0[q]);
                } else {
                    assert(added@[q] == sensor_pair(sens@[i as int], eff));
                }
            }
        }
        i = i + 1;
    }
    proof {
        assert(idx.take(n as int) =~= idx);
    }
    links
}

} // verus!
