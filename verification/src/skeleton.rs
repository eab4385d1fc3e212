//! The whole-number skeleton of a brain: its neurons by id, kind and module,
//! the effectors, the sensors, the links between ids, the special neurons it
//! has, and its id and module counters; and how the fixed circuits and the
//! special neurons complete it.

use crate::ntype::NType;
use crate::genome::Gene;
use crate::specials::{
    effector_for_code, kind_for_code, missing_specials, special_links, special_order, Link,
    Special,
};
use crate::wiring::{
    default_sensors, effector_slot, filler_count, filler_type, missing_sensor_links,
    next_module_after, sensor_kind, sensor_pair, IdAllocator, SenT, Sensor, MIN_NEURONS,
    SENSOR_COUNT,
};
use vstd::prelude::*;

verus! {

/// A neuron of the skeleton: its id, kind and module.
#[derive(Clone, Copy, Debug, PartialEq, Eq, Structural)]
pub struct NeuronSlot {
    pub id: u32,
    pub typ: NType,
    pub module: u8,
}

/// The skeleton of a brain.
pub struct Skeleton {
    pub ids: IdAllocator,
    pub eff: [u32; 4],
    pub sens: Vec<Sensor>,
    pub neurons: Vec<NeuronSlot>,
    /// The synapses, as the ids they lead from and to.
    pub links: Vec<(u32, u32)>,
    /// The special neurons it has.
    pub specials: Vec<Special>,
}

/// The skeleton as mathematical values.
pub struct SkeletonModel {
    pub ids: IdAllocator,
    pub eff: [u32; 4],
    pub sens: Seq<Sensor>,
    pub neurons: Seq<NeuronSlot>,
    pub links: Seq<(u32, u32)>,
    pub specials: Seq<Special>,
}

impl View for Skeleton {
    type V = SkeletonModel;

    open spec fn view(&self) -> SkeletonModel {
        SkeletonModel {
            ids: self.ids,
            eff: self.eff,
            sens: self.sens@,
            neurons: self.neurons@,
            links: self.links@,
            specials: self.specials@,
        }
    }
}

/// A synapse that a sensor gets to its effector: the two ids, what the sensor
/// senses, and the synapse's module.
#[derive(Clone, Copy, Debug, PartialEq, Eq, Structural)]
pub struct NewLink {
    pub from: u32,
    pub to: u32,
    pub typ: SenT,
    pub module: u8,
}

/// What completing the fixed circuits added.
pub struct Growth {
    /// Whether the default sensors were put in.
    pub sensors_added: bool,
    /// The ids of new effectors, up, down, left, right.
    pub effectors: Vec<u32>,
    /// The neurons added to fill the brain up.
    pub fillers: Vec<NeuronSlot>,
    /// The new sensor-to-effector synapses.
    pub links: Vec<NewLink>,
}

/// Whether some neuron has id `id`.
pub open spec fn has_id(ns: Seq<NeuronSlot>, id: u32) -> bool {
    exists|i: int| 0 <= i < ns.len() && ns[i].id == id
}

/// The first position of a neuron with id `id`.
pub open spec fn first_with(ns: Seq<NeuronSlot>, id: u32) -> int {
    choose|i: int| 0 <= i < ns.len() && ns[i].id == id && forall|j: int| 0 <= j < i ==> ns[j].id != id
}

/// When some neuron has id `id`, `first_with` is the first such position.
pub proof fn lemma_first_with(ns: Seq<NeuronSlot>, id: u32)
    requires
        has_id(ns, id),
    ensures
        0 <= first_with(ns, id) < ns.len(),
        ns[first_with(ns, id)].id == id,
        forall|j: int| 0 <= j < first_with(ns, id) ==> ns[j].id != id,
{
    let i = choose|i: int| 0 <= i < ns.len() && ns[i].id == id;
    lemma_first_below(ns, id, i);
}

/// Below any position holding id `id` lies a first one.
proof fn lemma_first_below(ns: Seq<NeuronSlot>, id: u32, i: int)
    requires
        0 <= i < ns.len(),
        ns[i].id == id,
    ensures
        exists|f: int| 0 <= f < ns.len() && ns[f].id == id && forall|j: int| 0 <= j < f ==> ns[j].id != id,
    decreases i,
{
    if exists|j: int| 0 <= j < i && ns[j].id == id {
        let j = choose|j: int| 0 <= j < i && ns[j].id == id;
        lemma_first_below(ns, id, j);
    } else {
        assert(forall|j: int| 0 <= j < i ==> ns[j].id != id);
    }
}

/// `ns` with `s` put in: in place of the first neuron with its id, or at the
/// end when there is none (a brain keeps one neuron per id).
pub open spec fn put(ns: Seq<NeuronSlot>, s: NeuronSlot) -> Seq<NeuronSlot> {
    if has_id(ns, s.id) {
        ns.update(first_with(ns, s.id), s)
    } else {
        ns.push(s)
    }
}

/// `ns` with each of `slots` put in, in order.
pub open spec fn put_all(ns: Seq<NeuronSlot>, slots: Seq<NeuronSlot>) -> Seq<NeuronSlot>
    decreases slots.len(),
{
    if slots.len() == 0 {
        ns
    } else {
        put(put_all(ns, slots.drop_last()), slots.last())
    }
}

/// The module number `k` allocations after `m`.
pub open spec fn module_after(m: u8, k: nat) -> u8
    decreases k,
{
    if k == 0 {
        m
    } else {
        next_module_after(module_after(m, (k - 1) as nat))
    }
}

/// The 24 default sensors.
pub open spec fn default_sensor_seq() -> Seq<Sensor> {
    Seq::new(
        SENSOR_COUNT as nat,
        |i: int| Sensor { id: i as u32, typ: sensor_kind(i), dir: (i / 3) as u8 },
    )
}

/// The four effectors made from id `n` on: ids `n` to `n + 3`, module 0.
pub open spec fn effector_slots(n: u32) -> Seq<NeuronSlot> {
    Seq::new(4, |k: int| NeuronSlot { id: (n + k) as u32, typ: NType::Effector, module: 0 })
}

/// The `count` neurons that fill a brain up from id `n` and module `m` on.
pub open spec fn filler_slots(n: u32, m: u8, count: nat) -> Seq<NeuronSlot> {
    Seq::new(
        count,
        |i: int| NeuronSlot { id: (n + i) as u32, typ: filler_type(i as usize), module: module_after(m, i as nat) },
    )
}

/// The sensor-to-effector synapses still needed, in sensor order (see
/// `missing_sensor_links`).
pub open spec fn needed_links(sens: Seq<Sensor>, eff: [u32; 4], links: Seq<(u32, u32)>) -> Seq<
    (u32, u32, SenT),
> {
    Seq::new(sens.len(), |k: int| k).filter(
        |k: int| crate::wiring::needs_link(sens, eff, links, k),
    ).map_values(|k: int| (sens[k].id, eff[effector_slot(sens[k].dir) as int], sens[k].typ))
}

/// The pairs of ids of synapses to add.
pub open spec fn pairs_of(ls: Seq<(u32, u32, SenT)>) -> Seq<(u32, u32)> {
    ls.map_values(|l: (u32, u32, SenT)| (l.0, l.1))
}

/// The skeleton after the default sensors are put in, when there are none.
pub open spec fn with_sensors(m: SkeletonModel) -> SkeletonModel {
    if m.sens.len() == 0 {
        SkeletonModel { sens: default_sensor_seq(), ..m }
    } else {
        m
    }
}

/// The skeleton after four effectors are made, when the first effector id is
/// still 0.
pub open spec fn with_effectors(m: SkeletonModel) -> SkeletonModel {
    if m.eff[0] == 0 {
        let n = m.ids.next_id;
        SkeletonModel {
            ids: IdAllocator { next_id: (n + 4) as u32, ..m.ids },
            eff: [n, (n + 1) as u32, (n + 2) as u32, (n + 3) as u32],
            neurons: put_all(m.neurons, effector_slots(n)),
            ..m
        }
    } else {
        m
    }
}

/// The skeleton filled up to 60 neurons, counted before filling.
pub open spec fn with_fillers(m: SkeletonModel) -> SkeletonModel {
    let count: nat = if m.neurons.len() < MIN_NEURONS {
        (MIN_NEURONS - m.neurons.len()) as nat
    } else {
        0
    };
    SkeletonModel {
        ids: IdAllocator {
            next_id: (m.ids.next_id + count) as u32,
            next_module: module_after(m.ids.next_module, count),
        },
        neurons: put_all(m.neurons, filler_slots(m.ids.next_id, m.ids.next_module, count)),
        ..m
    }
}

/// The skeleton with a synapse from each sensor to its effector that lacks
/// one, each with the next module number.
pub open spec fn with_sensor_links(m: SkeletonModel) -> SkeletonModel {
    let need = needed_links(m.sens, m.eff, m.links);
    SkeletonModel {
        ids: IdAllocator {
            next_module: module_after(m.ids.next_module, need.len()),
            ..m.ids
        },
        links: m.links + pairs_of(need),
        ..m
    }
}

/// The skeleton with its fixed circuits complete: sensors, effectors, fillers
/// up to 60 neurons, and a synapse from every sensor to its effector.
pub open spec fn circuits(m: SkeletonModel) -> SkeletonModel {
    with_sensor_links(with_fillers(with_effectors(with_sensors(m))))
}

/// The position of the first neuron with id `id`, if any.
fn find_id(ns: &Vec<NeuronSlot>, id: u32) -> (r: Option<usize>)
    ensures
        match r {
            Some(i) => i < ns@.len() && i == first_with(ns@, id) && has_id(ns@, id),
            None => !has_id(ns@, id),
        },
{
    let n = ns.len();
    let mut i: usize = 0;
    while i < n
        invariant
            n == ns@.len(),
            i <= n,
            forall|j: int| 0 <= j < i ==> ns@[j].id != id,
        decreases n - i,
    {
        if ns[i].id == id {
            proof {
                let f = first_with(ns@, id);
                assert(0 <= f < ns@.len() && ns@[f].id == id && forall|j: int|
                    0 <= j < f ==> ns@[j].id != id);
                if f < i {
                    assert(ns@[f].id != id);
                }
                if f > i {
                    assert(ns@[i as int].id != id);
                }
            }
            return Some(i);
        }
        i = i + 1;
    }
    None
}

/// Puts `s` in, as `put` says.
fn put_slot(ns: &mut Vec<NeuronSlot>, s: NeuronSlot)
    ensures
        final(ns)@ == put(old(ns)@, s),
{
    match find_id(ns, s.id) {
        Some(i) => {
            ns.set(i, s);
        },
        None => {
            ns.push(s);
        },
    }
}

impl Skeleton {
    /// Completes the fixed circuits, as `circuits` says, and tells what was
    /// added: with no sensors, the 24 default ones; with the first effector id
    /// still 0, four effectors with fresh ids; neurons with fresh ids until 60
    /// were counted; and a synapse from every sensor to its effector that
    /// lacks one.
    pub fn ensure_minimum_circuits(&mut self) -> (g: Growth)
        requires
            old(self).ids.next_id + 4 + MIN_NEURONS <= u32::MAX,
        ensures
            final(self)@ == circuits(old(self)@),
            g.sensors_added == (old(self)@.sens.len() == 0),
            g.effectors@ == if old(self).eff[0] == 0 {
                seq![
                    old(self).ids.next_id,
                    (old(self).ids.next_id + 1) as u32,
                    (old(self).ids.next_id + 2) as u32,
                    (old(self).ids.next_id + 3) as u32,
                ]
            } else {
                Seq::<u32>::empty()
            },
            ({
                let m2 = with_effectors(with_sensors(old(self)@));
                let m3 = with_fillers(m2);
                let need = needed_links(m3.sens, m3.eff, m3.links);
                &&& g.fillers@ == filler_slots(
                    m2.ids.next_id,
                    m2.ids.next_module,
                    (m3.ids.next_id - m2.ids.next_id) as nat,
                )
                &&& g.fillers@.len() == if m2.neurons.len() < MIN_NEURONS {
                    MIN_NEURONS - m2.neurons.len()
                } else {
                    0
                }
                &&& forall|i: int|
                    0 <= i < g.fillers@.len() ==> (#[trigger] g.fillers@[i]).typ == filler_type(
                        i as usize,
                    ) && g.fillers@[i].id == m2.ids.next_id + i
                &&& g.links@.len() == need.len()
                &&& forall|k: int|
                    0 <= k < need.len() ==> #[trigger] g.links@[k] == (NewLink {
                        from: need[k].0,
                        to: need[k].1,
                        typ: need[k].2,
                        module: module_after(m3.ids.next_module, k as nat),
                    })
            }),
    {
        let ghost m0 = self@;
        let sensors_added = self.sens.len() == 0;
        if sensors_added {
            self.sens = default_sensors();
            proof {
                assert(self.sens@ =~= default_sensor_seq());
            }
        }
        assert(self@ == with_sensors(m0)) by {
            assert(self@.sens =~= with_sensors(m0).sens);
        }
        let ghost m1 = self@;
        let mut effectors: Vec<u32> = Vec::new();
        if self.eff[0] == 0 {
            let n = self.ids.next_id;
            let mut k: u32 = 0;
            while k < 4
                invariant
                    k <= 4,
                    n == m1.ids.next_id,
                    n + 4 + MIN_NEURONS <= u32::MAX,
                    self.ids.next_id == n + k,
                    self.ids.next_module == m1.ids.next_module,
                    self.sens@ == m1.sens,
                    self.links@ == m1.links,
                    self.specials@ == m1.specials,
                    self.neurons@ == put_all(m1.neurons, effector_slots(n).take(k as int)),
                    effectors@ == Seq::new(k as nat, |j: int| (n + j) as u32),
                    forall|j: int| 0 <= j < k ==> self.eff[j] == n + j,
                    k < 4 ==> forall|j: int| k <= j < 4 ==> self.eff[j] == m1.eff[j],
                decreases 4 - k,
            {
                let id = self.ids.alloc_id();
                self.eff[k as usize] = id;
                put_slot(&mut self.neurons, NeuronSlot { id, typ: NType::Effector, module: 0 });
                effectors.push(id);
                proof {
                    let e = effector_slots(n);
                    assert(e.take(k + 1).drop_last() =~= e.take(k as int));
                    assert(e.take(k + 1).last() == e[k as int]);
                    assert(effectors@ =~= Seq::new((k + 1) as nat, |j: int| (n + j) as u32));
                }
                k = k + 1;
            }
            proof {
                assert(effector_slots(n).take(4) =~= effector_slots(n));
                assert(self.eff =~= [n, (n + 1) as u32, (n + 2) as u32, (n + 3) as u32]);
                assert(effectors@ =~= seq![n, (n + 1) as u32, (n + 2) as u32, (n + 3) as u32]);
            }
        }
        assert(self@ == with_effectors(m1)) by {
            assert(self@.neurons =~= with_effectors(m1).neurons);
            assert(self@.sens =~= with_effectors(m1).sens);
            assert(self@.links =~= with_effectors(m1).links);
            assert(self@.specials =~= with_effectors(m1).specials);
        }
        let ghost m2 = self@;
        let count = filler_count(self.neurons.len());
        let n2 = self.ids.next_id;
        let md2 = self.ids.next_module;
        let mut fillers: Vec<NeuronSlot> = Vec::new();
        let mut i: usize = 0;
        while i < count
            invariant
                i <= count,
                count == (if m2.neurons.len() < MIN_NEURONS {
                    (MIN_NEURONS - m2.neurons.len()) as nat
                } else {
                    0
                }),
                count <= MIN_NEURONS,
                n2 == m2.ids.next_id,
                md2 == m2.ids.next_module,
                n2 + MIN_NEURONS <= u32::MAX,
                self.ids.next_id == n2 + i,
                self.ids.next_module == module_after(md2, i as nat),
                self.eff == m2.eff,
                self.sens@ == m2.sens,
                self.links@ == m2.links,
                self.specials@ == m2.specials,
                fillers@ == filler_slots(n2, md2, i as nat),
                self.neurons@ == put_all(m2.neurons, filler_slots(n2, md2, i as nat)),
            decreases count - i,
        {
            let id = self.ids.alloc_id();
            let m = self.ids.alloc_module();
            let slot = NeuronSlot { id, typ: filler_type(i), module: m };
            put_slot(&mut self.neurons, slot);
            fillers.push(slot);
            proof {
                let f = filler_slots(n2, md2, (i + 1) as nat);
                assert(f.drop_last() =~= filler_slots(n2, md2, i as nat));
                assert(f.last() == slot);
                assert(fillers@ =~= f);
            }
            i = i + 1;
        }
        assert(self@ == with_fillers(m2)) by {
            assert(self@.neurons =~= with_fillers(m2).neurons);
            assert(self@.sens =~= with_fillers(m2).sens);
            assert(self@.links =~= with_fillers(m2).links);
            assert(self@.specials =~= with_fillers(m2).specials);
        }
        let ghost m3 = self@;
        let need = missing_sensor_links(&self.sens, self.eff, &self.links);
        proof {
            assert(need@ =~= needed_links(m3.sens, m3.eff, m3.links));
        }
        let md3 = self.ids.next_module;
        let mut links: Vec<NewLink> = Vec::new();
        let mut j: usize = 0;
        while j < need.len()
            invariant
                j <= need@.len(),
                need@ == needed_links(m3.sens, m3.eff, m3.links),
                md3 == m3.ids.next_module,
                self.ids.next_id == m3.ids.next_id,
                self.ids.next_module == module_after(md3, j as nat),
                self.eff == m3.eff,
                self.sens@ == m3.sens,
                self.neurons@ == m3.neurons,
                self.specials@ == m3.specials,
                self.links@ == m3.links + pairs_of(need@.take(j as int)),
                links@.len() == j,
                forall|k: int|
                    0 <= k < j ==> #[trigger] links@[k] == (NewLink {
                        from: need@[k].0,
                        to: need@[k].1,
                        typ: need@[k].2,
                        module: module_after(md3, k as nat),
                    }),
            decreases need@.len() - j,
        {
            let (from, to, typ) = need[j];
            let m = self.ids.alloc_module();
            self.links.push((from, to));
            links.push(NewLink { from, to, typ, module: m });
            proof {
                assert(pairs_of(need@.take(j + 1)) =~= pairs_of(need@.take(j as int)).push((from, to)));
            }
            j = j + 1;
        }
        proof {
            assert(need@.take(need@.len() as int) =~= need@);
            assert(self@.links =~= circuits(m0).links);
            assert(self@.sens =~= circuits(m0).sens);
            assert(self@.neurons =~= circuits(m0).neurons);
            assert(self@.specials =~= circuits(m0).specials);
        }
        Growth { sensors_added, effectors, fillers, links }
    }
}

/// Every neuron's id is below the next id to be handed out.
pub open spec fn fresh(m: SkeletonModel) -> bool {
    forall|i: int| 0 <= i < m.neurons.len() ==> #[trigger] m.neurons[i].id < m.ids.next_id
}

/// Putting in neurons whose ids are new and all different appends them.
proof fn lemma_put_all_new(ns: Seq<NeuronSlot>, slots: Seq<NeuronSlot>, n: int)
    requires
        forall|i: int| 0 <= i < ns.len() ==> #[trigger] ns[i].id < n,
        forall|i: int| 0 <= i < slots.len() ==> #[trigger] slots[i].id >= n,
        forall|i: int, j: int| 0 <= i < j < slots.len() ==> slots[i].id != slots[j].id,
    ensures
        put_all(ns, slots) == ns + slots,
    decreases slots.len(),
{
    if slots.len() > 0 {
        let init = slots.drop_last();
        lemma_put_all_new(ns, init, n);
        let s = slots.last();
        let base = ns + init;
        if has_id(base, s.id) {
            let i = choose|i: int| 0 <= i < base.len() && base[i].id == s.id;
            if i < ns.len() {
                assert(base[i] == ns[i]);
            } else {
                assert(base[i] == init[i - ns.len()]);
                assert(init[i - ns.len()] == slots[i - ns.len()]);
            }
        }
        assert(base.push(s) =~= ns + slots);
    }
}

/// Each sensor's synapse to its effector is there already or among those
/// still needed.
proof fn lemma_needed_covers(sens: Seq<Sensor>, eff: [u32; 4], links: Seq<(u32, u32)>, k: int)
    requires
        0 <= k < sens.len(),
    ensures
        links.contains(sensor_pair(sens[k], eff)) || pairs_of(needed_links(sens, eff, links)).contains(
            sensor_pair(sens[k], eff),
        ),
    decreases k,
{
    let p = sensor_pair(sens[k], eff);
    if !links.contains(p) {
        if crate::wiring::needs_link(sens, eff, links, k) {
            let all = Seq::new(sens.len(), |i: int| i);
            let pred = |i: int| crate::wiring::needs_link(sens, eff, links, i);
            assert(all[k] == k);
            all.lemma_filter_contains(pred, k);
            let f = all.filter(pred);
            let j = choose|j: int| 0 <= j < f.len() && f[j] == k;
            let need = needed_links(sens, eff, links);
            assert(pairs_of(need)[j] == p);
        } else {
            let j = choose|j: int| 0 <= j < k && sensor_pair(#[trigger] sens[j], eff) == p;
            lemma_needed_covers(sens, eff, links, j);
        }
    }
}

/// With every sensor linked to its effector, no synapse is needed.
proof fn lemma_needed_none(sens: Seq<Sensor>, eff: [u32; 4], links: Seq<(u32, u32)>)
    requires
        forall|k: int| 0 <= k < sens.len() ==> links.contains(#[trigger] sensor_pair(sens[k], eff)),
    ensures
        needed_links(sens, eff, links).len() == 0,
{
    let all = Seq::new(sens.len(), |i: int| i);
    let pred = |i: int| crate::wiring::needs_link(sens, eff, links, i);
    let f = all.filter(pred);
    if f.len() > 0 {
        all.lemma_filter_pred(pred, 0);
        all.lemma_filter_contains_rev(pred, f[0]);
        let i = choose|i: int| 0 <= i < all.len() && all[i] == f[0];
        assert(links.contains(sensor_pair(sens[i], eff)));
    }
}

/// Completing the fixed circuits of a skeleton whose ids are all below the
/// next id keeps every neuron and synapse it had, in place; gives it sensors
/// (the 24 default ones if it had none, else its own), at least 60 neurons,
/// and a synapse from every sensor to its effector; and keeps every id below
/// the next one.
pub proof fn lemma_circuits_complete(m: SkeletonModel)
    requires
        fresh(m),
        m.ids.next_id + 4 + MIN_NEURONS <= u32::MAX,
    ensures
        ({
            let c = circuits(m);
            &&& c.sens == if m.sens.len() == 0 {
                default_sensor_seq()
            } else {
                m.sens
            }
            &&& c.sens.len() > 0
            &&& c.neurons.take(m.neurons.len() as int) == m.neurons
            &&& c.neurons.len() >= MIN_NEURONS
            &&& c.links.take(m.links.len() as int) == m.links
            &&& forall|k: int| 0 <= k < c.sens.len() ==> c.links.contains(
                #[trigger] sensor_pair(c.sens[k], c.eff),
            )
            &&& fresh(c)
        }),
{
    let m1 = with_sensors(m);
    let m2 = with_effectors(m1);
    let m3 = with_fillers(m2);
    let c = with_sensor_links(m3);
    let n = m.ids.next_id;
    if m1.eff[0] == 0 {
        lemma_put_all_new(m1.neurons, effector_slots(n), n as int);
    }
    let count: nat = if m2.neurons.len() < MIN_NEURONS {
        (MIN_NEURONS - m2.neurons.len()) as nat
    } else {
        0
    };
    let fs = filler_slots(m2.ids.next_id, m2.ids.next_module, count);
    assert forall|i: int| 0 <= i < m2.neurons.len() implies #[trigger] m2.neurons[i].id
        < m2.ids.next_id by {
        if m1.eff[0] == 0 && i >= m1.neurons.len() {
            assert(m2.neurons[i] == effector_slots(n)[i - m1.neurons.len()]);
        }
    }
    lemma_put_all_new(m2.neurons, fs, m2.ids.next_id as int);
    assert(m3.neurons == m2.neurons + fs);
    assert(m3.neurons.take(m.neurons.len() as int) =~= m.neurons) by {
        if m1.eff[0] == 0 {
            assert(m2.neurons == m1.neurons + effector_slots(n));
        }
    }
    assert forall|i: int| 0 <= i < m3.neurons.len() implies #[trigger] m3.neurons[i].id
        < m3.ids.next_id by {
        if i >= m2.neurons.len() {
            assert(m3.neurons[i] == fs[i - m2.neurons.len()]);
        } else {
            assert(m3.neurons[i] == m2.neurons[i]);
        }
    }
    assert(c.links.take(m.links.len() as int) =~= m.links);
    assert forall|k: int| 0 <= k < c.sens.len() implies c.links.contains(
        #[trigger] sensor_pair(c.sens[k], c.eff),
    ) by {
        lemma_needed_covers(m3.sens, m3.eff, m3.links, k);
        let p = sensor_pair(c.sens[k], c.eff);
        if m3.links.contains(p) {
            let i = choose|i: int| 0 <= i < m3.links.len() && m3.links[i] == p;
            assert(c.links[i] == p);
        } else {
            let ps = pairs_of(needed_links(m3.sens, m3.eff, m3.links));
            let i = choose|i: int| 0 <= i < ps.len() && ps[i] == p;
            assert(c.links[m3.links.len() + i] == p);
        }
    }
}

/// Completing the fixed circuits twice is completing them once, when the ids
/// are all below the next id and the first effector id is not 0 afterwards
/// (a first effector with id 0 reads as no effectors, and four more are made).
pub proof fn lemma_circuits_idempotent(m: SkeletonModel)
    requires
        fresh(m),
        m.ids.next_id + 4 + MIN_NEURONS <= u32::MAX,
        circuits(m).eff[0] != 0,
    ensures
        circuits(circuits(m)) == circuits(m),
{
    let c = circuits(m);
    lemma_circuits_complete(m);
    let f = with_fillers(c);
    assert(filler_slots(c.ids.next_id, c.ids.next_module, 0) =~= Seq::<NeuronSlot>::empty());
    assert(f.neurons == c.neurons);
    assert(f.ids == c.ids);
    lemma_needed_none(c.sens, c.eff, c.links);
    let need = needed_links(c.sens, c.eff, c.links);
    assert(pairs_of(need) =~= Seq::<(u32, u32)>::empty());
    assert(circuits(c).links =~= c.links);
    assert(circuits(c).neurons =~= c.neurons);
    assert(circuits(c).sens =~= c.sens);
}

/// The ids of the attention outputs among the neurons, in order.
pub open spec fn attn_outs(ns: Seq<NeuronSlot>) -> Seq<u32> {
    ns.filter(|s: NeuronSlot| s.typ == NType::AttentionOut).map_values(|s: NeuronSlot| s.id)
}

/// The skeleton after the special neuron `sp` is added: a neuron of its kind
/// with the next id and module, its links (see `special_links`), and `sp`
/// among the specials.
pub open spec fn add_special(m: SkeletonModel, sp: Special) -> SkeletonModel {
    let id = m.ids.next_id;
    let md = m.ids.next_module;
    let ls = special_links(sp, id, m.sens, m.eff, attn_outs(m.neurons));
    SkeletonModel {
        ids: IdAllocator { next_id: (id + 1) as u32, next_module: next_module_after(md) },
        neurons: put(m.neurons, NeuronSlot { id, typ: sp.ntype(), module: md }),
        links: m.links + ls.map_values(|l: Link| (l.from, l.to)),
        specials: m.specials.push(sp),
        ..m
    }
}

/// The skeleton after the special neurons `sps` are added, in order.
pub open spec fn add_specials(m: SkeletonModel, sps: Seq<Special>) -> SkeletonModel
    decreases sps.len(),
{
    if sps.len() == 0 {
        m
    } else {
        add_special(add_specials(m, sps.drop_last()), sps.last())
    }
}

/// The special neurons a skeleton lacks, in the order they are added.
pub open spec fn lacking(m: SkeletonModel) -> Seq<Special> {
    special_order().filter(|sp: Special| !m.specials.contains(sp))
}

/// The skeleton with every special neuron it lacks added; a skeleton without
/// sensors is left as it is.
pub open spec fn with_specials(m: SkeletonModel) -> SkeletonModel {
    if m.sens.len() == 0 {
        m
    } else {
        add_specials(m, lacking(m))
    }
}

/// A special neuron added: which one, its id and module, and its links.
pub struct SpecialGrowth {
    pub special: Special,
    pub id: u32,
    pub module: u8,
    pub links: Vec<Link>,
}

/// The ids of the attention outputs among the neurons.
fn attention_outputs(ns: &Vec<NeuronSlot>) -> (outs: Vec<u32>)
    ensures
        outs@ == attn_outs(ns@),
{
    let ghost pred = |s: NeuronSlot| s.typ == NType::AttentionOut;
    let ghost f = |s: NeuronSlot| s.id;
    let mut outs: Vec<u32> = Vec::new();
    let n = ns.len();
    let mut i: usize = 0;
    while i < n
        invariant
            n == ns@.len(),
            i <= n,
            pred == (|s: NeuronSlot| s.typ == NType::AttentionOut),
            f == (|s: NeuronSlot| s.id),
            outs@ == ns@.take(i as int).filter(pred).map_values(f),
        decreases n - i,
    {
        proof {
            reveal_with_fuel(Seq::filter, 1);
            assert(ns@.take(i + 1).drop_last() =~= ns@.take(i as int));
        }
        let ghost before = ns@.take(i as int).filter(pred);
        if ns[i].typ == NType::AttentionOut {
            outs.push(ns[i].id);
            proof {
                assert(outs@ =~= before.push(ns@[i as int]).map_values(f));
            }
        }
        i = i + 1;
    }
    proof {
        assert(ns@.take(n as int) =~= ns@);
    }
    outs
}

impl Skeleton {
    /// Adds every special neuron the skeleton lacks, as `with_specials` says,
    /// and tells what was added, in order.
    pub fn ensure_specials(&mut self) -> (g: Vec<SpecialGrowth>)
        requires
            old(self).ids.next_id + 16 <= u32::MAX,
            old(self).sens@.len() <= u32::MAX,
        ensures
            final(self)@ == with_specials(old(self)@),
            old(self).specials@.no_duplicates() ==> final(self).specials@.no_duplicates(),
            g@.len() == if old(self)@.sens.len() == 0 {
                0
            } else {
                lacking(old(self)@).len()
            },
            forall|k: int|
                0 <= k < g@.len() ==> {
                    let before = add_specials(old(self)@, lacking(old(self)@).take(k));
                    let sp = lacking(old(self)@)[k];
                    &&& (#[trigger] g@[k]).special == sp
                    &&& g@[k].id == before.ids.next_id
                    &&& g@[k].module == before.ids.next_module
                    &&& g@[k].links@ == special_links(
                        sp,
                        before.ids.next_id,
                        before.sens,
                        before.eff,
                        attn_outs(before.neurons),
                    )
                },
    {
        let ghost m0 = self@;
        let mut g: Vec<SpecialGrowth> = Vec::new();
        if self.sens.len() == 0 {
            return g;
        }
        let missing = missing_specials(&self.specials);
        proof {
            assert(missing@ =~= lacking(m0));
            lemma_lacking_len(m0);
        }
        let mut k: usize = 0;
        while k < missing.len()
            invariant
                k <= missing@.len(),
                missing@ == lacking(m0),
                missing@.len() <= 16,
                m0.ids.next_id + 16 <= u32::MAX,
                m0.sens.len() <= u32::MAX,
                self@ == add_specials(m0, missing@.take(k as int)),
                self.ids.next_id == m0.ids.next_id + k,
                self@.sens == m0.sens,
                self.eff == m0.eff,
                g@.len() == k,
                forall|j: int|
                    0 <= j < k ==> {
                        let before = add_specials(m0, missing@.take(j));
                        let sp = missing@[j];
                        &&& (#[trigger] g@[j]).special == sp
                        &&& g@[j].id == before.ids.next_id
                        &&& g@[j].module == before.ids.next_module
                        &&& g@[j].links@ == special_links(
                            sp,
                            before.ids.next_id,
                            before.sens,
                            before.eff,
                            attn_outs(before.neurons),
                        )
                    },
            decreases missing@.len() - k,
        {
            let ghost before = self@;
            let sp = missing[k];
            let outs = attention_outputs(&self.neurons);
            let links = sp.links(self.ids.next_id, &self.sens, self.eff, &outs);
            let id = self.ids.alloc_id();
            let m = self.ids.alloc_module();
            put_slot(&mut self.neurons, NeuronSlot { id, typ: sp.ntype(), module: m });
            let mut j: usize = 0;
            let ghost links0 = self.links@;
            let ghost mid = self@;
            while j < links.len()
                invariant
                    j <= links@.len(),
                    self.ids == mid.ids,
                    self.eff == mid.eff,
                    self.sens@ == mid.sens,
                    self.neurons@ == mid.neurons,
                    self.specials@ == mid.specials,
                    self.links@ == links0 + links@.take(j as int).map_values(|l: Link| (l.from, l.to)),
                decreases links@.len() - j,
            {
                self.links.push((links[j].from, links[j].to));
                proof {
                    assert(links@.take(j + 1).map_values(|l: Link| (l.from, l.to)) =~= links@.take(
                        j as int,
                    ).map_values(|l: Link| (l.from, l.to)).push((links@[j as int].from, links@[j as int].to)));
                }
                j = j + 1;
            }
            self.specials.push(sp);
            proof {
                assert(links@.take(links@.len() as int) =~= links@);
                assert(missing@.take(k + 1).drop_last() =~= missing@.take(k as int));
                assert(missing@.take(k + 1).last() == sp);
                assert(self@.links =~= add_special(before, sp).links);
                assert(self@.specials =~= add_special(before, sp).specials);
                assert(self@ == add_specials(m0, missing@.take(k + 1)));
            }
            g.push(SpecialGrowth { special: sp, id, module: m, links });
            proof {
                assert(g@[k as int].links@ == special_links(sp, before.ids.next_id, before.sens, before.eff, attn_outs(before.neurons)));
            }
            k = k + 1;
        }
        proof {
            assert(missing@.take(missing@.len() as int) =~= missing@);
            if m0.specials.no_duplicates() {
                lemma_specials_distinct(m0);
            }
        }
        g
    }
}

/// A skeleton lacks at most the 16 special neurons.
pub(crate) proof fn lemma_lacking_len(m: SkeletonModel)
    ensures
        lacking(m).len() <= 16,
{
    special_order().lemma_filter_len(|sp: Special| !m.specials.contains(sp));
}

/// After the lacking special neurons `sps` are added, each of them is among
/// the specials, as is each one that was there before.
proof fn lemma_add_specials_has(m: SkeletonModel, sps: Seq<Special>)
    ensures
        forall|sp: Special| #[trigger] add_specials(m, sps).specials.contains(sp) <==> (
            m.specials.contains(sp) || sps.contains(sp)),
        add_specials(m, sps).sens == m.sens,
    decreases sps.len(),
{
    if sps.len() > 0 {
        lemma_add_specials_has(m, sps.drop_last());
        let a = add_specials(m, sps.drop_last());
        assert forall|sp: Special| #[trigger] add_specials(m, sps).specials.contains(sp) <==> (
            m.specials.contains(sp) || sps.contains(sp)) by {
            let b = add_specials(m, sps).specials;
            assert(b == a.specials.push(sps.last()));
            if b.contains(sp) {
                let i = choose|i: int| 0 <= i < b.len() && b[i] == sp;
                if i < a.specials.len() {
                    assert(a.specials[i] == sp);
                    assert(a.specials.contains(sp));
                    if sps.drop_last().contains(sp) {
                        let j = choose|j: int| 0 <= j < sps.drop_last().len() && sps.drop_last()[j] == sp;
                        assert(sps[j] == sp);
                    }
                } else {
                    assert(sps[sps.len() - 1] == sp);
                }
            }
            if m.specials.contains(sp) || sps.drop_last().contains(sp) {
                assert(a.specials.contains(sp));
                let i = choose|i: int| 0 <= i < a.specials.len() && a.specials[i] == sp;
                assert(b[i] == sp);
            }
            if sps.contains(sp) && !sps.drop_last().contains(sp) {
                let i = choose|i: int| 0 <= i < sps.len() && sps[i] == sp;
                if i < sps.len() - 1 {
                    assert(sps.drop_last()[i] == sp);
                }
                assert(b[b.len() - 1] == sp);
            }
        }
    }
}

/// Adding the special neurons to a skeleton with sensors leaves it with every
/// one of the 16.
pub proof fn lemma_specials_complete(m: SkeletonModel)
    requires
        m.sens.len() > 0,
    ensures
        forall|i: int| 0 <= i < special_order().len() ==> with_specials(m).specials.contains(
            #[trigger] special_order()[i],
        ),
{
    lemma_add_specials_has(m, lacking(m));
    assert forall|i: int| 0 <= i < special_order().len() implies with_specials(m).specials.contains(
        #[trigger] special_order()[i],
    ) by {
        let sp = special_order()[i];
        if !m.specials.contains(sp) {
            special_order().lemma_filter_contains(|s: Special| !m.specials.contains(s), i);
        }
    }
}

/// A skeleton without sensors, or with all 16 special neurons, is left as it
/// is; so adding the special neurons twice is adding them once.
pub proof fn lemma_specials_idempotent(m: SkeletonModel)
    ensures
        (m.sens.len() == 0 || forall|i: int| 0 <= i < special_order().len() ==> m.specials.contains(
            #[trigger] special_order()[i],
        )) ==> with_specials(m) == m,
        with_specials(with_specials(m)) == with_specials(m),
{
    if m.sens.len() > 0 {
        if forall|i: int| 0 <= i < special_order().len() ==> m.specials.contains(
            #[trigger] special_order()[i],
        ) {
            lemma_lacking_empty(m);
        }
        let w = with_specials(m);
        lemma_add_specials_has(m, lacking(m));
        lemma_specials_complete(m);
        lemma_lacking_empty(w);
    }
}

/// A skeleton with all 16 special neurons lacks none.
proof fn lemma_lacking_empty(m: SkeletonModel)
    requires
        forall|i: int| 0 <= i < special_order().len() ==> m.specials.contains(
            #[trigger] special_order()[i],
        ),
    ensures
        lacking(m).len() == 0,
{
    let pred = |sp: Special| !m.specials.contains(sp);
    let f = special_order().filter(pred);
    if f.len() > 0 {
        special_order().lemma_filter_pred(pred, 0);
        special_order().lemma_filter_contains_rev(pred, f[0]);
        let i = choose|i: int| 0 <= i < special_order().len() && special_order()[i] == f[0];
        assert(m.specials.contains(special_order()[i]));
    }
}

/// `eff` with slot `k` set to `id`.
pub open spec fn set_slot(eff: [u32; 4], k: usize, id: u32) -> [u32; 4] {
    if k == 0 {
        [id, eff[1], eff[2], eff[3]]
    } else if k == 1 {
        [eff[0], id, eff[2], eff[3]]
    } else if k == 2 {
        [eff[0], eff[1], id, eff[3]]
    } else {
        [eff[0], eff[1], eff[2], id]
    }
}

/// The skeleton after one gene read from a genome: a neuron gene puts in a
/// neuron of the kind its letter stands for (see `kind_for_code`), keeps ids
/// from then on above its id, makes it the effector its letter names, and
/// notes the special neuron its letter names; a synapse gene adds its link.
/// Either takes one module number, which goes unused.
pub open spec fn absorb_gene(m: SkeletonModel, g: Gene) -> SkeletonModel {
    let ids = IdAllocator { next_module: next_module_after(m.ids.next_module), ..m.ids };
    match g {
        Gene::Neuron(n) => {
            let c = n.code as char;
            SkeletonModel {
                ids: IdAllocator {
                    next_id: if m.ids.next_id > n.id + 1 {
                        m.ids.next_id
                    } else {
                        (n.id + 1) as u32
                    },
                    ..ids
                },
                neurons: put(m.neurons, NeuronSlot { id: n.id, typ: kind_for_code(c), module: n.module }),
                eff: match effector_for_code(c) {
                    Some(k) => set_slot(m.eff, k, n.id),
                    None => m.eff,
                },
                specials: match Special::for_code(c) {
                    Some(sp) => if m.specials.contains(sp) {
                        m.specials
                    } else {
                        m.specials.push(sp)
                    },
                    None => m.specials,
                },
                ..m
            }
        },
        Gene::Synapse(sg) => SkeletonModel { ids, links: m.links.push((sg.from, sg.to)), ..m },
    }
}

/// The skeleton after the genes `gs`, in order.
pub open spec fn absorb_all(m: SkeletonModel, gs: Seq<Gene>) -> SkeletonModel
    decreases gs.len(),
{
    if gs.len() == 0 {
        m
    } else {
        absorb_gene(absorb_all(m, gs.drop_last()), gs.last())
    }
}

/// Whether every neuron gene's id is below `bound`.
pub open spec fn ids_below(gs: Seq<Gene>, bound: int) -> bool {
    forall|i: int| 0 <= i < gs.len() ==> match #[trigger] gs[i] {
        Gene::Neuron(n) => n.id < bound,
        Gene::Synapse(_) => true,
    }
}

/// The skeleton with nothing in it.
pub open spec fn empty_model() -> SkeletonModel {
    SkeletonModel {
        ids: IdAllocator { next_id: 0, next_module: 0 },
        eff: [0, 0, 0, 0],
        sens: Seq::empty(),
        neurons: Seq::empty(),
        links: Seq::empty(),
        specials: Seq::empty(),
    }
}

/// The skeleton of the brain a genome's genes give: an empty brain's fixed
/// circuits, then the genes, then the special neurons it lacks, then the
/// fixed circuits again.
pub open spec fn rebuilt(gs: Seq<Gene>) -> SkeletonModel {
    circuits(with_specials(absorb_all(circuits(empty_model()), gs)))
}

impl Skeleton {
    /// A skeleton with nothing in it.
    pub fn new() -> (sk: Self)
        ensures
            sk@ == empty_model(),
    {
        let sk = Skeleton {
            ids: IdAllocator::new(),
            eff: [0; 4],
            sens: Vec::new(),
            neurons: Vec::new(),
            links: Vec::new(),
            specials: Vec::new(),
        };
        assert(sk@.eff =~= empty_model().eff);
        sk
    }

    /// Takes in the genes read from a genome, in order, as `absorb_all` says.
    pub fn absorb(&mut self, genes: &Vec<Gene>)
        requires
            ids_below(genes@, u32::MAX as int),
        ensures
            final(self)@ == absorb_all(old(self)@, genes@),
            old(self).specials@.no_duplicates() ==> final(self).specials@.no_duplicates(),
    {
        let ghost m0 = self@;
        let mut i: usize = 0;
        while i < genes.len()
            invariant
                i <= genes@.len(),
                ids_below(genes@, u32::MAX as int),
                self@ == absorb_all(m0, genes@.take(i as int)),
            decreases genes@.len() - i,
        {
            let ghost before = self@;
            proof {
                assert(genes@.take(i + 1).drop_last() =~= genes@.take(i as int));
                assert(genes@.take(i + 1).last() == genes@[i as int]);
            }
            let _ = self.ids.alloc_module();
            match &genes[i] {
                Gene::Neuron(n) => {
                    assert(n.id < u32::MAX) by {
                        assert(ids_below(genes@, u32::MAX as int));
                        assert(genes@[i as int] == Gene::Neuron(*n));
                    }
                    let c = n.code as char;
                    put_slot(&mut self.neurons, NeuronSlot { id: n.id, typ: kind_for_code(c), module: n.module });
                    self.ids.note_id(n.id);
                    match effector_for_code(c) {
                        Some(k) => {
                            self.eff[k] = n.id;
                        },
                        None => {},
                    }
                    match Special::for_code(c) {
                        Some(sp) => {
                            if !self.has_special(sp) {
                                self.specials.push(sp);
                            }
                        },
                        None => {},
                    }
                    proof {
                        assert(self@.eff =~= absorb_gene(before, genes@[i as int]).eff);
                        assert(self@.specials =~= absorb_gene(before, genes@[i as int]).specials);
                    }
                },
                Gene::Synapse(sg) => {
                    self.links.push((sg.from, sg.to));
                },
            }
            proof {
                assert(self@ == absorb_gene(before, genes@[i as int]));
            }
            i = i + 1;
        }
        proof {
            assert(genes@.take(genes@.len() as int) =~= genes@);
            if m0.specials.no_duplicates() {
                lemma_absorb_specials(m0, genes@);
            }
        }
    }

    /// Whether the skeleton has the special neuron `sp`.
    fn has_special(&self, sp: Special) -> (b: bool)
        ensures
            b == self.specials@.contains(sp),
    {
        let n = self.specials.len();
        let mut i: usize = 0;
        while i < n
            invariant
                n == self.specials@.len(),
                i <= n,
                forall|j: int| 0 <= j < i ==> self.specials@[j] != sp,
            decreases n - i,
        {
            if self.specials[i] == sp {
                return true;
            }
            i = i + 1;
        }
        false
    }
}

/// Taking in genes whose neuron ids lie below `bound` keeps the sensors and
/// the next id at most the larger of the old one and `bound`.
pub(crate) proof fn lemma_absorb_bounds(m: SkeletonModel, gs: Seq<Gene>, bound: int)
    requires
        ids_below(gs, bound),
        bound <= u32::MAX,
    ensures
        absorb_all(m, gs).sens == m.sens,
        absorb_all(m, gs).ids.next_id <= if m.ids.next_id >= bound {
            m.ids.next_id as int
        } else {
            bound
        },
    decreases gs.len(),
{
    if gs.len() > 0 {
        assert forall|i: int| 0 <= i < gs.drop_last().len() implies match #[trigger] gs.drop_last()[i] {
            Gene::Neuron(n) => n.id < bound,
            Gene::Synapse(_) => true,
        } by {
            assert(gs.drop_last()[i] == gs[i]);
        }
        lemma_absorb_bounds(m, gs.drop_last(), bound);
        assert(match gs[gs.len() - 1] {
            Gene::Neuron(n) => n.id < bound,
            Gene::Synapse(_) => true,
        });
    }
}

/// Adding special neurons takes one id each and keeps the sensors and
/// effectors.
pub(crate) proof fn lemma_add_specials_ids(m: SkeletonModel, sps: Seq<Special>)
    requires
        m.ids.next_id + sps.len() <= u32::MAX,
    ensures
        add_specials(m, sps).ids.next_id == m.ids.next_id + sps.len(),
        add_specials(m, sps).sens == m.sens,
        add_specials(m, sps).eff == m.eff,
    decreases sps.len(),
{
    if sps.len() > 0 {
        lemma_add_specials_ids(m, sps.drop_last());
    }
}

/// The numbers of ids and sensors the fixed circuits of an empty skeleton
/// give it.
pub(crate) proof fn lemma_first_circuits()
    ensures
        circuits(empty_model()).ids.next_id <= 64,
        circuits(empty_model()).sens.len() == SENSOR_COUNT,
        circuits(empty_model()).eff == [0u32, 1, 2, 3],
{
    let m = empty_model();
    lemma_circuits_complete(m);
    assert(with_effectors(with_sensors(m)).eff =~= [0u32, 1, 2, 3]);
}

impl Skeleton {
    /// The skeleton of the brain read from a genome's genes, as `rebuilt`
    /// says. Neuron ids read from a genome are at most two letters, so far
    /// below the bound asked for.
    pub fn from_genes(genes: &Vec<Gene>) -> (sk: Skeleton)
        requires
            ids_below(genes@, 1_000_000),
        ensures
            sk@ == rebuilt(genes@),
            sk.specials@.no_duplicates(),
            sk.specials@.len() == 16,
    {
        let mut sk = Skeleton::new();
        let _ = sk.ensure_minimum_circuits();
        proof {
            lemma_first_circuits();
            lemma_absorb_bounds(sk@, genes@, 1_000_000);
            assert forall|i: int| 0 <= i < genes@.len() implies match #[trigger] genes@[i] {
                Gene::Neuron(n) => n.id < u32::MAX,
                Gene::Synapse(_) => true,
            } by {
                assert(ids_below(genes@, 1_000_000));
                assert(match genes@[i] {
                    Gene::Neuron(n) => n.id < 1_000_000,
                    Gene::Synapse(_) => true,
                });
            }
        }
        sk.absorb(genes);
        let ghost a = sk@;
        let _ = sk.ensure_specials();
        proof {
            lemma_lacking_len(a);
            lemma_add_specials_ids(a, lacking(a));
        }
        let _ = sk.ensure_minimum_circuits();
        proof {
            lemma_rebuilt_specials(genes@);
        }
        sk
    }
}

/// The neurons that fill a brain up take the next ids in turn, and their
/// kinds go memory, randomizer, excitatory, memory, and so on.
pub proof fn lemma_filler_kinds(n: u32, m: u8, count: nat)
    requires
        n + count <= u32::MAX,
    ensures
        filler_slots(n, m, count).len() == count,
        forall|i: int|
            0 <= i < count ==> {
                let f = #[trigger] filler_slots(n, m, count)[i];
                &&& f.id == n + i
                &&& f.typ == if i % 3 == 0 {
                    NType::Memory
                } else if i % 3 == 1 {
                    NType::Randomizer
                } else {
                    NType::Excitatory
                }
            },
{
}

/// Whether gene `g` is a neuron whose letter names the special neuron `sp`.
pub open spec fn names_special(g: Gene, sp: Special) -> bool {
    g matches Gene::Neuron(n) && Special::for_code(n.code as char) == Some(sp)
}

/// Taking in genes keeps each special neuron listed once: afterwards the
/// specials are those listed before together with those the neuron genes'
/// letters name, each once.
pub proof fn lemma_absorb_specials(m: SkeletonModel, gs: Seq<Gene>)
    requires
        m.specials.no_duplicates(),
    ensures
        absorb_all(m, gs).specials.no_duplicates(),
        forall|sp: Special| #[trigger] absorb_all(m, gs).specials.contains(sp) <==> (m.specials.contains(sp)
            || exists|i: int| 0 <= i < gs.len() && names_special(gs[i], sp)),
    decreases gs.len(),
{
    if gs.len() > 0 {
        let init = gs.drop_last();
        lemma_absorb_specials(m, init);
        let a = absorb_all(m, init);
        let g = gs.last();
        let b = absorb_all(m, gs);
        assert(b == absorb_gene(a, g));
        assert forall|sp: Special| #[trigger] b.specials.contains(sp) <==> (m.specials.contains(sp)
            || exists|i: int| 0 <= i < gs.len() && names_special(gs[i], sp)) by {
            if exists|i: int| 0 <= i < init.len() && names_special(init[i], sp) {
                let i = choose|i: int| 0 <= i < init.len() && names_special(init[i], sp);
                assert(gs[i] == init[i]);
            }
            if exists|i: int| 0 <= i < gs.len() && names_special(gs[i], sp) {
                let i = choose|i: int| 0 <= i < gs.len() && names_special(gs[i], sp);
                if i < init.len() {
                    assert(init[i] == gs[i]);
                }
            }
            if a.specials.contains(sp) {
                let q = choose|q: int| 0 <= q < a.specials.len() && a.specials[q] == sp;
                match g {
                    Gene::Neuron(n) => {
                        match Special::for_code(n.code as char) {
                            Some(x) => {
                                if !a.specials.contains(x) {
                                    assert(b.specials[q] == sp);
                                }
                            },
                            None => {},
                        }
                    },
                    Gene::Synapse(_) => {},
                }
            }
            if names_special(g, sp) && !a.specials.contains(sp) {
                assert(b.specials[a.specials.len() as int] == sp);
            }
            if b.specials.contains(sp) && !a.specials.contains(sp) {
                let q = choose|q: int| 0 <= q < b.specials.len() && b.specials[q] == sp;
                assert(q == a.specials.len());
                assert(names_special(gs[gs.len() - 1], sp));
            }
        }
        match g {
            Gene::Neuron(n) => {
                match Special::for_code(n.code as char) {
                    Some(x) => {
                        if !a.specials.contains(x) {
                            assert(b.specials == a.specials.push(x));
                            assert forall|i: int, j: int| 0 <= i < j < b.specials.len() implies b.specials[i]
                                != b.specials[j] by {
                                if j == a.specials.len() {
                                    assert(a.specials.contains(a.specials[i]));
                                }
                            }
                        }
                    },
                    None => {},
                }
            },
            Gene::Synapse(_) => {},
        }
    }
}

/// Adding the special neurons a skeleton lacks keeps each listed once.
proof fn lemma_add_lacking_distinct(m: SkeletonModel, k: int)
    requires
        m.specials.no_duplicates(),
        0 <= k <= lacking(m).len(),
    ensures
        add_specials(m, lacking(m).take(k)).specials.no_duplicates(),
        add_specials(m, lacking(m).take(k)).specials == m.specials + lacking(m).take(k),
    decreases k,
{
    let l = lacking(m);
    let pred = |sp: Special| !m.specials.contains(sp);
    if k == 0 {
        assert(l.take(0) =~= Seq::<Special>::empty());
        assert(m.specials + l.take(0) =~= m.specials);
    } else {
        lemma_add_lacking_distinct(m, k - 1);
        assert(l.take(k).drop_last() =~= l.take(k - 1));
        let a = add_specials(m, l.take(k - 1));
        let sp = l[k - 1];
        assert(l.take(k).last() == sp);
        assert(add_specials(m, l.take(k)).specials =~= m.specials + l.take(k));
        lemma_special_order_distinct();
        lemma_filter_distinct(special_order(), pred);
        let s2 = m.specials + l.take(k);
        assert forall|i: int, j: int| 0 <= i < j < s2.len() implies s2[i] != s2[j] by {
            if j >= m.specials.len() && i < m.specials.len() {
                assert(s2[j] == l[j - m.specials.len()]);
                special_order().lemma_filter_pred(pred, j - m.specials.len());
                assert(m.specials.contains(s2[i]));
            } else if i >= m.specials.len() {
                assert(s2[i] == l[i - m.specials.len()]);
                assert(s2[j] == l[j - m.specials.len()]);
            }
        }
    }
}

/// The 16 special neurons are all different.
proof fn lemma_special_order_distinct()
    ensures
        special_order().no_duplicates(),
{
    let o = special_order();
    assert forall|i: int, j: int| 0 <= i < o.len() && 0 <= j < o.len() && i != j implies o[i]
        != o[j] by {
        assert(Special::for_code(o[i].ntype().ch()) == Some(o[i]));
        assert(Special::for_code(o[j].ntype().ch()) == Some(o[j]));
    }
}

/// Keeping some elements of a sequence without repeats gives one without
/// repeats.
proof fn lemma_filter_distinct<A>(s: Seq<A>, p: spec_fn(A) -> bool)
    requires
        s.no_duplicates(),
    ensures
        s.filter(p).no_duplicates(),
    decreases s.len(),
{
    reveal_with_fuel(Seq::filter, 1);
    if s.len() > 0 {
        let init = s.drop_last();
        assert forall|i: int, j: int| 0 <= i < init.len() && 0 <= j < init.len() && i != j implies init[i]
            != init[j] by {
            assert(init[i] == s[i] && init[j] == s[j]);
        }
        lemma_filter_distinct(init, p);
        let f = init.filter(p);
        if p(s.last()) {
            if f.contains(s.last()) {
                init.lemma_filter_contains_rev(p, s.last());
                let i = choose|i: int| 0 <= i < init.len() && init[i] == s.last();
                assert(s[i] == s[s.len() - 1]);
            }
            let g = f.push(s.last());
            assert forall|i: int, j: int| 0 <= i < g.len() && 0 <= j < g.len() && i != j implies g[i]
                != g[j] by {
                if i == f.len() as int {
                    assert(f.contains(f[j]));
                } else if j == f.len() as int {
                    assert(f.contains(f[i]));
                }
            }
        }
    }
}

/// Adding the special neurons a skeleton lacks keeps each listed once.
pub proof fn lemma_specials_distinct(m: SkeletonModel)
    requires
        m.specials.no_duplicates(),
    ensures
        with_specials(m).specials.no_duplicates(),
        circuits(m).specials == m.specials,
{
    if m.sens.len() > 0 {
        let l = lacking(m);
        lemma_add_lacking_distinct(m, l.len() as int);
        assert(l.take(l.len() as int) =~= l);
    }
}

/// Taking in genes keeps the sensors.
proof fn lemma_absorb_sens(m: SkeletonModel, gs: Seq<Gene>)
    ensures
        absorb_all(m, gs).sens == m.sens,
    decreases gs.len(),
{
    if gs.len() > 0 {
        lemma_absorb_sens(m, gs.drop_last());
    }
}

/// Every special neuron is one of the 16.
proof fn lemma_special_listed(sp: Special)
    ensures
        special_order().contains(sp),
{
    let o = special_order();
    match sp {
        Special::Loop => assert(o[0] == sp),
        Special::Food => assert(o[1] == sp),
        Special::Wall => assert(o[2] == sp),
        Special::Random => assert(o[3] == sp),
        Special::Memory => assert(o[4] == sp),
        Special::Speed => assert(o[5] == sp),
        Special::Risk => assert(o[6] == sp),
        Special::Novelty => assert(o[7] == sp),
        Special::HormoneSrc => assert(o[8] == sp),
        Special::HormoneSink => assert(o[9] == sp),
        Special::Osc => assert(o[10] == sp),
        Special::Query => assert(o[11] == sp),
        Special::Key => assert(o[12] == sp),
        Special::Value => assert(o[13] == sp),
        Special::AttnOut => assert(o[14] == sp),
        Special::Plasticity => assert(o[15] == sp),
    }
}

/// The brain a genome's genes rebuild lists each of the 16 special neurons
/// exactly once, and nothing else.
pub proof fn lemma_rebuilt_specials(gs: Seq<Gene>)
    ensures
        rebuilt(gs).specials.no_duplicates(),
        rebuilt(gs).specials.len() == 16,
        forall|i: int| 0 <= i < special_order().len() ==> rebuilt(gs).specials.contains(
            #[trigger] special_order()[i],
        ),
{
    let m0 = circuits(empty_model());
    lemma_specials_distinct(empty_model());
    assert(m0.specials =~= Seq::<Special>::empty());
    lemma_absorb_specials(m0, gs);
    let a = absorb_all(m0, gs);
    lemma_specials_distinct(a);
    let w = with_specials(a);
    lemma_specials_distinct(w);
    lemma_first_circuits();
    lemma_absorb_sens(m0, gs);
    lemma_specials_complete(a);
    let r = rebuilt(gs);
    assert(r.specials == w.specials);
    lemma_special_order_distinct();
    lemma_distinct_within_order(r.specials);
}

/// A list of special neurons without repeats in which each of the 16 occurs
/// has exactly 16 entries.
proof fn lemma_distinct_within_order(sps: Seq<Special>)
    requires
        sps.no_duplicates(),
        forall|i: int| 0 <= i < special_order().len() ==> sps.contains(#[trigger] special_order()[i]),
    ensures
        sps.len() == 16,
{
    let o = special_order();
    lemma_special_order_distinct();
    assert forall|x: Special| sps.to_set().contains(x) <==> o.to_set().contains(x) by {
        lemma_special_listed(x);
        if o.contains(x) {
            let i = choose|i: int| 0 <= i < o.len() && o[i] == x;
            assert(sps.contains(o[i]));
        }
    }
    assert(sps.to_set() =~= o.to_set());
    sps.unique_seq_to_set();
    o.unique_seq_to_set();
}

/// The default sensors: sensor `i` has id `i`, looks in direction `i / 3`,
/// and senses walls, food and body in turn; and the four effectors made from
/// id `n` have ids `n` to `n + 3`, module 0.
pub proof fn lemma_default_parts(n: u32)
    requires
        n + 4 <= u32::MAX,
    ensures
        default_sensor_seq().len() == 24,
        forall|i: int|
            0 <= i < 24 ==> {
                let x = #[trigger] default_sensor_seq()[i];
                &&& x.id == i
                &&& x.dir == i / 3
                &&& x.typ == if i % 3 == 0 {
                    SenT::Wall
                } else if i % 3 == 1 {
                    SenT::Food
                } else {
                    SenT::Body
                }
            },
        effector_slots(n).len() == 4,
        forall|k: int|
            0 <= k < 4 ==> #[trigger] effector_slots(n)[k] == (NeuronSlot {
                id: (n + k) as u32,
                typ: NType::Effector,
                module: 0,
            }),
{
}

} // verus!
