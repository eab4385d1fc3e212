//! How often the head has been on each cell during a game, which makes a
//! cell new or familiar to the brain.

use crate::geometry::Pos;
use std::collections::HashMap;
use vstd::prelude::*;

verus! {

broadcast use vstd::std_specs::hash::group_hash_axioms;

/// The number a cell is counted under: the column and the row, each shifted
/// to be non-negative, side by side in the high and low 32 bits.
pub open spec fn cell_key(p: Pos) -> u64 {
    ((p.0 + 0x8000_0000) * 0x1_0000_0000 + (p.1 + 0x8000_0000)) as u64
}

/// Two different cells are counted under different numbers.
pub proof fn lemma_cell_key_injective(p: Pos, q: Pos)
    ensures
        cell_key(p) == cell_key(q) ==> p == q,
{
    let a = p.0 + 0x8000_0000;
    let b = p.1 + 0x8000_0000;
    let c = q.0 + 0x8000_0000;
    let d = q.1 + 0x8000_0000;
    assert(0 <= a * 0x1_0000_0000 + b < 0x1_0000_0000_0000_0000) by (nonlinear_arith)
        requires
            0 <= a < 0x1_0000_0000,
            0 <= b < 0x1_0000_0000,
    ;
    assert(0 <= c * 0x1_0000_0000 + d < 0x1_0000_0000_0000_0000) by (nonlinear_arith)
        requires
            0 <= c < 0x1_0000_0000,
            0 <= d < 0x1_0000_0000,
    ;
    if a * 0x1_0000_0000 + b == c * 0x1_0000_0000 + d {
        assert(a == c && b == d) by (nonlinear_arith)
            requires
                a * 0x1_0000_0000 + b == c * 0x1_0000_0000 + d,
                0 <= b < 0x1_0000_0000,
                0 <= d < 0x1_0000_0000,
        ;
    }
}

/// The number `p` is counted under.
fn key_of(p: Pos) -> (k: u64)
    ensures
        k == cell_key(p),
{
    let a: u64 = (p.0 as i64 + 0x8000_0000) as u64;
    let b: u64 = (p.1 as i64 + 0x8000_0000) as u64;
    assert(a * 0x1_0000_0000 + b < 0x1_0000_0000_0000_0000) by (nonlinear_arith)
        requires
            a < 0x1_0000_0000,
            b < 0x1_0000_0000,
    ;
    a * 0x1_0000_0000 + b
}

/// The visits counted per cell.
#[derive(Clone, Debug)]
pub struct Visits {
    counts: HashMap<u64, u32>,
}

impl Visits {
    /// How often the head has been on `p`.
    pub closed spec fn times(&self, p: Pos) -> u32 {
        if self.counts@.contains_key(cell_key(p)) {
            self.counts@[cell_key(p)]
        } else {
            0
        }
    }

    /// No visits yet.
    pub fn new() -> (v: Self)
        ensures
            forall|p: Pos| v.times(p) == 0,
    {
        Visits { counts: HashMap::new() }
    }

    /// Counts one more visit to `p`; every other cell keeps its count.
    pub fn visit(&mut self, p: Pos)
        requires
            old(self).times(p) < u32::MAX,
        ensures
            final(self).times(p) == old(self).times(p) + 1,
            forall|q: Pos| q != p ==> final(self).times(q) == old(self).times(q),
    {
        let k = key_of(p);
        let n = self.count(p);
        self.counts.insert(k, n + 1);
        proof {
            assert forall|q: Pos| q != p implies final(self).times(q) == old(self).times(q) by {
                lemma_cell_key_injective(p, q);
            }
        }
    }

    /// How often the head has been on `p`.
    pub fn count(&self, p: Pos) -> (n: u32)
        ensures
            n == self.times(p),
    {
        let k = key_of(p);
        match self.counts.get(&k) {
            Some(n) => *n,
            None => 0,
        }
    }

    /// Forgets all visits.
    pub fn clear(&mut self)
        ensures
            forall|p: Pos| final(self).times(p) == 0,
    {
        self.counts.clear();
    }
}

} // verus!
