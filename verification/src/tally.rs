//! What a neuron or a synapse has taken part in: the apples eaten while it was
//! active, and each kind of death.

use crate::snake::DeathReason;
use vstd::prelude::*;

verus! {

/// Counts of the outcomes a neuron or synapse was active for.
#[derive(Clone, Copy, Debug, PartialEq, Eq, Structural)]
pub struct Tally {
    pub food_ok: u64,
    pub w_death: u64,
    pub s_death: u64,
    pub l_death: u64,
    pub self_death: u64,
}

impl Tally {
    /// Nothing counted yet.
    pub fn new() -> (t: Self)
        ensures
            t == (Tally { food_ok: 0, w_death: 0, s_death: 0, l_death: 0, self_death: 0 }),
    {
        Tally { food_ok: 0, w_death: 0, s_death: 0, l_death: 0, self_death: 0 }
    }

    /// The counter that a death for `reason` adds to; an unset reason has
    /// none, and reads as zero.
    pub open spec fn count_for(self, reason: DeathReason) -> u64 {
        match reason {
            DeathReason::WallCollision => self.w_death,
            DeathReason::Starvation => self.s_death,
            DeathReason::Looping => self.l_death,
            DeathReason::SelfCollision => self.self_death,
            DeathReason::Unset => 0,
        }
    }

    /// The tally after one more death for `reason`: its counter goes up by
    /// one, and an unset reason changes nothing.
    pub open spec fn with_death(self, reason: DeathReason) -> Tally {
        match reason {
            DeathReason::WallCollision => Tally { w_death: (self.w_death + 1) as u64, ..self },
            DeathReason::Starvation => Tally { s_death: (self.s_death + 1) as u64, ..self },
            DeathReason::Looping => Tally { l_death: (self.l_death + 1) as u64, ..self },
            DeathReason::SelfCollision => Tally {
                self_death: (self.self_death + 1) as u64,
                ..self
            },
            DeathReason::Unset => self,
        }
    }

    /// All deaths counted.
    pub open spec fn deaths(self) -> int {
        self.w_death + self.s_death + self.l_death + self.self_death
    }

    /// Counts one apple.
    pub fn note_food(&mut self)
        requires
            old(self).food_ok < u64::MAX,
        ensures
            *final(self) == (Tally { food_ok: (old(self).food_ok + 1) as u64, ..*old(self) }),
    {
        self.food_ok += 1;
    }

    /// Counts one death for `reason`, as `with_death` says.
    pub fn note_death(&mut self, reason: DeathReason)
        requires
            old(self).count_for(reason) < u64::MAX,
        ensures
            *final(self) == old(self).with_death(reason),
    {
        match reason {
            DeathReason::WallCollision => self.w_death += 1,
            DeathReason::Starvation => self.s_death += 1,
            DeathReason::Looping => self.l_death += 1,
            DeathReason::SelfCollision => self.self_death += 1,
            DeathReason::Unset => {},
        }
    }

    /// The counter that a death for `reason` adds to (zero for an unset
    /// reason).
    pub fn count(&self, reason: DeathReason) -> (n: u64)
        ensures
            n == self.count_for(reason),
    {
        match reason {
            DeathReason::WallCollision => self.w_death,
            DeathReason::Starvation => self.s_death,
            DeathReason::Looping => self.l_death,
            DeathReason::SelfCollision => self.self_death,
            DeathReason::Unset => 0,
        }
    }

    /// The number of deaths counted; `None` when it does not fit in a `u64`.
    pub fn total_deaths(&self) -> (n: Option<u64>)
        ensures
            n == if self.deaths() <= u64::MAX {
                Some(self.deaths() as u64)
            } else {
                None::<u64>
            },
    {
        let a = self.w_death.checked_add(self.s_death);
        let b = match a {
            Some(a) => a.checked_add(self.l_death),
            None => None,
        };
        match b {
            Some(b) => b.checked_add(self.self_death),
            None => None,
        }
    }
}

/// A death raises the total of deaths by one exactly when its reason is set,
/// and leaves the apples counted as they were.
pub proof fn lemma_death_counts_once(t: Tally, reason: DeathReason)
    requires
        t.count_for(reason) < u64::MAX,
    ensures
        t.with_death(reason).deaths() == t.deaths() + if reason == DeathReason::Unset {
            0int
        } else {
            1int
        },
        t.with_death(reason).food_ok == t.food_ok,
        t.with_death(reason).count_for(reason) == if reason == DeathReason::Unset {
            0int
        } else {
            t.count_for(reason) + 1
        },
{
}

} // verus!
