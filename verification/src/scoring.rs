//! The integer rules of scoring a life: bonuses for records, penalties for
//! ways of dying, and the reason that counts as the main one.

use vstd::prelude::*;
use crate::snake::DeathReason;

verus! {

/// The bonus for the most apples eaten in one life.
#[verifier::allow_in_spec]
pub fn food_bonus(max_food: usize) -> u32
    returns
        if max_food >= 100 {
            500000u32
        } else if max_food >= 90 {
            300000u32
        } else if max_food >= 80 {
            150000u32
        } else if max_food >= 70 {
            80000u32
        } else if max_food >= 60 {
            40000u32
        } else if max_food >= 50 {
            20000u32
        } else if max_food >= 40 {
            10000u32
        } else if max_food >= 30 {
            5000u32
        } else if max_food >= 20 {
            1000u32
        } else {
            0u32
        },
{
    if max_food >= 100 {
        500000
    } else if max_food >= 90 {
        300000
    } else if max_food >= 80 {
        150000
    } else if max_food >= 70 {
        80000
    } else if max_food >= 60 {
        40000
    } else if max_food >= 50 {
        20000
    } else if max_food >= 40 {
        10000
    } else if max_food >= 30 {
        5000
    } else if max_food >= 20 {
        1000
    } else {
        0
    }
}

/// More apples never earn a smaller bonus.
pub proof fn lemma_food_bonus_monotone(a: usize, b: usize)
    requires
        a <= b,
    ensures
        food_bonus(a) <= food_bonus(b),
{
}

impl DeathReason {
    /// The points a life loses for ending this way.
    #[verifier::allow_in_spec]
    pub fn penalty(&self) -> u32
        returns
            match *self {
                DeathReason::WallCollision => 200u32,
                DeathReason::SelfCollision => 300u32,
                DeathReason::Starvation => 150u32,
                DeathReason::Looping => 250u32,
                DeathReason::Unset => 0u32,
            },
    {
        match *self {
            DeathReason::WallCollision => 200,
            DeathReason::SelfCollision => 300,
            DeathReason::Starvation => 150,
            DeathReason::Looping => 250,
            DeathReason::Unset => 0,
        }
    }
}

/// How often `r` occurs in `s`.
pub open spec fn count_reason(s: Seq<DeathReason>, r: DeathReason) -> nat
    decreases s.len(),
{
    if s.len() == 0 {
        0
    } else {
        count_reason(s.drop_last(), r) + if s.last() == r {
            1nat
        } else {
            0nat
        }
    }
}

/// `count_reason` counts the occurrences: it is the length of the list of
/// entries equal to `r`, and a reason in the list occurs at least once.
pub proof fn lemma_count_reason(s: Seq<DeathReason>, r: DeathReason)
    ensures
        count_reason(s, r) == s.filter(|x: DeathReason| x == r).len(),
        count_reason(s, r) <= s.len(),
        s.contains(r) ==> count_reason(s, r) >= 1,
    decreases s.len(),
{
    reveal_with_fuel(Seq::filter, 1);
    if s.len() > 0 {
        lemma_count_reason(s.drop_last(), r);
        if s.contains(r) && !s.drop_last().contains(r) {
            assert(s.last() == r) by {
                let i = choose|i: int| 0 <= i < s.len() && s[i] == r;
                if i < s.len() - 1 {
                    assert(s.drop_last()[i] == r);
                }
            }
        }
    }
}

/// How often `r` occurs in the list.
fn count_in(deaths: &Vec<DeathReason>, r: DeathReason) -> (n: usize)
    ensures
        n == count_reason(deaths@, r),
{
    let len = deaths.len();
    let mut n: usize = 0;
    let mut i: usize = 0;
    while i < len
        invariant
            len == deaths@.len(),
            i <= len,
            n == count_reason(deaths@.take(i as int), r),
            n <= i,
        decreases len - i,
    {
        proof {
            assert(deaths@.take(i + 1).drop_last() =~= deaths@.take(i as int));
        }
        if deaths[i] == r {
            n = n + 1;
        }
        i = i + 1;
    }
    proof {
        assert(deaths@.take(len as int) =~= deaths@);
    }
    n
}

/// The reason that occurs most often; of several equally frequent ones the
/// last in the list; `Unset` for an empty list.
pub fn main_reason(deaths: &Vec<DeathReason>) -> (r: DeathReason)
    ensures
        deaths@.len() == 0 ==> r == DeathReason::Unset,
        deaths@.len() > 0 ==> exists|j: int|
            0 <= j < deaths@.len() && r == deaths@[j] && (forall|k: int|
                0 <= k < deaths@.len() ==> count_reason(deaths@, #[trigger] deaths@[k])
                    <= count_reason(deaths@, deaths@[j])) && (forall|k: int|
                j < k < deaths@.len() ==> count_reason(deaths@, #[trigger] deaths@[k])
                    < count_reason(deaths@, deaths@[j])),
{
    let len = deaths.len();
    if len == 0 {
        return DeathReason::Unset;
    }
    let mut best: usize = 0;
    let mut best_count = count_in(deaths, deaths[0]);
    let mut i: usize = 1;
    while i < len
        invariant
            len == deaths@.len(),
            1 <= i <= len,
            best < i,
            best_count == count_reason(deaths@, deaths@[best as int]),
            forall|k: int|
                0 <= k < i ==> count_reason(deaths@, #[trigger] deaths@[k]) <= best_count,
            forall|k: int|
                best < k < i ==> count_reason(deaths@, #[trigger] deaths@[k]) < best_count,
        decreases len - i,
    {
        let c = count_in(deaths, deaths[i]);
        if c >= best_count {
            best = i;
            best_count = c;
        }
        i = i + 1;
    }
    deaths[best]
}

} // verus!
