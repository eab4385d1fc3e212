//! The pace of evolution: a record switches mutation to the low rate, a long
//! hold without one switches it back to the high rate.

use vstd::prelude::*;

verus! {

/// Apples over the last record that make a new one.
pub const RECORD_BREAK_APPLES: usize = 3;

/// Apples under the last record that still count as holding it.
pub const RECORD_FALL_TOLERANCE: usize = 10;

/// Generations a record may be held before mutation goes back up.
pub const STABLE_GENS_REQUIRED: u32 = 30;

/// `a` less `b`, but never below zero.
pub open spec fn floor_sub(a: usize, b: usize) -> usize {
    if a >= b {
        (a - b) as usize
    } else {
        0
    }
}

/// `a` less `b`, but never below zero.
fn below(a: usize, b: usize) -> (r: usize)
    ensures
        r == floor_sub(a, b),
{
    if a >= b {
        a - b
    } else {
        0
    }
}

/// The mutation rate in force.
#[derive(Clone, Copy, Debug, PartialEq, Eq, Structural)]
pub enum MutationLevel {
    High,
    Low,
}

/// What a generation's best apple count did.
#[derive(Clone, Copy, Debug, PartialEq, Eq, Structural)]
pub enum GenerationEvent {
    /// A new record: mutation goes low.
    Record,
    /// The record is held (perhaps with a drop that raises mutation).
    Holding,
    /// The record was held too long: mutation goes high.
    Stagnation,
    /// None of these.
    Quiet,
}

/// The record of apples and how long it has been held.
#[derive(Clone, Copy, Debug, PartialEq, Eq, Structural)]
pub struct Snowball {
    pub last_record_food: usize,
    pub record_holding_gens: u32,
    pub level: MutationLevel,
    pub snowball_counter: u32,
}

impl Snowball {
    /// No record yet, high mutation.
    pub fn new() -> (s: Self)
        ensures
            s.last_record_food == 0,
            s.record_holding_gens == 0,
            s.level == MutationLevel::High,
            s.snowball_counter == 0,
    {
        Snowball {
            last_record_food: 0,
            record_holding_gens: 0,
            level: MutationLevel::High,
            snowball_counter: 0,
        }
    }

    /// Whether `max_food` apples make a new record.
    pub open spec fn is_record(&self, max_food: usize) -> bool {
        max_food >= self.last_record_food + RECORD_BREAK_APPLES
    }

    /// Whether `max_food` apples hold the record: no more than ten under it
    /// (any count holds a record under ten), while the hold has lasted under
    /// 30 generations.
    pub open spec fn is_holding(&self, max_food: usize) -> bool {
        max_food >= floor_sub(self.last_record_food, RECORD_FALL_TOLERANCE)
            && self.record_holding_gens < STABLE_GENS_REQUIRED
    }

    /// What a generation whose best snake ate `max_food` apples makes of
    /// this record, and what it did: a count three or more above the last
    /// record becomes the record and sets the low rate; otherwise a count no
    /// more than ten under it holds the record one more generation (and one
    /// more than eight under it sets the high rate); otherwise, after 30
    /// generations of holding, the hold ends and the high rate returns.
    pub open spec fn after(self, max_food: usize) -> (Snowball, GenerationEvent) {
        if self.is_record(max_food) {
            (
                Snowball {
                    last_record_food: max_food,
                    record_holding_gens: 0,
                    level: MutationLevel::Low,
                    snowball_counter: (self.snowball_counter + 1) as u32,
                },
                GenerationEvent::Record,
            )
        } else if self.is_holding(max_food) {
            (
                Snowball {
                    record_holding_gens: (self.record_holding_gens + 1) as u32,
                    level: if max_food < floor_sub(self.last_record_food, 8) {
                        MutationLevel::High
                    } else {
                        self.level
                    },
                    ..self
                },
                GenerationEvent::Holding,
            )
        } else if self.record_holding_gens >= STABLE_GENS_REQUIRED {
            (
                Snowball { record_holding_gens: 0, level: MutationLevel::High, ..self },
                GenerationEvent::Stagnation,
            )
        } else {
            (self, GenerationEvent::Quiet)
        }
    }

    /// Whether a generation can be taken in: the record plus three and one
    /// more snowball fit in their integers.
    pub open spec fn can_take(self) -> bool {
        &&& self.last_record_food + RECORD_BREAK_APPLES <= usize::MAX
        &&& self.snowball_counter < u32::MAX
    }

    /// Takes in the most apples of a generation, as `after` says.
    pub fn after_generation(&mut self, max_food: usize) -> (e: GenerationEvent)
        requires
            old(self).can_take(),
        ensures
            (*final(self), e) == old(self).after(max_food),
    {
        if max_food >= self.last_record_food + RECORD_BREAK_APPLES {
            self.snowball_counter += 1;
            self.last_record_food = max_food;
            self.record_holding_gens = 0;
            self.level = MutationLevel::Low;
            GenerationEvent::Record
        } else if max_food >= below(self.last_record_food, RECORD_FALL_TOLERANCE)
            && self.record_holding_gens < STABLE_GENS_REQUIRED {
            self.record_holding_gens += 1;
            if max_food < below(self.last_record_food, 8) {
                self.level = MutationLevel::High;
            }
            GenerationEvent::Holding
        } else if self.record_holding_gens >= STABLE_GENS_REQUIRED {
            self.level = MutationLevel::High;
            self.record_holding_gens = 0;
            GenerationEvent::Stagnation
        } else {
            GenerationEvent::Quiet
        }
    }
}

/// The low rate comes only with a record and stays only while no drop or
/// stagnation raises it; a record always brings it, and stagnation always
/// brings the high rate. A hold of at most 30 generations stays at most 30
/// (so, from the start, it never passes 30), and the record never goes down.
pub proof fn lemma_snowball_levels(s: Snowball, max_food: usize)
    requires
        s.can_take(),
        s.record_holding_gens <= STABLE_GENS_REQUIRED,
    ensures
        ({
            let (t, e) = s.after(max_food);
            &&& t.level == MutationLevel::Low ==> e == GenerationEvent::Record || s.level
                == MutationLevel::Low
            &&& e == GenerationEvent::Record <==> s.is_record(max_food)
            &&& e == GenerationEvent::Record ==> t.level == MutationLevel::Low
            &&& e == GenerationEvent::Stagnation ==> t.level == MutationLevel::High
            &&& t.record_holding_gens <= STABLE_GENS_REQUIRED
            &&& t.last_record_food >= s.last_record_food
        }),
{
}

/// What one generation does, case by case. A count of at least three over
/// the record is a new record: the count becomes the record, the hold starts
/// again from 0, the rate goes low and one more snowball is counted. Else a
/// count no more than ten under the record, while the hold is under 30,
/// holds it one generation more, keeping the record and the count of
/// snowballs, and raises the rate when more than eight under. Else a hold of
/// 30 or more ends: back to 0 and the high rate. Else nothing changes.
pub proof fn lemma_generation_cases(s: Snowball, max_food: usize)
    requires
        s.can_take(),
    ensures
        ({
            let (t, e) = s.after(max_food);
            &&& max_food >= s.last_record_food + 3 ==> {
                &&& e == GenerationEvent::Record
                &&& t.last_record_food == max_food
                &&& t.record_holding_gens == 0
                &&& t.level == MutationLevel::Low
                &&& t.snowball_counter == s.snowball_counter + 1
            }
            &&& max_food < s.last_record_food + 3 && max_food + 10 >= s.last_record_food
                && s.record_holding_gens < 30 ==> {
                &&& e == GenerationEvent::Holding
                &&& t.last_record_food == s.last_record_food
                &&& t.record_holding_gens == s.record_holding_gens + 1
                &&& t.snowball_counter == s.snowball_counter
                &&& t.level == if max_food + 8 < s.last_record_food {
                    MutationLevel::High
                } else {
                    s.level
                }
            }
            &&& max_food < s.last_record_food + 3 && (max_food + 10 < s.last_record_food
                || s.record_holding_gens >= 30) && s.record_holding_gens >= 30 ==> {
                &&& e == GenerationEvent::Stagnation
                &&& t.last_record_food == s.last_record_food
                &&& t.record_holding_gens == 0
                &&& t.snowball_counter == s.snowball_counter
                &&& t.level == MutationLevel::High
            }
            &&& max_food < s.last_record_food + 3 && max_food + 10 < s.last_record_food
                && s.record_holding_gens < 30 ==> e == GenerationEvent::Quiet && t == s
        }),
{
}

} // verus!
