//! The kinds of neuron a brain is made of, and the letter of each in a genome.

use vstd::prelude::*;

verus! {

/// A neuron's kind.
#[derive(Clone, Copy, Debug, PartialEq, Eq, Structural)]
pub enum NType {
    Excitatory,
    Inhibitory,
    Effector,
    LoopDet,
    FoodSeek,
    WallAvoid,
    Randomizer,
    Memory,
    Speed,
    Risk,
    Novelty,
    HormoneSrc,
    HormoneSink,
    Oscillator,
    Gate,
    Query,
    Key,
    Value,
    AttentionOut,
    PlasticityMod,
}

impl NType {
    /// The letter that names the kind.
    #[verifier::allow_in_spec]
    pub fn ch(self) -> char
        returns
            match self {
                NType::Excitatory => 'E',
                NType::Inhibitory => 'I',
                NType::Effector => 'X',
                NType::LoopDet => 'L',
                NType::FoodSeek => 'F',
                NType::WallAvoid => 'W',
                NType::Randomizer => 'R',
                NType::Memory => 'M',
                NType::Speed => 'S',
                NType::Risk => 'K',
                NType::Novelty => 'V',
                NType::HormoneSrc => 'H',
                NType::HormoneSink => 'Z',
                NType::Oscillator => 'O',
                NType::Gate => 'G',
                NType::Query => 'Q',
                NType::Key => 'Y',
                NType::Value => 'U',
                NType::AttentionOut => 'A',
                NType::PlasticityMod => 'P',
            },
    {
        match self {
            NType::Excitatory => 'E',
            NType::Inhibitory => 'I',
            NType::Effector => 'X',
            NType::LoopDet => 'L',
            NType::FoodSeek => 'F',
            NType::WallAvoid => 'W',
            NType::Randomizer => 'R',
            NType::Memory => 'M',
            NType::Speed => 'S',
            NType::Risk => 'K',
            NType::Novelty => 'V',
            NType::HormoneSrc => 'H',
            NType::HormoneSink => 'Z',
            NType::Oscillator => 'O',
            NType::Gate => 'G',
            NType::Query => 'Q',
            NType::Key => 'Y',
            NType::Value => 'U',
            NType::AttentionOut => 'A',
            NType::PlasticityMod => 'P',
        }
    }

    /// The kind that a letter names; a letter that names none gives
    /// `Excitatory`.
    #[verifier::allow_in_spec]
    pub fn from(c: char) -> Self
        returns
            match c {
                'E' => NType::Excitatory,
                'I' => NType::Inhibitory,
                'X' => NType::Effector,
                'L' => NType::LoopDet,
                'F' => NType::FoodSeek,
                'W' => NType::WallAvoid,
                'R' => NType::Randomizer,
                'M' => NType::Memory,
                'S' => NType::Speed,
                'K' => NType::Risk,
                'V' => NType::Novelty,
                'H' => NType::HormoneSrc,
                'Z' => NType::HormoneSink,
                'O' => NType::Oscillator,
                'G' => NType::Gate,
                'Q' => NType::Query,
                'Y' => NType::Key,
                'U' => NType::Value,
                'A' => NType::AttentionOut,
                'P' => NType::PlasticityMod,
                _ => NType::Excitatory,
            },
    {
        match c {
            'E' => NType::Excitatory,
            'I' => NType::Inhibitory,
            'X' => NType::Effector,
            'L' => NType::LoopDet,
            'F' => NType::FoodSeek,
            'W' => NType::WallAvoid,
            'R' => NType::Randomizer,
            'M' => NType::Memory,
            'S' => NType::Speed,
            'K' => NType::Risk,
            'V' => NType::Novelty,
            'H' => NType::HormoneSrc,
            'Z' => NType::HormoneSink,
            'O' => NType::Oscillator,
            'G' => NType::Gate,
            'Q' => NType::Query,
            'Y' => NType::Key,
            'U' => NType::Value,
            'A' => NType::AttentionOut,
            'P' => NType::PlasticityMod,
            _ => NType::Excitatory,
        }
    }

    /// Whether the kind carries query, key and value vectors.
    #[verifier::allow_in_spec]
    pub fn is_attention_source(self) -> bool
        returns
            self == NType::Query || self == NType::Key || self == NType::Value,
    {
        match self {
            NType::Query | NType::Key | NType::Value => true,
            _ => false,
        }
    }
}

impl NType {
    /// The charge, in tenths, that a neuron of this kind is set to at the
    /// start of a tick, from the snake's state: a loop detector while a loop
    /// is seen, a food seeker while fewer than three apples are eaten, a wall
    /// avoider once the body is longer than eight, a randomizer early in the
    /// game (under two turns) or once the body is longer than twenty, a
    /// novelty neuron on a cell visited fewer than twice. Other kinds are not
    /// set this way (`None`).
    pub fn drive(self, looping: bool, eaten: usize, len: usize, turns: usize, visits: u32) -> (c:
        Option<u32>)
        ensures
            c == match self {
                NType::LoopDet => Some(if looping { 20u32 } else { 0u32 }),
                NType::FoodSeek => Some(if eaten < 3 { 30u32 } else { 0u32 }),
                NType::WallAvoid => Some(if len > 8 { 20u32 } else { 0u32 }),
                NType::Randomizer => Some(
                    if turns < 2 {
                        15u32
                    } else if len > 20 {
                        20u32
                    } else {
                        0u32
                    },
                ),
                NType::Novelty => Some(if visits < 2 { 20u32 } else { 0u32 }),
                _ => None::<u32>,
            },
    {
        match self {
            NType::LoopDet => Some(if looping { 20 } else { 0 }),
            NType::FoodSeek => Some(if eaten < 3 { 30 } else { 0 }),
            NType::WallAvoid => Some(if len > 8 { 20 } else { 0 }),
            NType::Randomizer => Some(
                if turns < 2 {
                    15
                } else if len > 20 {
                    20
                } else {
                    0
                },
            ),
            NType::Novelty => Some(if visits < 2 { 20 } else { 0 }),
            _ => None,
        }
    }

    /// Whether a neuron of this kind passes a strong charge on to the neurons
    /// it feeds: every kind but the excitatory, inhibitory, effector and gate
    /// kinds.
    #[verifier::allow_in_spec]
    pub fn relays_charge(self) -> bool
        returns
            !(self == NType::Excitatory || self == NType::Inhibitory || self == NType::Effector
                || self == NType::Gate),
    {
        match self {
            NType::Excitatory | NType::Inhibitory | NType::Effector | NType::Gate => false,
            _ => true,
        }
    }
}

/// Reading a kind's letter gives the kind back: no two kinds share a letter.
pub proof fn lemma_letter_round_trip(t: NType)
    ensures
        NType::from(t.ch()) == t,
{
}

/// A letter that names a kind is the letter of the kind it names.
pub proof fn lemma_named_letter_round_trip(c: char)
    requires
        NType::from(c) != NType::Excitatory || c == 'E',
    ensures
        NType::from(c).ch() == c,
{
}

} // verus!
