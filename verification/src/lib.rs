//! Verified core of an evolving snake-playing brain: the base-26 codes and
//! the genome text, the neuron kinds, the board geometry, the snake's game
//! rules, and the integer side of wiring, breeding and scoring brains.

pub mod encoding;
pub mod ntype;
pub mod geometry;
pub mod random;
pub mod snake;
pub mod genome;
pub mod genome_write;
pub mod genome_laws;
pub mod wiring;
pub mod specials;
pub mod scoring;
pub mod history;
pub mod crossover;
pub mod evolution;
pub mod tally;
pub mod pruning;
pub mod visits;
pub mod skeleton;
pub mod brain_laws;
