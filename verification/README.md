# bio_brain_snake

A snake on a 20x20 board is steered by a brain of spiking neurons that is
bred over generations. The library under `src/` holds the parts that work on
whole numbers and text, each with a contract proved by Verus:

- `encoding`: two-letter base-26 codes (`u2b26`, `b262u`).
- `ntype`: the kinds of neuron, their letters, and the charge the snake's
  state sets on the special kinds.
- `geometry`: the board, the four directions, safe cells and moves.
- `snake`: a snake's start, its food, one move of the game, what it sees,
  and the board as drawn.
- `genome`, `genome_write`, `genome_laws`: reading and writing a brain as
  text, and what reading back a written genome gives.
- `wiring`, `specials`: neuron and module numbers, sensors, and the links
  each fixed circuit and special neuron gets.
- `skeleton`, `brain_laws`: a brain's whole-number skeleton (neurons by id,
  kind and module, effectors, sensors, links, special neurons), how the fixed
  circuits and special neurons complete it and how a genome's genes rebuild
  it, and what a brain read back from its own genome holds.
- `crossover`, `scoring`, `history`: which synapses a child keeps, the
  integer rules of scoring, and a neuron's firing history.
- `tally`, `visits`, `pruning`: the outcomes counted for a neuron or
  synapse, the cells the head has visited, and the pruning of weak synapses.
- `evolution`: the record of apples and the mutation level it sets.
- `random`: the random draws, from the `rand` crate.

`app/` holds what works on floating-point charges and strengths (neurons,
synapses, the brain's ticks, mutation, fitness), the terminal display, files
and the main loop.
