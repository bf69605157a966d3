# agent_models

Three agent-based models on the krABMaga engine — Schelling segregation,
wolf-sheep predation and flocking — with the models' integer rules written
in Verus and proved against their specifications.

- `src/schelling/`: the segregation world. `sparse.rs` states what the
  engine's double-buffered sparse grid does (read buffer, write buffer,
  placing, removing, swapping); `world.rs` holds the world and its rules
  (free cells, neighbour counts, an agent's turn, update, init, reset);
  `updater.rs` the agent that moves every discontented agent in one step;
  `neighbours.rs` the counting of like neighbours.
- `src/wolf_sheep/`: the integer part of the predation model. `grass.rs`
  states the engine's dense number grid and the regrowth rule;
  `pasture.rs` holds the grass field, the step, the id counter and the
  sheep killed in a step; `moves.rs` where sheep and wolves may go.
- `src/rng.rs`: the random draws the models make; `src/text.rs`: text output.
- `app/`: the command-line runner and the engine's `State`/`Agent` traits;
  the animals' energies and the whole flocking model are floating point and
  live there.
