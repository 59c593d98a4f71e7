# pacman_lite

Pac-Man Lite: a grid maze with pellets and power pellets, four scripted
ghosts (chase / frightened / eaten), lives and score, and a deterministic
headless environment for training a DQN agent against the same ghost rules.

- `src/` — the game rules as a Verus-verified library:
  - `grid_pos` integer cells, Manhattan distance, first-closest selection;
  - `events` the four directions;
  - `maze` blueprint parsing (`MazeGrid`) and food tracking (`PelletMap`);
  - `pacman` buffered-turn player movement and eating;
  - `ghosts` targeting heuristics, direction choice, mode changes;
  - `ui` scoring, lives and level completion;
  - `headless_env` the training environment (`PacEnv`), whose step is
    specified by the spec function `env_step`;
  - `agent` the circular replay buffer;
  - `random` the calls into `rand`.
- `app/` — the Bevy game (rendering, input, timers, events), the Burn
  network and the floating-point reward/observation assembly.
- `tests/` — unit and scenario tests.
