# codeball

The discrete core of a CodeBall (RAIC 2018) bot, verified with Verus.

`src/` is the verified library:

- `random` — the `Rng` interface, the xorshift128 generator, uniform integer ranges,
  shuffling, choosing, reservoir sampling and values drawn from a generator. Every operation is
  specified over the generator's step function, so what it returns and how far it advances the
  generator is exact.
- `search` — best-first search over the states produced by a `Visitor`, with the path to the
  best final state rebuilt from back links.
- `plan`, `scenarios`, `orders`, `strategy` — the planner's state machine, the checks that stop a
  scenario, micro-tick budgets, which robots get plans, the choice of the active order and the
  orders of the other robots, ranking, roles and robot priorities.
- `simulator`, `solid`, `targets`, `roles`, `player`, `world`, `profiler`, `common`,
  `examples` — contact records of the simulation, nitro respawn countdown, targets, players,
  the world's counters, stage timing, identifier generation and fixtures.

`app/` holds what works in floating point on top of the library: the game model, vectors and
plane geometry, the arena's distance function, the tick-by-tick physics, the scenarios played out
in it, the scoring of plans and the points to jump from, giving orders around a planner handed
in, the rules' geometry, fixtures with coordinates, timing reports and configuration. The search
over plans and the bot's entry point are not part of this crate.
`tests/` exercises the library on concrete values.
