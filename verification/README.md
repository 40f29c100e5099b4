# drift

The deterministic core of a space-trading simulation, written in Verus with
its behaviour stated in contracts and proved.

- `src/` is the verified library: typed ids and interning, the tick clock,
  markets and sticky prices, production recipes, trade planning, the player
  command pipeline, content linking, world construction, the pirate and navy
  fleets with the bookkeeping of their battles and of ambushes, the per-trader
  decisions of the trading phase, the player's command language, and the laws
  that span these (`src/laws.rs`).
- `app/` is ordinary Rust around it: the authored content schema (RON and
  TOML via serde), the floating-point formulas (pricing, elastic throughput,
  risk-discounted route values, travel times, and the building blocks of
  combat: vectors and combatants), the host that runs a tick over a seeded
  random stream and a battle resolver it is given, and the interactive text
  driver.
- `tests/` exercises the library on concrete values.

Real-valued authored quantities (elasticities, coordinates, danger) are a type
parameter `F` of the content types; the library carries them and never
computes with them.
