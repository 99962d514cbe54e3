# riic_planner

A planner for the Arknights RIIC (base): which operators to station in which
rooms. The core model and the search space are a Verus library whose
behaviour is stated in `requires` / `ensures` contracts and proved.

## Layout

- `src/`: the verified library.
  - `ids`, `enums`, `power`, `layout`, `facility`, `formula`, `operator`,
    `game_data`, `constants`, `skill`, `mechanics`, `richtext`: game data
    types, upstream strings, skill tiers, description rich text.
  - `base`: rooms and their validation (labels, levels, counts, settings,
    power, layout slots), with messages.
  - `assignment`: who sits where; checked mutators (`place`, `remove`,
    `move_to`, `swap`) that keep every operator in at most one slot, and the
    laws relating them.
  - `world`: an assignment resolved against the base, the roster and the
    game data, with room, role and group lookups.
  - `sim`, `warnings`: simulation vocabulary and the sorted, duplicate-free
    warning sink.
  - `space`, `exhaustive`, `rng`, `solve`: the search space (variable and
    locked slots, pool, neighbours, random proposals, canonical keys), the
    exhaustive enumeration, the PCG32 generator and solver settings.
  - `store`: document ids, timestamps, schema migration and listing order.
- `app/`: what stays outside the proofs: the file store's disk access, and
  the simulator and solver, whose arithmetic is floating point.
- `tests/`: tests of the library on concrete values.
