# boon_data

The data logic of the Boon Deadlock demo reader, verified with Verus: how
the datasets of a demo are planned and named, how entity state is tracked
from tick to tick into change-only rows, how lifecycles (the Rift, the urn,
Sinner's Sacrifice machines, breakable props, hero modifiers, barriers) are
followed, how the post-match metadata is flattened into tables, and how
listings are filtered, counted and ordered.

## Layout

- `src/` — the verified library. Every public function states its result in
  `ensures` over spec functions and views.
  - `datasets.rs` — dataset names, the street-brawl and snapshot sets, and
    the plan of a load (which passes run, which messages and entity classes
    are read).
  - `snapshot.rs` — snapshot passes: tick predicates, segments of a parallel
    pass, pauses and active ticks, strides, request validation.
  - `postmatch.rs` — post-match tables: per-player snapshots, last hits,
    objectives and the damage matrix as per-interval deltas.
  - `tracking.rs` — change trackers for objectives, troopers, neutrals and
    abilities, ability upgrade tiers, and the live barrier of each pawn.
  - `urn.rs` — the golden idol: pickups, drops, returns and delivery points.
  - `modifiers.rs` — modifiers on heroes: applied, changed and removed.
  - `sinners.rs`, `breakables.rs`, `entity_table.rs` — machine spawns,
    resets and hits, broken props, and the key-ordered table they use.
  - `rift.rs` — the Rift lifecycle.
  - `events.rs` — resolving the entities and slots named by messages, and
    the healing table of the damage messages.
  - `listing.rs` — filtering, counting and ordering of listing rows.
  - `labels.rs`, `text.rs`, `fields.rs` — names of codes, text helpers and
    integer field conversions.
- `tests/` — tests of the library on concrete values.
- `app/` — the command-line program: argument handling, reading demos with
  the parser, and printing.
