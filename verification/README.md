# gc1805

The rules engine of *Grand Campaign 1805*, a grand-strategy game of the
Napoleonic wars, written in Verus.  The library's own functions carry
`requires`/`ensures` contracts that Verus proves.  The few calls into
outside code (`blake3` hashing, `serde_json` parsing, a `String` built from
characters, `Path::is_absolute`) stand behind `#[verifier::external_body]`
wrappers whose contracts are trusted; their doc comments say what each
claims, and the conversion from `serde_json` values claims nothing.

## Layout

- `src/scenario.rs`, `ids.rs`, `tables.rs`, `events.rs`, `orders.rs` — the
  scenario data model, rules tables, orders and the events the engine emits.
- `src/strmap.rs` — the ordered string-keyed map the scenario is built on;
  its view is a `Map<Seq<char>, V>` and its keys stay in text order.
- `src/map.rs`, `graph.rs`, `costpath.rs` — the land map: adjacency taken in
  both directions, shortest paths in hops and in cost.
- `src/movement.rs`, `march.rs` — validating and resolving movement orders,
  and marching every corps towards its capital.
- `src/combat.rs`, `naval.rs`, `economy.rs`, `production.rs`, `diplomacy.rs`,
  `politics.rs`, `political.rs`, `minors.rs`, `frontlines.rs`,
  `focuses.rs`, `marshals.rs`, `division.rs`, `historical.rs`, `ai.rs` —
  the game systems.
- `src/projection.rs` — fog of war: what one power sees of a scenario.
- `src/canonical.rs`, `loader.rs`, `replay.rs` — canonical JSON and its
  hash, the checks made on a scenario file before it is read (schema
  version, placeholder markers), and replays.
- `tests/` — tests run against the compiled library.
- `app/` — a command-line runner: reading files, the scenario file format
  (serde), mods on disk.

## Checking

Verus verifies `src/`; the tests run with the outside crates
(`blake3`, `serde_json`) linked.
