# peppi game data

The data model of a single game of Super Smash Brothers Melee as a Slippi replay records it,
verified with Verus.

- `src/game` — ports, players, the start and end of a game, the raw bytes of events with their
  base64 form (through the `base64` crate), and the JSON metadata block: how it is read from its
  JSON object and written back, with the proof that writing and reading back gives the same
  metadata (`game::metadata_laws`).
- `src/json` — JSON values as `serde_json` holds them, objects kept sorted by key.
- `src/text` — decimal numbers and string order as the standard library has them.
- `src/io`, `src/frame` — the Slippi version and port occupancy.
- `app/` — serde copies of the types (`Serialize`/`Deserialize`, `Display`, `Debug`) and the
  conversion between `serde_json` values and the library's JSON model.
