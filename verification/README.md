# baras_core

The analysis core of a combat-log companion for an online game, written in
Verus. The functions in `src/` carry contracts that Verus proves, except
the small wrappers around outside crates and std (marked
`#[verifier::external_body]`), whose contracts are stated from those
crates' documentation and sources and are trusted.

## Layout

- `src/text.rs` — character-level string operations (trim, split, find,
  replace, parse) stated over `Seq<char>`.
- `src/context/area_index.rs` — parsing `AreaEntered` log lines, extracting
  the known areas of a log, and the per-file area cache.
- `src/game_data/` — difficulties and their config keys, boss and area
  lookups, PvP areas, game IDs.
- `src/encounter/` — PvP faction inference and the incoming damage tracker.
- `src/effects/` — display targets, the effect definition set with its
  lookups, alert text formatting, and the effect tracker (`engine.rs`):
  effects applied, refreshed, removed, expired, modified and cleared by
  game signals, with discipline gates; `keys.rs` proves that the tracker's
  tables never hold a key twice.
- `src/signal_processor/` — counter trigger decisions and their effect on
  the encounter's counter values, effect stack aggregation, warzone combat
  state.
- `src/query/` — SQL text of the data explorer's ability breakdown, its
  shield rows and the NPC health overview, the activation count merge,
  other SQL fragments, and the death recap reductions.
- `src/overlay_metrics.rs`, `src/overlays/` — meter overlay entries and
  their ordering, enemy frame placeholders.
- `src/hotkey_input.rs`, `src/mirror_names.rs`, `src/modifier_editor.rs` —
  hotkey capture, faction-mirrored ability naming, modifier trigger labels.
- `app/` — file and clock plumbing (the area cache on disk, reading logs),
  serde forms of library types, float conversions.
- `tests/` — tests on concrete values.

Each module states its laws as public proof functions named `law_*`.
