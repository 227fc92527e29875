# Frost Verb

Frost Verb is a cold, nordic character reverb. This crate is its verified
core; `app/` holds what runs around it.

- `src/params.rs`: the twelve public parameters, their stable ids and ranges,
  lookup by id.
- `src/preset.rs`: the factory presets, case-insensitive lookup by name, the
  JSON export of the preset bank, and `json_object`, which writes a preset
  object from value texts (the `f32` presets of `app/` export through it).
- `src/host.rs`: the plugin descriptor, the id-addressed parameter bank, and
  the text state document (writing it, reading its lines, applying them).
- `src/ui.rs`: the panel layout tables (artwork layers, knobs) and the
  texture registry of the egui panel.
- `src/delay.rs`, `src/noise.rs`, `src/wav.rs`: the ring-buffer delay line,
  the xorshift noise generator and the WAV header used by the engine and the
  renderers.
- `src/text.rs`: character-level helpers (line splitting, indentation, ASCII
  case folding, decimal digits) with their specifications.

Parameter and preset values are given in hundredths of the normalized range
(`72` stands for `0.72`). The engine in `app/` computes in `f32`, so it, the
`f32` parameter snapshot, the egui drawing code, the C ABI and the two
command-line renderers live there and call into the library.
