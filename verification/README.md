# voidgrid

A glyph-grid terminal engine: cell buffers drawn with sprite-sheet glyphs,
semantic glyph lookup tables, palettes, a layout hierarchy and the VTP byte
protocol, with a demo program.

- `src/` is the engine's core, verified with Verus: every public function carries a
  `requires`/`ensures` contract over spec models of the data, and the
  properties that span functions stand as public proof functions named
  `law_*`.
- `tests/` runs the library on concrete values.
- `app/` is the demo program around the library: window, input, GPU drawing
  (raylib), the script host (rhai), pack files on disk or in a zip archive,
  the VTP TCP server and the profiler.

Modules of the library, bottom up: `keys`, `types`, `text`, `strmap`,
`palette`, `registry` (global glyph ids), `glyphset` (lookup tables),
`order`, `atlas` (sheet descriptors), `vtree` (mount tree), `buffer`,
`arena`, `hierarchy` (layout pass), `vtp` (protocol), `asset_manager`,
`buffer_manager`, `grids`, `terminal`, `text_ops`, `chrome` (window
controls), `input`, `semantic` (sheets with semantic groups), `pack` (pack
building), `compose` (glyphsets composed from mounted descriptors), `script`
(what scripts compute), `resource`, `batch` (draw planning), `bloom`.
