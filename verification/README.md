# flare_format

A library for the FLARE art format: the INI-style definition files for
sprite animations, tilesets, maps, icon atlases and the engine tileset
configuration. It returns image paths, source rectangles and offsets; it
renders and decodes nothing.

## Layout

- `src/` — the library, written in Verus. Its functions carry contracts
  over a mathematical model of its data (`Seq`, `Map`, spec functions) and are
  verified, apart from two trusted items whose contracts Verus takes as given:
  the wrapper `push_char` around std's `String::push`, and the declaration of
  std's `PathBuf`, which only carries paths through. The laws of the format
  (what every parse, playback step and collision query keeps) are stated and
  proved as proof functions and contracts next to the code they speak of.
  - `text`, `value` — trimming, tokens, lines and the value types.
  - `parser` — key/value entries, sections, `INCLUDE` and `APPEND` decisions.
  - `animation` — animation sets and frame-period playback.
  - `tileset` — tilesets and tile-animation cycling.
  - `map`, `collision` — maps, their layers and collision queries.
  - `config`, `coords`, `icons`, `movement` — engine tileset configuration,
    tile anchors, icon atlases and the keyboard facing table.
- `tests/` — tests of the library on concrete files and values.
- `app/` — plain Rust around the library: reading files from mod roots,
  following `INCLUDE` and `APPEND` across mods, real-time playback, parallax
  layers, floating-point coordinates and movement, and serializable copies of
  the data types.
