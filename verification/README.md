# ree_save_core

The verified core of an RE Engine save editor and its headless save converter.

- `src/` is the library, verified with Verus:
  - `remap`: the format strings of field remaps (`parse_format_string`) and the
    remap and data-source types; `format_laws` proves what holds of every parse.
  - `eval`: evaluation of remap data sources, with a cache of the rows that queries
    found; the engine's lookups are handed in as closures.
  - `edit`: the path from a save's root to the edited value, and the labels and
    captions of fields and entries.
  - `cli`: Steam IDs and other command-line values of the converter.
  - `number`, `text`, `assoc`: integers as text, character helpers, and maps keyed
    by text.
- `tests/` runs the library on concrete values.
- `app/` is the converter program: argument handling, file I/O, and the calls into
  the engine library that reads and writes saves.
