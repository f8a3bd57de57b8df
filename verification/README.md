# photo-hat-engine

Recipes, metadata rules and export decisions of an offline photo and video
organizer, verified with Verus.

- `src/text.rs`: character-level string work (trimming, splitting, replacing,
  sorted sets of strings, decimal text) with its lemmas.
- `src/paths.rs`: file names, stems, extensions, sidecar paths and the
  components of `/`-separated paths.
- `src/metadata.rs`: the metadata model (tags and values), tag lookup,
  keywords, format allow-lists and the ExifTool line protocol.
- `src/recipe.rs`: recipes, their validation, template rendering (with
  event names), capture dates, destinations, meaningful folder names and
  keywords.
- `src/engine.rs`: scanning, duplicate, planning, resolution, export and
  cleanup decisions, including the per-item transfer steps and the
  matching of lower-resolution variants.
- `src/desktop.rs`: the desktop's rules for one job at a time.
- `src/external.rs`: the calls into `unicode-normalization`, `chrono` and
  `str::to_lowercase`, with the contracts the rest relies on.
- `src/laws.rs`: properties of the library as a whole, proved.
- `app/`: the command line, the SQLite index, file system work and the
  ExifTool process, which hand plain values to the library.
