# seqdiagsvg

Renders sequence diagrams written in a small text language
(`Alice->Bob: Hello`, `participant`, `note`, `activate`, `alt`/`else`/`end`,
...) to SVG or PNG.

The library in `src/` is verified with Verus:

- `parse` — the diagram language, line by line, with its grammar stated as
  spec functions; `parse_document` returns exactly the document (or the
  error) that the grammar gives.
- `actors` — the columns of a diagram: declared participants first, then
  every other actor in order of first mention.
- `plan` — the structure of the layout: activation bars, frames and
  destructions, each placed by statement.
- `color`, `cli`, `theme`, `json` — colour text as themes, the command line
  and SVG write it; a theme's JSON text is read by `serde_json` behind a
  trusted wrapper and turned into colours by verified code.
- `font` — which font supplies a character's glyph (skrifa behind trusted
  wrappers).
- `svg` — the pieces of SVG text the library decides (glyph paths, shadow
  filters, arrowhead markers).
- `note_files`, `diagram_index` — file names, checksums (SHA-256 behind a
  trusted wrapper) and the record of rendered files kept in a note's
  metadata.

`app/` holds what floating point, file I/O and outside derives keep out of
the verified library: geometry, SVG/PNG output, font metrics, the command
line program, and the file work of the note-folder functions (the metadata
file is read and written with serde there). The primary font is read at run
time from `fonts/Inter-Regular.otf` (or the file named by `--primary-font`).
