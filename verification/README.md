# rustio-design

The design bridge for rustio-admin: one declarative spec
(`rustio.design.toml`) is validated against the framework's design doctrine and
compiled into the files the running admin serves.

## Layout

- `src/` — the library, verified with Verus. Every public function states its
  result exactly over a mathematical model (`Seq<char>` for text, views of
  each data type), and the laws the tool relies on are proved as public proof
  functions (`law_*`).
  - `toml_lite` — the strict TOML subset the spec is written in.
  - `spec` — typed accessors over a parsed spec (project, brand, tokens,
    design-memory paths, navigation, table views, custom CSS).
  - `allowlist` — the `--rio-*` token vocabulary, resolution and
    "did you mean" suggestions (Levenshtein distance).
  - `color` — `#rgb` / `#rrggbb` parsing.
  - `validate` — the doctrine report (token resolution, contrast grades,
    custom-CSS rules).
  - `nav`, `views` — the navigation and record-view layers: lint and output.
  - `json` — the JSON value model and decoder the generated view files are
    proved to decode with.
  - `schema` — model-struct column extraction and the view-editor schema file.
  - `manifest` — content fingerprints for staleness and drift detection.
  - `context` — the assembled design-memory context stream.
  - `cli` — the command decisions: arguments, build plan, `schema --all`
    plan, `check` findings, generated guard-rail files.
  - `text`, `unicode` — string vocabulary and the few std facts taken on trust
    (Unicode classification and case mapping, path parent and join).
- `app/` — the command-line program: file and process I/O, and the
  floating-point WCAG contrast math, around the library.
- `tests/` — behavioural tests of the library.
