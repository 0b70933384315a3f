# cookbook-qualify

Recipe qualification records for the forjar cookbook: the CSV that records
which recipes are qualified, the README dashboard generated from it, and the
Forjar Score of a recipe.

Layout:

- `src/qualify.rs` — recipe status, idempotency class, the qualification record.
- `src/table.rs` — reading the CSV (through the `csv` crate), the summary and
  the Markdown table, writing the CSV back, splicing the table into a README.
- `src/duration.rs` — timings as the table shows them.
- `src/sync.rs` — a whole README sync, from CSV text and README text.
- `src/score.rs` — grades, dimension scores, and the bridge to forjar's
  scoring engine.
- `src/recipe_score/` — the eight-dimension score computed from a recipe's own
  configuration (`config.rs` holds the configuration as plain values,
  `dimensions.rs` the per-dimension scores).
- `src/recipes_dir.rs` — which files of a recipes directory are recipes.
- `src/text.rs` — character-level text helpers.
- `app/` — the `cookbook-readme-sync` program: file I/O, finding the
  workspace, and reading recipe YAML with serde.

The functions in `src/` are verified with Verus against their contracts; the
public proof functions state the laws the library keeps (for example that an
A grade needs 80 in every dimension, or that updating a README twice is the
same as updating it once). The calls into std and the outside crates are
trusted rather than proved: `String::push` (an `assume_specification`),
`to_lowercase` and `to_uppercase` in `text.rs`, `read_csv_records` (the `csv`
crate) in `table.rs`, and `forjar_scoring` and `forjar_score_version`
(serde_yaml_ng and forjar) in `score.rs`. Each states in its doc comment what
is claimed of the outside code.
