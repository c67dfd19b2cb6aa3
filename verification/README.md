# pytest_linter

A test-smell linter for pytest suites, with its logic verified in Verus.

It parses Python test files with tree-sitter, records what each test and
fixture does (sleeps, file and network access, assertions, mocks,
parametrization, fixture dependencies and mutations, ...), and runs a set of
rules over the result: flakiness, maintenance, mocking and enhancement rules.
Rules can be configured per rule and per file glob, and silenced inline with
`# noqa` comments.

## Layout

- `src/` — the verified library.
  - `text.rs`, `paths.rs`, `numeric.rs` — character-level text operations,
    path handling, and how numeric literals and mock ratios read as floats.
  - `syntax.rs`, `treesitter.rs` — the syntax tree as plain data and the walk
    that copies it out of tree-sitter.
  - `parser.rs` — what the linter records about each test file.
  - `models.rs` — tests, fixtures, modules and violations.
  - `rulemap.rs`, `config.rs` — rule settings and how configurations layer.
  - `rules/` — the rules and their registry.
  - `engine.rs` — dispatch under a configuration, `# noqa` suppression,
    cross-module fixture facts, report order, baselines.
  - `properties.rs` — properties of the linter as a whole.
  - `grouping.rs` — grouping by key and sorted distinct values.
- `tests/` — tests run against the compiled library.
- `app/` — the `pytest-linter` command: arguments, reading configuration and
  test files, parallel parsing, and writing terminal, JSON and SARIF reports.
