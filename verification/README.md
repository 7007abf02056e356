# stern4rust

A cargo subcommand that holds a Rust workspace to its house coding rules and
names every file that breaks one, as a Verus-verified library with a thin
command-line program around it.

- `src/` is the library. Each rule takes a file or a whole package and returns
  its offences; every rule's result is stated exactly over plain values — the
  file's lines, and the outline of its items that `syn` gives of its text,
  which the contracts name `syntax_outline` (a function of the text alone,
  not spelled out).
  Around the rules: the rule registry built from the configuration, the
  configuration merging, the package tree, the test-file rewriter behind
  `--fix`, exclusion globs and the baseline, report ordering and
  de-duplication, and the text and JSON reports.
- `app/` is the program: argument parsing with clap, `stern4rust.toml` with
  serde and toml, workspace metadata with cargo_metadata, the directory walk
  with walkdir, the baseline file with serde_json, and the file reads and
  writes.
- `tests/` exercises the library on concrete inputs.
