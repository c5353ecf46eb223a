# upsilon_dev

Development tooling of the upsilon git hosting service, as a verified
library: the functions of `src/` carry contracts that Verus proves, except
the few marked `external_body`, which wrap std path and string functions,
`path_slash` and `toml_edit`, and whose contracts are trusted.

- `shell`: the `ush` shell's lexer and command parser, argument
  declarations, completion and hints, and repository URLs.
- `ukonf`: the ukonf configuration language: its syntax tree, spans,
  string literals and interned strings; its values (objects keep the order
  in which their keys were last set); and the evaluator that runs a parsed
  file into a document: variables and context variables in nested scopes,
  value compilers, functions, key references, paths and spreads, imports.
  The grammar is not part of this crate: a file's syntax tree is given to
  the configuration together with its text.
- `difftests`: test-impact analysis: coverage data walked region by
  region, test indexes compiled from it, the files a test touched, the
  difftest directory stages, and the verdict on a diff.
- `xtask`: the workspace tasks: packages and their cargo arguments, build
  profiles, test groups and test-run arguments, the workspace layout
  source, the language map, and the Cargo manifest style checks.
- `cranky`: lint configuration flattened into compiler flags, strictest
  level first.
- `test_support`, `test_macro`: the configuration of the integration-test
  context, and what the test attribute reads from a test function.
- `shutdown_host`: the decisions of the host that stops a program
  gracefully: its grace period, when to stop, the exit code passed on.

`app/` holds the `ush` program (line editor, GraphQL client), the manifest
checks that read files (`xtask`) and the shutdown host (`shutdown-host`);
`tests/` runs the library on examples.
