# nginx-lint

A linter for nginx configuration files. The library parses a configuration,
runs rules over its syntax tree, filters the findings through
`# nginx-lint:ignore RULE reason` comments (or `nginx-lint:disable`), and applies the fixes the rules
attach to their findings. Each function states what it does in a Verus
contract, over a mathematical model of its data, and Verus proves it.

## Layout

- `src/lexer.rs`, `src/parser.rs`: tokens and the grammar, each stated as a
  relation between the text and what is read from it.
- `src/determinism.rs`: a text has one token stream and one parse: the
  grammar's result for a text is unique.
- `src/positions.rs`: the positions the parser records agree with the text,
  so a parsed file can be linted as it is.
- `src/ast.rs`, `src/config_api.rs`: the syntax tree, writing it back as text,
  and what a rule asks of it (arguments, include context, fixes around a
  directive, directive paths).
- `src/rules/`: the rules (`block-lines`, `duplicate-directive`,
  `invalid-directive-context`, `space-before-semicolon`,
  `trailing-whitespace`, and two security rules).
- `src/lint.rs`: findings and the fixes they carry.
- `src/ignore.rs`: disable comments and the filtering of findings.
- `src/linter.rs`: the rules a configuration runs, and their findings.
- `src/fixes.rs`: applying fixes to a text.
- `src/config.rs`: the `.nginx-lint.toml` settings and their validation.
- `src/plugin_script.rs`, `src/sdk.rs`: what a Lua plugin script must
  return, and where its text goes in the Lua runtime.
- `src/docs.rs`, `src/includes.rs`, `src/plugin.rs`, `src/cache.rs`,
  `src/run.rs`, `src/text.rs`, `src/error.rs`: rule documentation, `include`
  patterns, plugin errors, the plugin cache, the command's decisions and the
  lines of its report, text helpers, and parse errors.
- `src/include_walk.rs`: the walk through a file and the files it
  includes, as a state the command advances with what the file system says.
- `src/categories.rs`: the rules grouped by category for `why --list`.
- `src/plugin_checks.rs`: what checking a plugin against its own examples
  decides, from the findings the plugin reported.
- `app/`: the `nginx-lint` command: arguments, files, output.
- `tests/`: the tests, run against the compiled library.
