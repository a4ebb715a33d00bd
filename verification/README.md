# logseq-i18n-lint

Detection of hardcoded UI strings, and of unused translation keys, in
Clojure/ClojureScript source code, with the analysis proved correct against
its specification by Verus.

## Layout

- `src/` — the verified library.
  - `parser.rs`, `read_model.rs`, `syntax.rs`: the Clojure reader over the
    UTF-8 bytes of a source text, and its specification; `parse_checked`
    tells the texts the reader cannot read through (a character cut in two
    by error recovery) from the others.
  - `analysis.rs` (specification) and `analyzer.rs` (code): which strings are
    reported, in which category, given the stack of enclosing forms.
  - `key_model.rs` (specification) and `key_collector.rs` (code): which
    translation keys a file references, with let scopes and top-level
    definitions resolved; keys derived from built-in db-idents.
  - `locations.rs`: each key's first location across files (by path, then
    line).
  - `edn.rs`: dictionary keys, and removal of entries line by line.
  - `checker.rs`: unused keys, and fixing every dictionary.
  - `scanner.rs`, `git.rs`, `paths.rs`: which found or changed files are
    checked, and the order of paths.
  - `reporter.rs`: previews, per-kind counts and the report table's layout.
  - `config.rs`: configuration values and their validation.
  - `patterns.rs`, `text.rs`: the calls into `regex`, `globset` and std's
    Unicode tables, with their contracts.
  - `laws.rs`: properties that hold for every input (every report passes the
    skip filters, ignored contexts report nothing, keys are listed once, ...).
- `app/` — the command-line program: argument parsing, reading the TOML
  configuration, walking directories, running git, reading and writing
  files, parallel analysis and coloured output.
- `tests/` — tests of the library.

## Usage

```bash
logseq-i18n-lint lint                  # table report of hardcoded strings
logseq-i18n-lint lint -f compact       # one line per string
logseq-i18n-lint lint --git-changed    # only files git reports as changed
logseq-i18n-lint check-keys            # unused translation keys
logseq-i18n-lint check-keys --fix      # remove them from every dictionary
```

The configuration is read from `.i18n-lint.toml` (or the file given with
`-c`, before the subcommand); without one, built-in defaults are used.

## Sets and maps of strings

The collections of keys and names are vectors with stated invariants (sorted,
or each element once) rather than `HashSet<String>`/`HashMap<String, _>`.
vstd's specifications of `HashMap` and `HashSet` describe their contents only
for key types that satisfy `vstd::std_specs::hash::obeys_key_model`, which
vstd establishes for integer and `bool` keys but not for `String`; for a
`String` key nothing about `insert` or `contains` could be proved without an
assumption, so the vectors carry the invariants instead.
