# skim

The matching core of a fuzzy finder, written in Verus: the matchers that
score a choice string against a query, the match engines built on them, the
ranking and merging of matched items, field ranges, ANSI stripping, key
parsing, colour specifications, and the pieces of display and output that only compute.
The functions under `src/` carry contracts that Verus proves.

## Layout

- `src/fuzzy_matcher/`: the fuzzy matchers (`fzy`, `skim_v3`, the `frizbee`
  wrapper and the `arinae` building blocks) and their shared helpers. The
  dynamic programmes are specified cell by cell; laws relate the fast paths
  (score only, two-row buffers, range only) to the full traceback.
- `src/engine/`: exact, regex, fuzzy, split and and/or engines, each with the
  ranking it reports.
- `src/item.rs`, `src/item/`: ranks, sort keys, and the sorted merges of
  matched items; the item pool.
- `src/helper/`: the default item (ANSI stripping, field projection) and the
  item reader's decisions (line endings, batching).
- `src/field.rs`, `src/binds.rs`, `src/display.rs`, `src/output.rs`,
  `src/theme.rs`, `src/session.rs`, `src/text.rs`: field ranges, key
  parsing, highlight computation, what is printed at the end, colour
  options, the decisions taken before the interface is shown, and character
  helpers.
- `app/`: the parts Verus does not check: terminal widgets, reading input,
  engine factories and I/O around the library.
- `tests/`: tests on concrete values, run against the compiled library.

Calls into `regex`, `memchr`, `frizbee` and the Unicode queries of `std` go
through small trusted wrappers whose doc comments say what is assumed of
them.
