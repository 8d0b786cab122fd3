# mimas

Verified pieces of the Mimas language toolkit, written in Verus.

## Layout

- `src/text.rs` – byte-level helpers: ASCII classes, Unicode whitespace, decimal
  rendering, UTF-8 boundaries.
- `src/units.rs` – the dimension algebra (`Dim`), the table of unit names, unit
  expressions (`usd/kWh`, `m/s^2`), unit suffixes after a number, and readable
  descriptions of dimensions.
- `src/schema.rs` – the `name:type` schema specs of dataframes.
- `src/items.rs` – top-level functions of a page of source: extraction (from the
  page's parse, or by brace matching), line and character geometry, callers, renaming
  and putting an item back. The parser itself lives outside this crate: `extract`
  takes the function spans the page's parse gave (or `None` for a page that does not
  parse), the callers functions take each function's parsed body as a `refs::Expr`
  syntax tree (or `None`, and then search the text for calls), and content hashes are taken
  of the canonical text the caller builds from the lexer's tokens with
  `canon::canonical`.
- `src/refs.rs` – the syntax tree of a parsed body (expressions, statements, patterns,
  literals) and the reference walk over it: identifiers, the names right of `::` and of
  a bare member access, pattern bindings in `let`, `for`, `if let`, `while let`, match
  arms and closure parameters, f-string expression parts; never the text of a string
  literal or of an f-string's literal parts.
- `src/canon.rs` – the canonical token text that content hashes cover: comments
  dropped, the function's own name erased, floats kept apart from ints.
- `src/digest.rs` – content hashes (BLAKE3, written in hex).
- `src/dims.rs`, `src/frames.rs` – what dimensional and column analysis know about a
  value, and how two such facts combine.
- `src/dim_check.rs` – the dimension checker's rules on a resolved expression:
  arithmetic, comparisons (`cannot compare` for `==`/`!=`, `cannot order` for
  `<`/`<=`/`>`/`>=`), branches, lists, declared types, assignments, arguments of user
  functions, returns, struct fields and the built-in methods (`sqrt`, `pow`, `to`, ...).
- `src/dataflow.rs` – the dataflow diagram of a straight-line function body.
- `src/tests_list.rs` – unique names for the cases of a `#[tests]` list.
- `src/attrs.rs` – which `#[test]` / `#[tests]` markers on an item are errors.
- `src/syntax.rs` – hints for spellings borrowed from other languages; the text of a
  compound unit annotation.
- `src/frame_schema.rs` – the column schemas tracked beside dataframes: lookups,
  projections, renames, joins, aggregations and schema specs over an `IndexMap`.
- `src/natives.rs` – the built-in `int` and `str` methods, and the source-position
  arithmetic of `std::debug`.
- `src/split.rs` – the `split`, `lines` and `replace` text methods.
- `src/patterns.rs` – the regular-expression methods `find` and `find_all`.
- `src/scales.rs` – each unit's scale to its base unit, as an exact ratio.
- `src/formats.rs` – the kind a spreadsheet column settles on (whatever the order of
  its cells); in a paint file's layer tree, what a referenced node is, pixel format
  channels and the pixel data's size check.
- `src/bench.rs` – the Fibonacci numbers of the benchmarks.
- `src/col_expr.rs` – typing a column expression against a frame's schema: missing
  columns, promotion, and the dimension rules row by row.
- `src/frame_call.rs` – what a method call on a frame (`pull`, `filter`, `rename`,
  `mutate`, `group_by`, ...) does to its schema.
- `src/annotation.rs` – reading a type annotation against the names in scope.
- `src/parse_item.rs` – a parsed top-level item: what it declares, visibility, markers.
- `app/lib.rs` – unit scales read as floats, over the verified dimensions and ratios,
  and the float conversions of ints; `app/interval.rs` – interval arithmetic;
  `app/darkly.rs` – a paint file's layer tree, whose layers carry floats, built on the
  library's decisions.

Every public function states its result in its contract; the laws the library keeps
(ordering of extracted items, the dimension algebra and the checker's rules, acyclic
dataflow diagrams with one exit and their parameters first, unique
names, what schema operations keep, ints reading back as written, renaming and comments
leaving the canonical form alone, string literals never being references, a column's kind
ignoring the order of its cells, split pieces joining back into the text) are public proof functions beside the code they speak of.
