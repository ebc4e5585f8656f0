# six

Six is a microscopic general-purpose programming language. This crate is its
front end, verified with Verus: the lexer, the parser, and the decisions of the
interactive loop and of the host observations, each with a contract stated over
a mathematical model of its input and output.

## Layout

- `src/lexer.rs` — characters to tokens. `lex_spec` says what a text lexes to
  (or which error it reports); `lex` is proved to compute exactly that.
- `src/grammar.rs` — the grammar as a model: one `sp_*` rule per parsing
  routine says which node is parsed at a position and how many tokens it
  spans, or which error is reported. The `unfold_*` lemmas state the rules one
  step at a time; the grammar's laws are proved here.
- `src/parser.rs` — tokens to a program; every parsing routine is proved to
  agree with its rule.
- `src/lib.rs` — `parse`, text to program, and laws over whole programs: every
  error names a line; every binding records its immutability.
- `src/repl.rs` — when typed input is complete, and what one line of input
  means to the interactive loop.
- `src/host.rs`, `src/builtins.rs`, `src/error.rs` — host associations and the
  `entropy`/`time` decisions, argument-count errors, error rendering.
- `src/chars.rs` — character classes (Unicode properties named, not restated)
  and moves between `&str`, `String` and `Vec<char>`.
- `app/` — the command-line runner and the tree-walking interpreter. Its
  numbers are floating point, so it runs outside the verified library, on the
  programs the library parses.
- `tests/` — the library's tests.
