# rt_easy

Verified building blocks of a register-transfer language toolchain, written
in Verus:

- `value`: bit vectors of any width with arithmetic, bitwise operations,
  shifts, comparison, parsing and decimal formatting, each stated over the
  number the bits denote.
- `pretty_error`: error messages that point into the source, with line and
  column, the covered text marked, and optional ANSI colors.
- `toktok`: the errors of token-stream parsers, merged so that the error
  furthest into the input wins, and printed for people.
- `generator`: the lexer, the token map and the rule parser of grammar files,
  and the `parser` module that a grammar file becomes (`generator::module`).
- `json`: a lexer and parser for JSON documents.
- `vhdl`: the VHDL intermediate representation and the rules that render it
  (bit ranges, criteria, expressions and operations in `render_expr`),
  find what the next state depends on and splice jump states into the next
  state logic; and the generator that builds that representation from the
  compiler's program (`vhdl::mir`): declarations, expressions and operations
  (`from_mir`), the statements step by step (`statement`), and the whole
  program with its criteria and operations each kept once (`builder`).
- `split_vec`, `cli`, `text`: a vector split in two, the answers of the command
  line tool, and text helpers.

`app/` holds the command line glue: argument parsing, file reading, and the
error types that need `Display`.
