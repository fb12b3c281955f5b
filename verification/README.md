# rynix

The front end and tree-walking interpreter of Rynix, a small imperative
language, written in Verus with its behaviour stated in contracts and
proved.

- `src/lexer/` — tokens (`token.rs`) and the lexer (`lexer.rs`), with the
  token list a source text yields defined by `lex`; `properties.rs` proves
  what every such list looks like.
- `src/parser/` — the syntax tree (`ast.rs`) and a recursive-descent parser
  (`parser.rs`) whose results are those of the grammar functions
  `program_of`, `expression_of`, ...; `properties.rs` proves progress,
  precedence, associativity and that parenthesized renderings parse back.
- `src/interpreter/` — the evaluator (`eval.rs`), whose results are those
  of `eval_expr`, `exec_stmt` and `run_program`; `properties.rs` proves how
  statements share the environment and how division rounds.
- `src/text.rs` — building diagnostic messages.
- `app/` — a program that runs a sample source through all three phases.
