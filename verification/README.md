# Esperanto

A small statically-typed language — lexer, parser, type checker with
inference, and tree-walking interpreter — written as a Verus library whose
stages carry machine-checked contracts.

## Layout

- `src/lexer.rs` — text to tokens. `lex` is proved equal to `lex_spec`, a
  recursive model of maximal-munch lexing with line tracking; every token
  stream it produces ends with exactly one `Eof` and has ordered line numbers.
- `src/parser.rs` — recursive descent, one method per precedence level, each
  proved equal to its model (`level_expr`, `call_at`, `primary_at`, ...).
- `src/types.rs` — the checker; `check` is proved equal to `check_spec`,
  including every error message.
- `src/value.rs`, `src/interpreter.rs` — scopes live in a `Store` and are
  named by index; `run_program` is proved equal to `run_spec`, which threads
  the scopes and the printed lines through evaluation.
- `src/lib.rs` — `run`, `run_with_output` and `typecheck`, the whole pipeline.
- `src/laws.rs`, `src/soundness.rs` — properties proved
  over the models: a program that fails to type-check never runs; scopes
  read back what was defined; a program that type-checks fails only on a
  zero divisor (or past the call-depth limit); the lexer's last line is one
  plus the number of newlines.
- `app/main.rs` — the command line: run a file, `--check` a file, or a REPL.

## Behaviour at the edges

- Integer arithmetic wraps on overflow (`i64::MIN / -1` is `i64::MIN`).
- `print` collects its lines; `run_with_output` hands them back and the
  command line prints them.
- A closure sees the scope it was made in by reference: a top-level `let`
  rebinds its name where the binding lives, so functions made earlier see
  the new value. When the checker gives the name another type than it had,
  or the `let` first binds a builtin's name, the binding goes into a new
  scope below the current one instead, and functions made earlier keep the
  binding they were checked against; so a program that type-checks never
  meets a value of another type than the checker said.
- Calls may nest as deep as a `u64` counts (`CALL_DEPTH_LIMIT`); in
  practice the machine's stack is the bound.
