# vical

A command-line and terminal calculator whose core is verified with Verus.

- `src/expr.rs` — the expression grammar (`+ - * / % ^`, unary signs,
  parentheses, decimal literals) as spec functions, and a parser proved to
  follow them; `src/expr_laws.rs` proves that every tree is read back from
  its fully parenthesised text.
- `src/radix.rs` — decimal/binary conversion of 128-bit integers, with the
  round-trip laws.
- `src/app.rs` — the state machine of the terminal screen (input line,
  history, sequence modes, help); `src/app_laws.rs` states what the keys
  promise.
- `src/cli.rs` — the command line, the number-base commands and the
  interactive prompts; `src/theme.rs` — the colour theme and its settings
  file; `src/text.rs` — character helpers.
- `app/main.rs` — the program: terminal, clipboard, settings file and the
  floating-point arithmetic.
