# ssharp

S# ("Scratch in text form") is a small educational language whose programs
read like English sentences:

```
when (start_clicked).
ask "How old are you?" and save to age.
if (age >= 18), display "Access granted".
if (age < 18), display "Access denied".
```

This crate is its lexer, parser and statement-level interpreter, written in
Verus with their behaviour stated as contracts and proved.

## Layout

- `src/lexer/` — source text to tokens. `rules.rs` states the lexical rules as
  spec functions (`lex`); `Lexer::tokenize` is proved to give exactly what they
  say, tokens with their lines and columns or the first lexical error.
- `src/parser/` — tokens to a syntax tree. `grammar.rs` states the grammar,
  with operator precedence and grouping, as spec functions; `Parser::parse` is
  proved to follow it, errors included. `parse_source` reads a whole program.
  A syntax error keeps the token found; `SyntaxError::to_parse_error` writes
  its message, showing a number token by the debug form of the float it
  stands for, which the caller computes.
- `src/interpreter/` — running a program. `environment.rs` holds the
  variables. `schedule.rs` states the interpreter as a machine that decides
  which statement runs next and asks an evaluator for the work of each;
  `Interpreter` implements it. `semantics.rs` proves that the machine runs
  programs as the statement-by-statement meaning of `if`, `repeat` and
  `while` says: whenever that run ends, the machine ends the same way, and
  whenever the machine ends, that run ends the same way.
- `src/error.rs`, `src/text.rs` — the error type and its text; character
  classes and decimal digits.
- `app/` — the `ssharp` command: arguments, files, standard input and
  output, the evaluator of expressions over `f64` values, and the debug form
  of a number token's value in syntax errors.
- `tests/` — tests of the library.
