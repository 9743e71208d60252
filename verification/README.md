# lox_interpreter

A tree-walk interpreter for the Lox language, written in Verus: the
scanner, the parser, the syntax-tree printer, the environments, the name
resolver and the interpreter are verified against specifications stated in
their contracts.

- `src/token.rs`: tokens and keywords.
- `src/scanner.rs`: source text to tokens; the tokens, the error messages
  and the exit code are specified by `scan_tokens`, `scan_errors` and
  `scan_exit_code`.
- `src/grammar.rs`: the grammar as spec functions; `src/parser.rs` is a
  recursive-descent parser proved to compute it.
- `src/ast.rs`: syntax trees and their printed form.
- `src/env.rs`: a stack of scopes, with laws on definition, lookup and
  assignment.
- `src/resolver.rs`: the name resolver.
- `src/interpret.rs`: a small-step machine that runs a program; each step
  is specified by `step_rel`. Numbers belong to the host: a step that needs
  arithmetic, a number literal's value, the time or a printed line says so
  in its `Action`, and the host answers in the next `Event`.
- `src/stack_discipline.rs`: a machine whose host answers as asked always
  has on its value stack the values its next step takes.
- `src/evaluation.rs`: whole evaluations: what an expression or a
  statement does once its parts have given their values.
- `src/program_order.rs`: over whole runs of the machine, statements are
  taken up once each, in program order, and a runtime error ends the
  program in the statement it happened in.
- `src/cli.rs`: what the `tokenize` and `parse` commands compute on a
  file's text.
- `app/main.rs`: the `interpreter-cli` program: argument parsing, file
  reading, printing, and the host loop that answers the machine with
  `f64` arithmetic.

```
interpreter-cli tokenize test.lox
interpreter-cli parse test.lox
```
