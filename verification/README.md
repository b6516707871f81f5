# azimuth

The executor of a small shape-based scripting language, verified with Verus.

A program arrives resolved (`ResolvedStatement`, `ResolvedExpression`); the
library evaluates expressions, executes statements and runs whole programs
against a `Runtime` that holds locals, objects, shapes, the call stack, the
printed output and the host inputs.

Layout of `src/`:

- `model.rs`: values, kinds, resolved expressions and statements, and their
  mathematical views.
- `value.rs`: numbers, kinds, value equality, assignability and rendering.
- `runtime.rs`: the runtime state and its operations, each stated as a
  function on `RtState`.
- `semantics.rs`: the meaning of expressions, statements and programs as spec
  functions, with an oracle for the clock and the random number generator.
- `ops.rs`, `eval.rs`, `call.rs`, `exec.rs`: the executable evaluator, proved
  against the semantics.
- `executor.rs`: the public entry points (`evaluate`, `evaluate_place`,
  `execute_statement`, `execute`, `create_range`, `evaluate_shape`).
- `intrinsic.rs`: the built-in operations and `lookup` by name; calls into
  `rand` and the standard library go through small trusted wrappers.
- `describe.rs`: the text of a runtime error.
- `laws.rs`: properties proved of every state and program.

`app/` gathers arguments and standard input, runs a program and prints its
output.
