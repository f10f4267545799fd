# aura_lang

The front and middle of the Aura language toolchain as a library verified
with Verus: the semantic checker (types, ranges, ownership and capabilities),
the analyses that run beside it (move tracking, control flow, race and
network checks, explanations), the debugger's data, the runtime header and
LLVM metadata passes, the model-file reader and the header scanner of the
bridge.

The functions in `src/` state in their `requires` and `ensures` what they
do, over mathematical models (`Seq`, `Map`, spec functions and views), and
Verus proves it. Laws that relate several functions stand as public proof
functions (their names begin with `law_`).

The checker's contracts fix its answer exactly on a fragment of the
language and state rules that hold everywhere else:

- exactly: statements over literals and names (expressions, `prop`,
  `requires`, `ensures`, `assert`, `assume`), `val`s over them with no type
  or a built-in one, blocks and parameterless cells made of these, and
  whole programs made of such cells and top-level statements
  (`decided_program`, `program_passes`);
- everywhere: the arm rules of a match and that every arm's pattern fits
  the scrutinee's type, that a typed `val` holds a value assignable to its
  type, that a moved non-copy value is refused when used again (as a name,
  a call argument or a statement), and that a checked program registers
  every function it declares.

Outside the fragment, what a program with calls, records, enums, flows and
parameters is accepted for is stated rule by rule, not as one judgment.

## Layout

- `src/lib.rs` names the modules. The central ones:
  - `ast.rs`, `types.rs`, `error.rs`: the syntax tree, types and their models.
  - `checker.rs`: the checker (`sema::Checker`): declarations, expressions,
    statements, matches and whole programs.
  - `sema.rs`: assignability and range rules; `capability.rs`: the
    capability graph behind moves and borrows.
  - `race_detector.rs`, `net_verifier.rs`, `move_tracking.rs`,
    `control_flow.rs`, `explanation_engine.rs`: the analyses.
  - `ai_opt.rs`, `backend.rs`, `debugger.rs`, `debug.rs`: the metadata pass,
    the runtime header, debug information and the debugger's state.
  - `onnx.rs`, `bridge.rs`: reading model shapes and C headers.
- `tests/`: tests on concrete values, run with the outside crates linked.
- `app/`: the command-line program around the library: file and terminal
  I/O, argument handling and the error types with outside derives.

## Checking

Verus verifies `src/`; the tests under `tests/` run the compiled library.
Calls into outside crates and into parts of std that Verus does not specify
stand behind small trusted wrappers in `text.rs`, `bridge.rs` and `onnx.rs`,
each with a doc comment that says what its contract claims.
