# rlox

A Lox implementation whose core is verified with Verus.

- `src/bytecode/`: the bytecode back end. `scanner` reads tokens from bytes,
  `compile` is a single-pass Pratt compiler into a `Chunk`, `codegen` is the
  mathematical model of the code the compiler emits (also for programs with
  errors, which it skips over), and `vm` is the virtual machine as a step
  function: each `step` says what the instruction did or what it needs from
  the caller (floating-point arithmetic, printing).
- `src/scanner.rs`, `src/grammar.rs`, `src/parser.rs`, `src/expr.rs`,
  `src/ast/`: the tree-walking front end. The scanner and the
  recursive-descent parser are specified by grammars over the characters and
  tokens they read.
- `src/environment.rs`: nested variable scopes, with laws on definition,
  lookup and assignment.
- `src/walker.rs`, `src/interpreter.rs`: the tree-walking interpreter as a
  small-step machine. `walker` gives its values and the mathematics of one
  step (`walk_next`); `interpreter` runs that step on an explicit stack of
  work, values and scopes, and asks its caller for what it cannot do itself
  (arithmetic on numbers, printing, reading the clock). `discipline` proves
  that a program run this way never lacks the values its next step takes;
  `wellformed` says which trees the interpreter accepts (those whose
  operators it applies, as every tree the parser builds) and checks them.
- `tests/`: tests of the library.
- `app/`: the command-line program. It reads the prompt or a file, runs the
  virtual machine and does the floating-point work the machine asks for; it
  drives the tree-walking interpreter in the same way.

Numbers are never computed inside the library: a number is carried as the
numeral the source spelled or as the bits of a result computed outside.
