# ccomp

A compiler for a small subset of C (`char`, `short`, `int`, `long`, functions,
local variables, `return`, arithmetic, calls) to x86-64 assembly in Intel
syntax, written in Verus.

The library (`src/`) is verified:

- `lexer` splits the preprocessed source into tokens (`lex`), against the
  specification `spec_lex`;
- `parser` builds the syntax tree by precedence climbing (`parse`), against
  `spec_parse`;
- `types` computes the type of an expression (`ExprAst::get_type`);
- `codegen` emits the assembly (`codegen`), against the state machine
  `spec_codegen`; `codegen_output` proves that it only ever appends;
- `vars` and `arraybuf` hold the trusted wrappers of `rustc-hash`'s
  `FxHashMap` and `arrayvec`'s `ArrayString` / `ArrayVec`; `text` those of a
  few `std` functions on characters and strings.

Where the input is outside the subset, every stage returns an error value
instead of panicking.

`app/main.rs` is the command-line driver: it runs the system `cpp` on the file
given as argument, compiles the result with the library and writes `out.s`.
