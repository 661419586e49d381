# skeplib (verified)

The compiler library of the Skepa language, written in Verus: the
functions under `src/` carry contracts that Verus proves. The exceptions
are a few small wrappers of std marked `#[verifier::external_body]`, whose
contracts Verus takes on trust: `String::from_utf8` with the text of its
error, `std::path::MAIN_SEPARATOR`, and the `Path` reading of a module's
file path (extension, components, display, copy).

- `src/ir/`: the intermediate representation, its verifier (unique ids,
  existing targets, and agreeing declared types), its optimizer
  passes (constant folding, strength reduction, dead code and dead stores,
  CFG and loop simplification, loop-invariant hoisting), and the interpreter's
  error texts.
- `src/codegen/`: LLVM text emission for IR instructions, runtime calls,
  string literals and value naming, and the arguments of the native link.
- `src/bytecode/`: the stack machine's bytecode, its byte format (writer,
  reader, and the proof that reading gives back what was written), and the
  peephole rewrites of compiled modules.
- `src/resolver/`: modules and their import graph, import targets, module
  ids, and import cycle detection.
- `src/sema.rs`: the format string check of the semantic analysis.
- `src/text.rs`: text helpers shared by the above.
- `app/`: what touches the file system or runs tools, and `std::fmt` forms.
- `tests/`: the tests, run against the compiled library.

## Scope

- The optimizer runs five passes: constant folding, dead code elimination,
  control-flow simplification, loop-invariant code motion and strength
  reduction. It has no copy propagation and no inlining.
- The bytecode peephole pass drops jumps to the next instruction and
  rewrites direct calls; the instruction set has no fused instructions, so
  nothing is fused.
- Not in this library: the parser, the type checker, lowering from source
  to IR, the bytecode compiler, the analysis of a project's exports, and
  the IR interpreter, which runs on the runtime's values and builtins. The
  `skepac` commands that build on these (`check`, `run`, `build` from
  source) are therefore not here either.
- A folder import's modules: `app/` walks the folder; for each file,
  `resolver::folder_module_entry` decides whether it is a module and what
  its id is.
