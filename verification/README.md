# mainstage_core

The core of the Mainstage scripting toolchain, written in Verus. The functions in
`src/` carry contracts that the verifier proves; the few calls into std that vstd
does not specify sit behind small trusted wrappers whose doc comments say what they
assume.

## Layout

- `src/acyclic/` — a directed graph of named nodes with structural and data edges:
  topological order (Kahn), cycle detection, reachability from an entry node, DOT
  export and a compact index form.
- `src/ast/` — syntax tree nodes, their kinds and the parse-level errors.
- `src/analyzers/` — semantic analysis: inferred kinds and their unification, a
  scoped symbol table, per-statement checks and the diagnostics they produce.
- `src/ir/` — the register IR: values, instructions, the module with its labels and
  relocations, the arena of lexical scopes, metadata over slots, the optimization
  passes (constant folding, SCCP, constant propagation of locals stored once, copy
  propagation, CSE, DCE), each with a contract stating exactly what it rewrites, the
  pipeline that runs passes round after round, and the default pipeline, whose
  contract composes the passes' contracts, plus the module-level optimizer (constant folding
  over locals and removal of no-op jumps with reindexing).
- `src/codegen/` — the lowered function form, the module's constant pool and
  function index, and the lowering context with its frames and scope regions.
- `src/disasm.rs`, `src/listing.rs` — decoding of the bytecode container and the
  text listing.
- `src/imports.rs` — `import "module" as alias` lines of a script.
- `src/output.rs` — progress bars, spinners and boxed text layout.
- `src/diagnostic.rs`, `src/location.rs`, `src/error.rs` — error levels, source
  locations and report text.
- `app/` — the command-line program: argument parsing, file I/O, logging and
  terminal styling around the library.
- `tests/` — tests of the library on concrete values.
