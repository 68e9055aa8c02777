# al_bytecode

The bytecode layer of the AL compiler as a Verus library: the instruction set,
code generation, the analysis of a module's declarations, the loading of imported
modules, incremental checking, and the passes over emitted code.

- `src/` holds the library. `state.rs` models the compiler's state as a
  mathematical value, `gen.rs` and `decls.rs` say what each form of the syntax tree
  and each pass does to it, and the other modules hold the executable code, proved
  to do just that.
- Types are inferred before a tree comes here. A tree carries what inference found: the
  types that code generation needs, what a match leaves uncovered, the arms that never
  run, and the faults where types do not fit (`TypeFault`). The library puts these in
  their place among its own reports, and a program with a fault does not succeed. That
  a tree carries all of it, and that what it carries is right, is a condition on the
  input: nothing here infers a type.
- What holds of compiling as a whole stands in the functions whose names begin with
  `law_`. `laws.rs` and `quiet.rs`: an expression leaves the scope as it was, its jumps
  land in its own code, nothing that was reported or produced is taken back, checking
  produces nothing, and loaded modules stand. `nesting.rs`: whatever is bound in a scope
  is undone where it ends. `muting/modules.rs`: a check and a compilation of one program
  say the same. `session.rs`, `again.rs` and `repeat.rs`: a run is undone by winding
  back, unchanged modules are not compiled again, and a check that is repeated says the
  same. `native.rs`: what is published is found. The proofs go through `scopes.rs`,
  `pieces.rs` and `balance/` for scopes, `landing/` for jumps, `growth.rs` for what is
  added to, `frames/` for what is left as it was, and `muting/` for what does not depend
  on the output.
- `tests/` runs it.
- `app/` is what it needs of the machine: the environment, files and shared tables.
