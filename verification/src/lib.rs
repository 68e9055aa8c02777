//! Bytecode layer of the AL compiler: instruction set, code emission, scoping,
//! declaration analysis and the passes that run over an emitted program.
//!
//! Every function states its result in its contract.
use vstd::prelude::*;

pub mod abi;
pub mod again;
pub mod analysis;
pub mod arms;
pub mod arrays;
pub mod ast;
pub mod balance;
pub mod binaries;
pub mod binders;
pub mod binop;
pub mod bits;
pub mod boot;
pub mod bridges;
pub mod calls;
pub mod decls;
pub mod diag;
pub mod entry;
pub mod evaluation;
pub mod exprs;
pub mod faults;
pub mod fitting;
pub mod frames;
pub mod fusion;
pub mod gen;
pub mod graph;
pub mod growth;
pub mod hydrate;
pub mod imports;
pub mod landing;
pub mod laws;
pub mod literal;
pub mod loader;
pub mod machine;
pub mod matches;
pub mod muting;
pub mod names;
pub mod native;
pub mod naming;
pub mod nesting;
pub mod numbers;
pub mod op;
pub mod order;
pub mod patterns;
pub mod peephole;
pub mod pieces;
pub mod prelude_bindings;
pub mod quiet;
pub mod reading;
pub mod recover;
pub mod refs;
pub mod repeat;
pub mod running;
pub mod scopes;
pub mod segments;
pub mod session;
pub mod shadows;
pub mod shapes;
pub mod slots;
pub mod state;
pub mod statements;
pub mod steps;
pub mod tables;
pub mod values;
pub mod walk;
pub mod workspace;

verus! {

} // verus!
