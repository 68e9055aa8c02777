//! Compiling an expression leaves the scope as it was; a statement or a pattern adds
//! names to the innermost block at most.
pub mod calls;
pub mod checks;
pub mod exprs;
pub mod matches;
pub mod patterns;
pub mod recover;
pub mod segments;
pub mod statements;
