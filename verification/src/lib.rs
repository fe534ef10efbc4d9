#![verifier::loop_isolation(false)]
//! A propositional-logic theorem rewriter.
//!
//! Given a knowledge base of equivalence and implication axioms and a list of
//! conjectures, the library searches for a chain of rewrites transforming one
//! side of each conjecture into the other and returns that chain as a witness.
//!
//! The crate is organised leaves first: a name interner and an operator
//! registry back the expression algebra; a one-sided unifier and substitutor
//! drive rule application; a best-first search engine expands expressions by
//! every rule at every position and reconstructs the proof path; and an
//! s-expression scanner, parser and printer form the surface syntax.

pub mod ast;
pub mod cst;
pub mod emit;
pub mod interner;
pub mod measure;
pub mod parser;
pub mod registry;
pub mod rewriter;
pub mod scanner;
pub mod sexp_fol;
pub mod truth_table;
pub mod unify;
