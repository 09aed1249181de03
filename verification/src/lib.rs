//! A fail-fast tree-walking evaluator for a small imperative scripting
//! language — numeric and string literals, variables, arithmetic and
//! comparison expressions, `print`, comments, blocks, named procedures
//! and conditionals — together with its lexer and parser.
//!
//! The heart of the crate is the pair of `semantics` and `eval`:
//! `semantics` defines the language as mathematics — a value resolver
//! and a statement executor over abstract syntax, abstract state and a
//! table of numeric results — and `eval` is the executable interpreter,
//! proved equal to those definitions. `laws` states and proves the
//! evaluator's general properties once for all inputs.
//!
//! Arithmetic and ordering on numbers follow the host's double
//! semantics, which this library does not compute itself: when the
//! `NumTable` lacks a needed result, `Interpreter::interpret` returns a
//! `NeedNum` outcome naming the operation; the caller computes it,
//! records it, and runs the program again. The `lemma_run_stable` law
//! shows that recording more results never changes a run that did not
//! stop for one. Procedure calls spend a caller-supplied budget, since
//! the language permits unbounded recursion.

pub mod ast;
pub mod env;
pub mod eval;
pub mod laws;
pub mod lexer;
pub mod parser;
pub mod semantics;
pub mod table;
pub mod text;
