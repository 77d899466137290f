//! Semantic core of a VHDL compiler front end: an on-demand, memoizing
//! query engine (the "scoreboard") that turns a syntax tree into resolved
//! semantic artifacts -- HIR nodes, lexical scopes, and name-to-definition
//! tables -- while detecting and reporting duplicate and unresolved
//! declarations.
//!
//! Semantic nodes live in append-only arenas for the whole compilation run
//! and refer to one another exclusively through typed identifiers, so that
//! cyclic and forward references are expressible without owning references.

pub mod ids;
pub mod common;
pub mod arena;
pub mod syntax;
pub mod hir;
pub mod defs;
pub mod score;
pub mod scope;
