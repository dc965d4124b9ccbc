//! A compiler for a two-dimensional, reversible stack language.
//!
//! A program is a rectangular grid of glyphs. An instruction pointer walks the
//! grid in one of four directions, and may run in "inverse mode", where each
//! instruction is replaced by its dual. The compiler lexes the grid, splits
//! the reachable control flow into basic blocks keyed by
//! (position, direction, inverse mode), and lowers each block to a procedure
//! that manipulates two bounded stacks.

pub mod position;
pub mod grid;
pub mod text;
pub mod error;
pub mod lexer;
pub mod graph;
pub mod machine;
pub mod codegen;
