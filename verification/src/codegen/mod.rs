//! Syntax tree to assembly text: the builder that holds the state of a run
//! and the lowering of each kind of node.

pub mod builder;
pub mod emit;
