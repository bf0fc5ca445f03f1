//! A small compiler for the sac language: a combinator parser front end that
//! builds a syntax tree, and a code generator that lowers the tree to ARM32
//! assembly text.

pub mod codegen;
pub mod compiler;
pub mod frontend;
pub mod text;
