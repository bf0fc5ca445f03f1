//! Source text to syntax tree: spans, the tree itself, the parser
//! combinators and the grammars written with them.

pub mod span;
pub mod ast;
pub mod pattern;
pub mod parser;
pub mod sac_grammar;
pub mod sac_parser;
pub mod source;
pub mod xml_grammar;
pub mod xml_parser;
pub mod parser_laws;
