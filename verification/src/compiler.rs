//! The whole pipeline: source text in, assembly listing out.

use crate::codegen::builder::{Builder, BuilderView, CodegenError, Fault};
use crate::codegen::emit::emit;
use crate::frontend::ast::Tree;
use crate::frontend::sac_grammar::{program, skip_ignored};
use crate::frontend::sac_parser::{ignored, sac_parser};
use vstd::prelude::*;

verus! {

/// Why a source text has no listing.
#[derive(Debug, PartialEq, Eq)]
pub enum CompileError {
    /// The text from `at` on is no statement.
    Syntax { at: String },
    /// The program cannot be lowered.
    Codegen { error: CodegenError },
}

/// The mathematical value of a [`CompileError`].
pub enum Failure {
    Syntax { at: Seq<char> },
    Codegen { fault: Fault },
}

impl View for CompileError {
    type V = Failure;

    open spec fn view(&self) -> Failure {
        match self {
            CompileError::Syntax { at } => Failure::Syntax { at: at@ },
            CompileError::Codegen { error } => Failure::Codegen { fault: error@ },
        }
    }
}

/// The listing of a source text, or why it has none. The text has to be
/// statements from start to end, but for whitespace and comments after the
/// last one; and emitting them into a new builder must end without a fault.
pub open spec fn compiled(path: Seq<char>, source: Seq<char>) -> Result<Seq<char>, Failure> {
    let (tree, rest) = program(source);
    let left = skip_ignored(rest);
    if left.len() > 0 {
        Err(Failure::Syntax { at: left })
    } else {
        let emitted = emit(tree, BuilderView::new(path));
        match emitted.fault {
            Some(fault) => Err(Failure::Codegen { fault }),
            None => Ok(emitted.builder.assembly()),
        }
    }
}

/// The value of the result of [`compile`].
pub open spec fn result_view(r: Result<String, CompileError>) -> Result<Seq<char>, Failure> {
    match r {
        Ok(text) => Ok(text@),
        Err(e) => Err(e@),
    }
}

/// Compiles the source text of the file `path` to an assembly listing.
/// There is the whole listing or none.
pub fn compile(path: String, source: &str) -> (r: Result<String, CompileError>)
    ensures
        result_view(r) == compiled(path@, source@),
{
    let (rest, tree) = match sac_parser(source) {
        Ok(found) => found,
        Err(at) => {
            return Err(CompileError::Syntax { at: String::from_str(at) });
        },
    };
    let left = match ignored(rest) {
        Ok((left, _)) => left,
        Err(at) => at,
    };
    if !left.is_empty() {
        return Err(CompileError::Syntax { at: String::from_str(left) });
    }
    let mut builder = Builder::n(path);
    match tree.emit_arm32(&mut builder) {
        Ok(_) => Ok(builder.assembly()),
        Err(error) => Err(CompileError::Codegen { error }),
    }
}

} // verus!
