//! The syntax tree of the sac language, its structural equality and the
//! span of each node.

use super::span::{Span, SpanView};
use crate::text::texts;
use vstd::prelude::*;

verus! {

/// A node of the syntax tree. Every node owns its children.
#[allow(dead_code)]
#[derive(Debug, PartialEq, Eq)]
pub enum AST {
    Number { num: i32, span: Span },
    Identifier { name: String, span: Span },
    StrLiteral { literal: String },
    Not { target: Box<AST>, span: Span },
    Equals { lhs: Box<AST>, rhs: Box<AST> },
    NEquals { lhs: Box<AST>, rhs: Box<AST> },
    Add { lhs: Box<AST>, rhs: Box<AST> },
    Subtract { lhs: Box<AST>, rhs: Box<AST> },
    Multiply { lhs: Box<AST>, rhs: Box<AST> },
    Divide { lhs: Box<AST>, rhs: Box<AST> },
    Call { called: String, args: Vec<AST>, span: Span },
    Return { value: Box<AST>, span: Span },
    Block { statements: Vec<AST>, span: Span },
    IfCond { span: Span, condition: Box<AST>, then: Box<AST>, c_else: Box<AST> },
    FunctionDef { span: Span, name: String, params: Vec<String>, body: Box<AST> },
    Variable { span: Span, name: String, value: Box<AST> },
    Assignment { span: Span, name: String, value: Box<AST> },
    WhileLoop { span: Span, condition: Box<AST>, body: Box<AST> },
    Error { span: Span, msg: String },
}

/// The mathematical value of an [`AST`]: the same tree over sequences and
/// unbounded integers.
pub enum Tree {
    Number { num: int, span: SpanView },
    Identifier { name: Seq<char>, span: SpanView },
    StrLiteral { literal: Seq<char> },
    Not { target: Box<Tree>, span: SpanView },
    Equals { lhs: Box<Tree>, rhs: Box<Tree> },
    NEquals { lhs: Box<Tree>, rhs: Box<Tree> },
    Add { lhs: Box<Tree>, rhs: Box<Tree> },
    Subtract { lhs: Box<Tree>, rhs: Box<Tree> },
    Multiply { lhs: Box<Tree>, rhs: Box<Tree> },
    Divide { lhs: Box<Tree>, rhs: Box<Tree> },
    Call { called: Seq<char>, args: Seq<Tree>, span: SpanView },
    Return { value: Box<Tree>, span: SpanView },
    Block { statements: Seq<Tree>, span: SpanView },
    IfCond { span: SpanView, condition: Box<Tree>, then: Box<Tree>, c_else: Box<Tree> },
    FunctionDef { span: SpanView, name: Seq<char>, params: Seq<Seq<char>>, body: Box<Tree> },
    Variable { span: SpanView, name: Seq<char>, value: Box<Tree> },
    Assignment { span: SpanView, name: Seq<char>, value: Box<Tree> },
    WhileLoop { span: SpanView, condition: Box<Tree>, body: Box<Tree> },
    Error { span: SpanView, msg: Seq<char> },
}

/// The values of a vector of nodes.
pub open spec fn trees(v: Seq<AST>) -> Seq<Tree> {
    v.map_values(|a: AST| a@)
}

impl AST {
    /// The value of this node; `@` gives the same.
    pub open spec fn tree(&self) -> Tree
        decreases self,
    {
        match self {
            AST::Number { num, span } => Tree::Number { num: *num as int, span: span@ },
            AST::Identifier { name, span } => Tree::Identifier { name: name@, span: span@ },
            AST::StrLiteral { literal } => Tree::StrLiteral { literal: literal@ },
            AST::Not { target, span } => Tree::Not { target: Box::new(target.tree()), span: span@ },
            AST::Equals { lhs, rhs } => Tree::Equals {
                lhs: Box::new(lhs.tree()),
                rhs: Box::new(rhs.tree()),
            },
            AST::NEquals { lhs, rhs } => Tree::NEquals {
                lhs: Box::new(lhs.tree()),
                rhs: Box::new(rhs.tree()),
            },
            AST::Add { lhs, rhs } => Tree::Add {
                lhs: Box::new(lhs.tree()),
                rhs: Box::new(rhs.tree()),
            },
            AST::Subtract { lhs, rhs } => Tree::Subtract {
                lhs: Box::new(lhs.tree()),
                rhs: Box::new(rhs.tree()),
            },
            AST::Multiply { lhs, rhs } => Tree::Multiply {
                lhs: Box::new(lhs.tree()),
                rhs: Box::new(rhs.tree()),
            },
            AST::Divide { lhs, rhs } => Tree::Divide {
                lhs: Box::new(lhs.tree()),
                rhs: Box::new(rhs.tree()),
            },
            AST::Call { called, args, span } => Tree::Call {
                called: called@,
                args: Seq::new(
                    args.len() as nat,
                    |i: int|
                        if 0 <= i < args.len() {
                            args[i].tree()
                        } else {
                            arbitrary()
                        },
                ),
                span: span@,
            },
            AST::Return { value, span } => Tree::Return {
                value: Box::new(value.tree()),
                span: span@,
            },
            AST::Block { statements, span } => Tree::Block {
                statements: Seq::new(
                    statements.len() as nat,
                    |i: int|
                        if 0 <= i < statements.len() {
                            statements[i].tree()
                        } else {
                            arbitrary()
                        },
                ),
                span: span@,
            },
            AST::IfCond { span, condition, then, c_else } => Tree::IfCond {
                span: span@,
                condition: Box::new(condition.tree()),
                then: Box::new(then.tree()),
                c_else: Box::new(c_else.tree()),
            },
            AST::FunctionDef { span, name, params, body } => Tree::FunctionDef {
                span: span@,
                name: name@,
                params: texts(params@),
                body: Box::new(body.tree()),
            },
            AST::Variable { span, name, value } => Tree::Variable {
                span: span@,
                name: name@,
                value: Box::new(value.tree()),
            },
            AST::Assignment { span, name, value } => Tree::Assignment {
                span: span@,
                name: name@,
                value: Box::new(value.tree()),
            },
            AST::WhileLoop { span, condition, body } => Tree::WhileLoop {
                span: span@,
                condition: Box::new(condition.tree()),
                body: Box::new(body.tree()),
            },
            AST::Error { span, msg } => Tree::Error { span: span@, msg: msg@ },
        }
    }
}

impl View for AST {
    type V = Tree;

    open spec fn view(&self) -> Tree {
        self.tree()
    }
}

/// The children of a call or a block are the values of the nodes in its
/// vector, in order.
pub proof fn lemma_children(node: AST)
    ensures
        node matches AST::Call { args, .. } ==> node@->Call_args == trees(args@),
        node matches AST::Block { statements, .. } ==> node@->Block_statements == trees(
            statements@,
        ),
{
    match node {
        AST::Call { args, .. } => {
            assert(node@->Call_args =~= trees(args@));
        },
        AST::Block { statements, .. } => {
            assert(node@->Block_statements =~= trees(statements@));
        },
        _ => {},
    }
}

/// Two trees have the same content: the same kind of node, the same names
/// and numbers, and children with the same content, pairwise and in order.
/// Spans are not compared.
pub open spec fn same(a: Tree, b: Tree) -> bool
    decreases a,
{
    match (a, b) {
        (Tree::Number { num, .. }, Tree::Number { num: onum, .. }) => num == onum,
        (Tree::Identifier { name, .. }, Tree::Identifier { name: oname, .. }) => name == oname,
        (Tree::StrLiteral { literal }, Tree::StrLiteral { literal: oliteral }) => literal
            == oliteral,
        (Tree::Not { target, .. }, Tree::Not { target: otarget, .. }) => same(*target, *otarget),
        (Tree::Equals { lhs, rhs }, Tree::Equals { lhs: olhs, rhs: orhs }) => same(*lhs, *olhs)
            && same(*rhs, *orhs),
        (Tree::NEquals { lhs, rhs }, Tree::NEquals { lhs: olhs, rhs: orhs }) => same(*lhs, *olhs)
            && same(*rhs, *orhs),
        (Tree::Add { lhs, rhs }, Tree::Add { lhs: olhs, rhs: orhs }) => same(*lhs, *olhs) && same(
            *rhs,
            *orhs,
        ),
        (Tree::Subtract { lhs, rhs }, Tree::Subtract { lhs: olhs, rhs: orhs }) => same(
            *lhs,
            *olhs,
        ) && same(*rhs, *orhs),
        (Tree::Multiply { lhs, rhs }, Tree::Multiply { lhs: olhs, rhs: orhs }) => same(
            *lhs,
            *olhs,
        ) && same(*rhs, *orhs),
        (Tree::Divide { lhs, rhs }, Tree::Divide { lhs: olhs, rhs: orhs }) => same(*lhs, *olhs)
            && same(*rhs, *orhs),
        (Tree::Call { called, args, .. }, Tree::Call { called: ocalled, args: oargs, .. }) => {
            &&& called == ocalled
            &&& args.len() == oargs.len()
            &&& forall|i: int| 0 <= i < args.len() ==> same(#[trigger] args[i], oargs[i])
        },
        (Tree::Return { value, .. }, Tree::Return { value: ovalue, .. }) => same(*value, *ovalue),
        (Tree::Block { statements, .. }, Tree::Block { statements: ostatements, .. }) => {
            &&& statements.len() == ostatements.len()
            &&& forall|i: int|
                0 <= i < statements.len() ==> same(#[trigger] statements[i], ostatements[i])
        },
        (
            Tree::IfCond { condition, then, c_else, .. },
            Tree::IfCond { condition: ocondition, then: othen, c_else: oc_else, .. },
        ) => same(*condition, *ocondition) && same(*then, *othen) && same(*c_else, *oc_else),
        (
            Tree::FunctionDef { name, params, body, .. },
            Tree::FunctionDef { name: oname, params: oparams, body: obody, .. },
        ) => name == oname && params == oparams && same(*body, *obody),
        (
            Tree::Variable { name, value, .. },
            Tree::Variable { name: oname, value: ovalue, .. },
        ) => name == oname && same(*value, *ovalue),
        (
            Tree::Assignment { name, value, .. },
            Tree::Assignment { name: oname, value: ovalue, .. },
        ) => name == oname && same(*value, *ovalue),
        (
            Tree::WhileLoop { condition, body, .. },
            Tree::WhileLoop { condition: ocondition, body: obody, .. },
        ) => same(*condition, *ocondition) && same(*body, *obody),
        (Tree::Error { msg, .. }, Tree::Error { msg: omsg, .. }) => msg == omsg,
        _ => false,
    }
}

impl Tree {
    /// The span of a node. A node that carries a span has that span, except
    /// that a return's span is merged with that of its value; a binary
    /// operator has the merged spans of its operands; a string literal,
    /// which carries none, has the placeholder.
    pub open spec fn span(self) -> SpanView
        decreases self,
    {
        match self {
            Tree::Number { span, .. } => span,
            Tree::Identifier { span, .. } => span,
            Tree::StrLiteral { .. } => SpanView::dud(),
            Tree::Not { span, .. } => span,
            Tree::Equals { lhs, rhs } => lhs.span().merge(rhs.span()),
            Tree::NEquals { lhs, rhs } => lhs.span().merge(rhs.span()),
            Tree::Add { lhs, rhs } => lhs.span().merge(rhs.span()),
            Tree::Subtract { lhs, rhs } => lhs.span().merge(rhs.span()),
            Tree::Multiply { lhs, rhs } => lhs.span().merge(rhs.span()),
            Tree::Divide { lhs, rhs } => lhs.span().merge(rhs.span()),
            Tree::Call { span, .. } => span,
            Tree::Return { value, span } => span.merge(value.span()),
            Tree::Block { span, .. } => span,
            Tree::IfCond { span, .. } => span,
            Tree::FunctionDef { span, .. } => span,
            Tree::Variable { span, .. } => span,
            Tree::Assignment { span, .. } => span,
            Tree::WhileLoop { span, .. } => span,
            Tree::Error { span, .. } => span,
        }
    }
}

/// Whether two vectors hold the same strings in the same order.
fn same_names(a: &Vec<String>, b: &Vec<String>) -> (r: bool)
    ensures
        r == (texts(a@) == texts(b@)),
{
    if a.len() != b.len() {
        assert(texts(a@).len() != texts(b@).len());
        return false;
    }
    let mut i: usize = 0;
    while i < a.len()
        invariant
            i <= a.len(),
            a.len() == b.len(),
            forall|j: int| 0 <= j < i ==> a[j]@ == b[j]@,
        decreases a.len() - i,
    {
        if a[i] != b[i] {
            assert(texts(a@)[i as int] != texts(b@)[i as int]);
            return false;
        }
        i += 1;
    }
    assert(texts(a@) =~= texts(b@));
    true
}

impl AST {
    /// Structural equality: the same content, whatever the spans.
    pub fn equals(&self, other: &AST) -> (r: bool)
        ensures
            r == same(self@, other@),
        decreases self, 0nat,
    {
        match (self, other) {
            (AST::Number { num, .. }, AST::Number { num: onum, .. }) => *num == *onum,
            (AST::Identifier { name, .. }, AST::Identifier { name: oname, .. }) => *name == *oname,
            (AST::StrLiteral { literal }, AST::StrLiteral { literal: oliteral }) => *literal
                == *oliteral,
            (AST::Not { target, .. }, AST::Not { target: otarget, .. }) => target.equals(otarget),
            (AST::Equals { lhs, rhs }, AST::Equals { lhs: olhs, rhs: orhs }) => lhs.equals(olhs)
                && rhs.equals(orhs),
            (AST::NEquals { lhs, rhs }, AST::NEquals { lhs: olhs, rhs: orhs }) => lhs.equals(olhs)
                && rhs.equals(orhs),
            (AST::Add { lhs, rhs }, AST::Add { lhs: olhs, rhs: orhs }) => lhs.equals(olhs)
                && rhs.equals(orhs),
            (AST::Subtract { lhs, rhs }, AST::Subtract { lhs: olhs, rhs: orhs }) => lhs.equals(
                olhs,
            ) && rhs.equals(orhs),
            (AST::Multiply { lhs, rhs }, AST::Multiply { lhs: olhs, rhs: orhs }) => lhs.equals(
                olhs,
            ) && rhs.equals(orhs),
            (AST::Divide { lhs, rhs }, AST::Divide { lhs: olhs, rhs: orhs }) => lhs.equals(olhs)
                && rhs.equals(orhs),
            (
                AST::Call { called, args, .. },
                AST::Call { called: ocalled, args: oargs, .. },
            ) => {
                proof {
                    lemma_children(*self);
                    lemma_children(*other);
                }
                *called == *ocalled && Self::all_equal(args, oargs, 0)
            },
            (AST::Return { value, .. }, AST::Return { value: ovalue, .. }) => value.equals(ovalue),
            (
                AST::Block { statements, .. },
                AST::Block { statements: ostatements, .. },
            ) => {
                proof {
                    lemma_children(*self);
                    lemma_children(*other);
                }
                Self::all_equal(statements, ostatements, 0)
            },
            (
                AST::IfCond { condition, then, c_else, .. },
                AST::IfCond { condition: ocondition, then: othen, c_else: oc_else, .. },
            ) => condition.equals(ocondition) && then.equals(othen) && c_else.equals(oc_else),
            (
                AST::FunctionDef { name, params, body, .. },
                AST::FunctionDef { name: oname, params: oparams, body: obody, .. },
            ) => *name == *oname && same_names(params, oparams) && body.equals(obody),
            (
                AST::Variable { name, value, .. },
                AST::Variable { name: oname, value: ovalue, .. },
            ) => *name == *oname && value.equals(ovalue),
            (
                AST::Assignment { name, value, .. },
                AST::Assignment { name: oname, value: ovalue, .. },
            ) => *name == *oname && value.equals(ovalue),
            (
                AST::WhileLoop { condition, body, .. },
                AST::WhileLoop { condition: ocondition, body: obody, .. },
            ) => condition.equals(ocondition) && body.equals(obody),
            (AST::Error { msg, .. }, AST::Error { msg: omsg, .. }) => *msg == *omsg,
            _ => false,
        }
    }

    /// Whether two vectors have the same length and, from index `from` on,
    /// nodes with the same content at each index.
    fn all_equal(xs: &Vec<AST>, ys: &Vec<AST>, from: usize) -> (r: bool)
        requires
            from <= xs.len(),
        ensures
            r == (xs.len() == ys.len() && forall|i: int|
                from <= i < xs.len() ==> same(#[trigger] trees(xs@)[i], trees(ys@)[i])),
        decreases xs, xs.len() - from,
    {
        if xs.len() != ys.len() {
            false
        } else if from == xs.len() {
            true
        } else if !xs[from].equals(&ys[from]) {
            assert(!same(trees(xs@)[from as int], trees(ys@)[from as int]));
            false
        } else {
            assert(same(trees(xs@)[from as int], trees(ys@)[from as int]));
            Self::all_equal(xs, ys, from + 1)
        }
    }

    /// The span of this node.
    pub fn get_span(&self) -> (r: Span)
        ensures
            r@ == self@.span(),
        decreases self,
    {
        match self {
            AST::Number { span, .. } => span.clone(),
            AST::Identifier { span, .. } => span.clone(),
            AST::StrLiteral { .. } => Span::new_dud(),
            AST::Not { span, .. } => span.clone(),
            AST::Equals { lhs, rhs } => lhs.get_span().merge_with(&rhs.get_span()),
            AST::NEquals { lhs, rhs } => lhs.get_span().merge_with(&rhs.get_span()),
            AST::Add { lhs, rhs } => lhs.get_span().merge_with(&rhs.get_span()),
            AST::Subtract { lhs, rhs } => lhs.get_span().merge_with(&rhs.get_span()),
            AST::Multiply { lhs, rhs } => lhs.get_span().merge_with(&rhs.get_span()),
            AST::Divide { lhs, rhs } => lhs.get_span().merge_with(&rhs.get_span()),
            AST::Call { span, .. } => span.clone(),
            AST::Return { value, span } => span.merge_with(&value.get_span()),
            AST::Block { span, .. } => span.clone(),
            AST::IfCond { span, .. } => span.clone(),
            AST::FunctionDef { span, .. } => span.clone(),
            AST::Variable { span, .. } => span.clone(),
            AST::Assignment { span, .. } => span.clone(),
            AST::WhileLoop { span, .. } => span.clone(),
            AST::Error { span, .. } => span.clone(),
        }
    }
}

/// The kind of a node: which of the variants it is.
pub enum Kind {
    Number,
    Identifier,
    StrLiteral,
    Not,
    Equals,
    NEquals,
    Add,
    Subtract,
    Multiply,
    Divide,
    Call,
    Return,
    Block,
    IfCond,
    FunctionDef,
    Variable,
    Assignment,
    WhileLoop,
    Error,
}

impl Tree {
    pub open spec fn kind(self) -> Kind {
        match self {
            Tree::Number { .. } => Kind::Number,
            Tree::Identifier { .. } => Kind::Identifier,
            Tree::StrLiteral { .. } => Kind::StrLiteral,
            Tree::Not { .. } => Kind::Not,
            Tree::Equals { .. } => Kind::Equals,
            Tree::NEquals { .. } => Kind::NEquals,
            Tree::Add { .. } => Kind::Add,
            Tree::Subtract { .. } => Kind::Subtract,
            Tree::Multiply { .. } => Kind::Multiply,
            Tree::Divide { .. } => Kind::Divide,
            Tree::Call { .. } => Kind::Call,
            Tree::Return { .. } => Kind::Return,
            Tree::Block { .. } => Kind::Block,
            Tree::IfCond { .. } => Kind::IfCond,
            Tree::FunctionDef { .. } => Kind::FunctionDef,
            Tree::Variable { .. } => Kind::Variable,
            Tree::Assignment { .. } => Kind::Assignment,
            Tree::WhileLoop { .. } => Kind::WhileLoop,
            Tree::Error { .. } => Kind::Error,
        }
    }

    /// The tree with every span in it replaced by the placeholder: what is
    /// left is the content alone.
    pub open spec fn erased(self) -> Tree
        decreases self,
    {
        let dud = SpanView::dud();
        match self {
            Tree::Number { num, .. } => Tree::Number { num, span: dud },
            Tree::Identifier { name, .. } => Tree::Identifier { name, span: dud },
            Tree::StrLiteral { literal } => Tree::StrLiteral { literal },
            Tree::Not { target, .. } => Tree::Not { target: Box::new(target.erased()), span: dud },
            Tree::Equals { lhs, rhs } => Tree::Equals {
                lhs: Box::new(lhs.erased()),
                rhs: Box::new(rhs.erased()),
            },
            Tree::NEquals { lhs, rhs } => Tree::NEquals {
                lhs: Box::new(lhs.erased()),
                rhs: Box::new(rhs.erased()),
            },
            Tree::Add { lhs, rhs } => Tree::Add {
                lhs: Box::new(lhs.erased()),
                rhs: Box::new(rhs.erased()),
            },
            Tree::Subtract { lhs, rhs } => Tree::Subtract {
                lhs: Box::new(lhs.erased()),
                rhs: Box::new(rhs.erased()),
            },
            Tree::Multiply { lhs, rhs } => Tree::Multiply {
                lhs: Box::new(lhs.erased()),
                rhs: Box::new(rhs.erased()),
            },
            Tree::Divide { lhs, rhs } => Tree::Divide {
                lhs: Box::new(lhs.erased()),
                rhs: Box::new(rhs.erased()),
            },
            Tree::Call { called, args, .. } => Tree::Call {
                called,
                args: Seq::new(
                    args.len(),
                    |i: int|
                        if 0 <= i < args.len() {
                            args[i].erased()
                        } else {
                            arbitrary()
                        },
                ),
                span: dud,
            },
            Tree::Return { value, .. } => Tree::Return {
                value: Box::new(value.erased()),
                span: dud,
            },
            Tree::Block { statements, .. } => Tree::Block {
                statements: Seq::new(
                    statements.len(),
                    |i: int|
                        if 0 <= i < statements.len() {
                            statements[i].erased()
                        } else {
                            arbitrary()
                        },
                ),
                span: dud,
            },
            Tree::IfCond { condition, then, c_else, .. } => Tree::IfCond {
                span: dud,
                condition: Box::new(condition.erased()),
                then: Box::new(then.erased()),
                c_else: Box::new(c_else.erased()),
            },
            Tree::FunctionDef { name, params, body, .. } => Tree::FunctionDef {
                span: dud,
                name,
                params,
                body: Box::new(body.erased()),
            },
            Tree::Variable { name, value, .. } => Tree::Variable {
                span: dud,
                name,
                value: Box::new(value.erased()),
            },
            Tree::Assignment { name, value, .. } => Tree::Assignment {
                span: dud,
                name,
                value: Box::new(value.erased()),
            },
            Tree::WhileLoop { condition, body, .. } => Tree::WhileLoop {
                span: dud,
                condition: Box::new(condition.erased()),
                body: Box::new(body.erased()),
            },
            Tree::Error { msg, .. } => Tree::Error { span: dud, msg },
        }
    }
}

/// Structural equality compares exactly what is left of two trees once
/// their spans are taken out.
pub proof fn lemma_same_ignores_spans(a: Tree, b: Tree)
    ensures
        same(a, b) <==> a.erased() == b.erased(),
    decreases a,
{
    match (a, b) {
        (Tree::Not { target, .. }, Tree::Not { target: otarget, .. }) => {
            lemma_same_ignores_spans(*target, *otarget);
        },
        (Tree::Equals { lhs, rhs }, Tree::Equals { lhs: olhs, rhs: orhs }) => {
            lemma_same_ignores_spans(*lhs, *olhs);
            lemma_same_ignores_spans(*rhs, *orhs);
        },
        (Tree::NEquals { lhs, rhs }, Tree::NEquals { lhs: olhs, rhs: orhs }) => {
            lemma_same_ignores_spans(*lhs, *olhs);
            lemma_same_ignores_spans(*rhs, *orhs);
        },
        (Tree::Add { lhs, rhs }, Tree::Add { lhs: olhs, rhs: orhs }) => {
            lemma_same_ignores_spans(*lhs, *olhs);
            lemma_same_ignores_spans(*rhs, *orhs);
        },
        (Tree::Subtract { lhs, rhs }, Tree::Subtract { lhs: olhs, rhs: orhs }) => {
            lemma_same_ignores_spans(*lhs, *olhs);
            lemma_same_ignores_spans(*rhs, *orhs);
        },
        (Tree::Multiply { lhs, rhs }, Tree::Multiply { lhs: olhs, rhs: orhs }) => {
            lemma_same_ignores_spans(*lhs, *olhs);
            lemma_same_ignores_spans(*rhs, *orhs);
        },
        (Tree::Divide { lhs, rhs }, Tree::Divide { lhs: olhs, rhs: orhs }) => {
            lemma_same_ignores_spans(*lhs, *olhs);
            lemma_same_ignores_spans(*rhs, *orhs);
        },
        (Tree::Call { args, .. }, Tree::Call { args: oargs, .. }) => {
            lemma_same_children(args, oargs, a.erased()->Call_args, b.erased()->Call_args);
        },
        (Tree::Return { value, .. }, Tree::Return { value: ovalue, .. }) => {
            lemma_same_ignores_spans(*value, *ovalue);
        },
        (Tree::Block { statements, .. }, Tree::Block { statements: ostatements, .. }) => {
            lemma_same_children(
                statements,
                ostatements,
                a.erased()->Block_statements,
                b.erased()->Block_statements,
            );
        },
        (
            Tree::IfCond { condition, then, c_else, .. },
            Tree::IfCond { condition: ocondition, then: othen, c_else: oc_else, .. },
        ) => {
            lemma_same_ignores_spans(*condition, *ocondition);
            lemma_same_ignores_spans(*then, *othen);
            lemma_same_ignores_spans(*c_else, *oc_else);
        },
        (Tree::FunctionDef { body, .. }, Tree::FunctionDef { body: obody, .. }) => {
            lemma_same_ignores_spans(*body, *obody);
        },
        (Tree::Variable { value, .. }, Tree::Variable { value: ovalue, .. }) => {
            lemma_same_ignores_spans(*value, *ovalue);
        },
        (Tree::Assignment { value, .. }, Tree::Assignment { value: ovalue, .. }) => {
            lemma_same_ignores_spans(*value, *ovalue);
        },
        (Tree::WhileLoop { condition, body, .. }, Tree::WhileLoop { condition: ocondition, body: obody, .. }) => {
            lemma_same_ignores_spans(*condition, *ocondition);
            lemma_same_ignores_spans(*body, *obody);
        },
        _ => {},
    }
}

/// The step of [`lemma_same_ignores_spans`] for the children of a call or a
/// block: `ex` and `ey` are the children `xs` and `ys` without their spans.
proof fn lemma_same_children(xs: Seq<Tree>, ys: Seq<Tree>, ex: Seq<Tree>, ey: Seq<Tree>)
    requires
        ex.len() == xs.len(),
        ey.len() == ys.len(),
        forall|i: int| 0 <= i < xs.len() ==> ex[i] == (#[trigger] xs[i]).erased(),
        forall|i: int| 0 <= i < ys.len() ==> ey[i] == (#[trigger] ys[i]).erased(),
    ensures
        (xs.len() == ys.len() && forall|i: int|
            0 <= i < xs.len() ==> same(#[trigger] xs[i], ys[i])) <==> ex == ey,
    decreases xs,
{
    if xs.len() == ys.len() {
        assert forall|i: int| 0 <= i < xs.len() implies (same(#[trigger] xs[i], ys[i]) <==> ex[i]
            == ey[i]) by {
            lemma_same_ignores_spans(xs[i], ys[i]);
        }
        if forall|i: int| 0 <= i < xs.len() ==> same(#[trigger] xs[i], ys[i]) {
            assert forall|i: int| 0 <= i < ex.len() implies ex[i] == ey[i] by {
                assert(same(xs[i], ys[i]));
            }
            assert(ex =~= ey);
        }
    }
}

/// Every tree has the same content as itself.
pub proof fn lemma_same_reflexive(a: Tree)
    ensures
        same(a, a),
{
    lemma_same_ignores_spans(a, a);
}

/// Structural equality does not depend on the order of its arguments.
pub proof fn lemma_same_symmetric(a: Tree, b: Tree)
    ensures
        same(a, b) == same(b, a),
{
    lemma_same_ignores_spans(a, b);
    lemma_same_ignores_spans(b, a);
}

/// Trees with the same content as a third have the same content.
pub proof fn lemma_same_transitive(a: Tree, b: Tree, c: Tree)
    requires
        same(a, b),
        same(b, c),
    ensures
        same(a, c),
{
    lemma_same_ignores_spans(a, b);
    lemma_same_ignores_spans(b, c);
    lemma_same_ignores_spans(a, c);
}

/// Nodes of different kinds never have the same content.
pub proof fn lemma_same_needs_same_kind(a: Tree, b: Tree)
    requires
        a.kind() != b.kind(),
    ensures
        !same(a, b),
{
}

} // verus!
