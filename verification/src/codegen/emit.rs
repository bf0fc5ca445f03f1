//! The lowering of each kind of node to ARM32 assembly.
//!
//! Every expression leaves its value in `r0`. A binary operator saves its
//! left operand on the stack while the right one is computed. A call passes
//! up to four arguments in `r0` to `r3`.

use super::builder::{
    interned_label, lemma_intern_twice, Builder, BuilderView, CodegenError, Fault,
};
use crate::frontend::ast::{lemma_children, trees, Tree, AST};
use crate::text::{decimal, decimal_string};
use vstd::prelude::*;

verus! {

/// What emitting a node leaves behind: the state of the builder, and the
/// fault that ended the run if one did.
pub struct Emitted {
    pub builder: BuilderView,
    pub fault: Option<Fault>,
}

impl Emitted {
    pub open spec fn ok(builder: BuilderView) -> Emitted {
        Emitted { builder, fault: None }
    }

    pub open spec fn failed(builder: BuilderView, fault: Fault) -> Emitted {
        Emitted { builder, fault: Some(fault) }
    }

    /// Appends a line, unless a fault came before.
    pub open spec fn line(self, line: Seq<char>) -> Emitted {
        if self.fault is Some {
            self
        } else {
            Emitted::ok(self.builder.add(line))
        }
    }

    /// Goes on with `next`, which starts from the builder of `self`, unless
    /// a fault came before.
    pub open spec fn followed_by(self, next: Emitted) -> Emitted {
        if self.fault is Some {
            self
        } else {
            next
        }
    }
}

/// The fault of a result, if it is an error.
pub open spec fn fault_of(r: Result<(), CodegenError>) -> Option<Fault> {
    match r {
        Ok(_) => None,
        Err(e) => Some(e@),
    }
}

/// The line that pushes the incoming argument registers of a function with
/// `count` parameters; with an odd count the frame pointer pads the stack
/// to eight bytes.
pub open spec fn push_params(count: nat) -> Option<Seq<char>> {
    if count == 1 {
        Some("  push {r0, fp}"@)
    } else if count == 2 {
        Some("  push {r0, r1}"@)
    } else if count == 3 {
        Some("  push {r0, r1, r2, fp}"@)
    } else if count == 4 {
        Some("  push {r0, r1, r2, r3}"@)
    } else {
        None
    }
}

/// The statements from index `from` on, in order, up to the first fault.
pub open spec fn emit_statements(items: Seq<Tree>, from: int, b: BuilderView) -> Emitted
    decreases items, items.len() - from,
{
    if 0 <= from < items.len() {
        let first = emit(items[from], b);
        if first.fault is Some {
            first
        } else {
            emit_statements(items, from + 1, first.builder)
        }
    } else {
        Emitted::ok(b)
    }
}

/// The arguments of a call from index `from` on: each is computed and
/// stored in its own slot of the stack.
pub open spec fn emit_args(args: Seq<Tree>, from: int, b: BuilderView) -> Emitted
    decreases args, args.len() - from,
{
    if 0 <= from < args.len() {
        let first = emit(args[from], b).line("  str r0, [sp, #"@ + decimal(4 * from) + "]"@);
        if first.fault is Some {
            first
        } else {
            emit_args(args, from + 1, first.builder)
        }
    } else {
        Emitted::ok(b)
    }
}

/// The code that computes both operands of a binary operator: the left one
/// is computed and saved on the stack, the right one is computed into `r0`,
/// the left one is restored into `r1`.
pub open spec fn operand_code(lhs: Emitted, rhs: Emitted) -> Emitted {
    lhs.line("  push {r0, ip}"@).followed_by(rhs).line("  pop {r1, ip}"@)
}

/// The builder as the right operand of a binary operator finds it: after
/// the left operand and its push.
pub open spec fn after_lhs(lhs: Emitted) -> BuilderView {
    lhs.builder.add("  push {r0, ip}"@)
}

/// The assembly of a node, appended to what the builder holds.
pub open spec fn emit(node: Tree, b: BuilderView) -> Emitted
    decreases node, 0nat,
{
    match node {
        Tree::Block { statements, .. } => emit_statements(statements, 0, b),
        Tree::Not { target, .. } => emit(*target, b).line("  cmp r0, #0"@).line(
            "  moveq r0, #1"@,
        ).line("  movne r0, #0"@),
        Tree::Add { lhs, rhs } => {
            let left = emit(*lhs, b);
            operand_code(left, emit(*rhs, after_lhs(left))).line("  add r0, r0, r1"@)
        },
        Tree::Subtract { lhs, rhs } => {
            let left = emit(*lhs, b);
            operand_code(left, emit(*rhs, after_lhs(left))).line("  sub r0, r1, r0"@)
        },
        Tree::Multiply { lhs, rhs } => {
            let left = emit(*lhs, b);
            operand_code(left, emit(*rhs, after_lhs(left))).line("  mul r2, r0, r1"@).line(
                "  mov r0, r2"@,
            )
        },
        Tree::Divide { lhs, rhs } => {
            let left = emit(*lhs, b);
            operand_code(left, emit(*rhs, after_lhs(left))).line("  udiv r0, r1, r0"@)
        },
        Tree::Equals { lhs, rhs } => {
            let left = emit(*lhs, b);
            operand_code(left, emit(*rhs, after_lhs(left))).line("  cmp r0, r1"@).line(
                "  moveq r0, #1"@,
            ).line("  movne r0, #0"@)
        },
        Tree::NEquals { lhs, rhs } => {
            let left = emit(*lhs, b);
            operand_code(left, emit(*rhs, after_lhs(left))).line("  cmp r0, r1"@).line(
                "  moveq r0, #0"@,
            ).line("  movne r0, #1"@)
        },
        Tree::Number { num, .. } => Emitted::ok(b.add("  ldr r0, ="@ + decimal(num))),
        Tree::StrLiteral { literal } => {
            if interned_label(b.interned, literal) is None && b.interned.len() >= i32::MAX {
                Emitted::failed(b, Fault::OutOfLabels)
            } else {
                let (interned, label) = b.intern(literal);
                Emitted::ok(interned.add("  ldr r0, ="@ + label.text()))
            }
        },
        Tree::Call { called, args, .. } => {
            let branch = "  bl "@ + called;
            if args.len() == 0 {
                Emitted::ok(b.add(branch))
            } else if args.len() == 1 {
                emit(args[0], b).line(branch)
            } else if args.len() <= 4 {
                emit_args(args, 0, b.add("  sub sp, sp, #"@ + decimal(4 * args.len() as int))).line(
                    "  pop {r0, r1, r2, r3}"@,
                ).line(branch)
            } else {
                Emitted::failed(b, Fault::TooManyArguments)
            }
        },
        Tree::IfCond { condition, then, c_else, .. } => {
            if b.next_label + 2 > i32::MAX {
                Emitted::failed(b, Fault::OutOfLabels)
            } else {
                let (b1, if_false) = b.new_label();
                let (b2, end_if) = b1.new_label();
                let test = emit(*condition, b2).line("  cmp r0, #0"@).line(
                    "  beq "@ + if_false.text(),
                );
                let taken = test.followed_by(emit(*then, test.builder)).line("  b "@ + end_if.text()).line(
                    if_false.text() + ":"@,
                );
                taken.followed_by(emit(*c_else, taken.builder)).line(end_if.text() + ":"@)
            }
        },
        Tree::WhileLoop { condition, body, .. } => {
            if b.next_label + 2 > i32::MAX {
                Emitted::failed(b, Fault::OutOfLabels)
            } else {
                let (b1, head) = b.new_label();
                let (b2, done) = b1.new_label();
                let test = emit(*condition, b2.add(head.text() + ":"@)).line("  cmp r0, #0"@).line(
                    "  beq "@ + done.text(),
                );
                test.followed_by(emit(*body, test.builder)).line("  b "@ + head.text()).line(
                    done.text() + ":"@,
                )
            }
        },
        Tree::FunctionDef { name, params, body, .. } => {
            if params.len() > 4 {
                Emitted::failed(b, Fault::TooManyParameters)
            } else {
                let entered = b.add(Seq::empty()).add(".global "@ + name).add(name + ":"@).add(
                    "  push {fp, lr}"@,
                ).add("  mov fp, sp"@).enter().set_up_env(params);
                let prologue = match push_params(params.len()) {
                    Some(push) => entered.add(push),
                    None => entered,
                };
                let done = emit(*body, prologue).line("  mov sp, fp"@).line("  mov r0, #0"@).line(
                    "  pop {fp, pc}"@,
                );
                if done.fault is Some {
                    done
                } else if done.builder.scopes.len() > 1 {
                    Emitted::ok(done.builder.exit())
                } else {
                    Emitted::failed(done.builder, Fault::OrphanedScope)
                }
            }
        },
        Tree::Identifier { name, .. } => match b.resolve(name) {
            Some(offset) => Emitted::ok(b.add("  ldr r0, #"@ + decimal(offset))),
            None => Emitted::failed(b, Fault::UndefinedVariable { name }),
        },
        Tree::Return { value, .. } => emit(*value, b).line("  mov sp, fp"@).line(
            "  pop {fp, pc}"@,
        ),
        Tree::Variable { name, value, .. } => {
            let computed = emit(*value, b);
            if computed.fault is Some {
                computed
            } else if computed.builder.scopes[0].next_local_offset - 4 < i32::MIN {
                Emitted::failed(computed.builder, Fault::FrameTooLarge)
            } else {
                Emitted::ok(computed.builder.add("  push {r0, ip}"@).set(name))
            }
        },
        Tree::Assignment { name, value, .. } => {
            let computed = emit(*value, b);
            if computed.fault is Some {
                computed
            } else {
                match computed.builder.resolve(name) {
                    Some(offset) => Emitted::ok(
                        computed.builder.add("  str r0, #"@ + decimal(offset)),
                    ),
                    None => Emitted::failed(
                        computed.builder,
                        Fault::UndefinedVariable { name },
                    ),
                }
            }
        },
        Tree::Error { .. } => Emitted::failed(b, Fault::Unimplemented),
    }
}

/// A call with more than four arguments fails before anything is emitted,
/// whatever the arguments are; a function with more than four parameters
/// likewise.
pub proof fn lemma_arity_limit(node: Tree, b: BuilderView)
    ensures
        node matches Tree::Call { args, .. } && args.len() > 4 ==> emit(node, b)
            == Emitted::failed(b, Fault::TooManyArguments),
        node matches Tree::FunctionDef { params, .. } && params.len() > 4 ==> emit(node, b)
            == Emitted::failed(b, Fault::TooManyParameters),
{
}

/// The builder `after` is the builder `before` with more emitted: the same
/// source, the lines, the interned strings and the scopes of before and
/// maybe more, and a label counter that is no less.
pub open spec fn grown(before: BuilderView, after: BuilderView) -> bool {
    &&& after.src == before.src
    &&& before.lines.is_prefix_of(after.lines)
    &&& before.interned.is_prefix_of(after.interned)
    &&& before.next_label <= after.next_label
    &&& 1 <= before.scopes.len() <= after.scopes.len()
}

/// What was emitted starts from `before`, only adds to it, and where it
/// ended without a fault is back in the scope in which it started.
pub open spec fn balanced(before: BuilderView, emitted: Emitted) -> bool {
    &&& grown(before, emitted.builder)
    &&& emitted.fault is None ==> emitted.builder.scopes.len() == before.scopes.len()
    &&& emitted.fault != Some(Fault::OrphanedScope)
}

proof fn lemma_line(before: BuilderView, emitted: Emitted, line: Seq<char>)
    requires
        balanced(before, emitted),
    ensures
        balanced(before, emitted.line(line)),
{
}

proof fn lemma_followed_by(before: BuilderView, first: Emitted, next: Emitted)
    requires
        balanced(before, first),
        first.fault is None ==> balanced(first.builder, next),
    ensures
        balanced(before, first.followed_by(next)),
{
}

proof fn lemma_operand_code(node: Tree, b: BuilderView)
    requires
        is_binary(node),
        b.scopes.len() >= 1,
    ensures
        ({
            let left = emit(operands(node).0, b);
            balanced(b, operand_code(left, emit(operands(node).1, after_lhs(left))))
        }),
    decreases node, 0nat,
{
    let left = emit(operands(node).0, b);
    lemma_emit_balanced(operands(node).0, b);
    let pushed = left.line("  push {r0, ip}"@);
    lemma_line(b, left, "  push {r0, ip}"@);
    if left.fault is None {
        lemma_emit_balanced(operands(node).1, after_lhs(left));
    }
    let right = emit(operands(node).1, after_lhs(left));
    lemma_followed_by(b, pushed, right);
}

proof fn lemma_statements_balanced(items: Seq<Tree>, from: int, b: BuilderView)
    requires
        b.scopes.len() >= 1,
        0 <= from,
    ensures
        balanced(b, emit_statements(items, from, b)),
    decreases items, items.len() - from,
{
    if from < items.len() {
        let first = emit(items[from], b);
        lemma_emit_balanced(items[from], b);
        if first.fault is None {
            lemma_statements_balanced(items, from + 1, first.builder);
        }
    }
}

proof fn lemma_args_balanced(args: Seq<Tree>, from: int, b: BuilderView)
    requires
        b.scopes.len() >= 1,
        0 <= from,
    ensures
        balanced(b, emit_args(args, from, b)),
    decreases args, args.len() - from,
{
    if from < args.len() {
        lemma_emit_balanced(args[from], b);
        let first = emit(args[from], b).line("  str r0, [sp, #"@ + decimal(4 * from) + "]"@);
        if first.fault is None {
            lemma_args_balanced(args, from + 1, first.builder);
        }
    }
}

/// What is balanced from a builder is balanced from a builder before it
/// in the same scope.
proof fn lemma_rebase(before: BuilderView, mid: BuilderView, emitted: Emitted)
    requires
        grown(before, mid),
        mid.scopes.len() == before.scopes.len(),
        balanced(mid, emitted),
    ensures
        balanced(before, emitted),
{
    let after = emitted.builder;
    assert forall|i: int| 0 <= i < before.lines.len() implies before.lines[i] == after.lines[i] by {
        assert(before.lines[i] == mid.lines[i]);
    }
    assert forall|i: int| 0 <= i < before.interned.len() implies before.interned[i]
        == after.interned[i] by {
        assert(before.interned[i] == mid.interned[i]);
    }
}

proof fn lemma_if_balanced(node: Tree, b: BuilderView)
    requires
        node is IfCond,
        b.scopes.len() >= 1,
    ensures
        balanced(b, emit(node, b)),
    decreases node, 0nat,
{
    if b.next_label + 2 <= i32::MAX {
        let (b1, if_false) = b.new_label();
        let (b2, end_if) = b1.new_label();
        let first = emit(*node->IfCond_condition, b2);
        lemma_emit_balanced(*node->IfCond_condition, b2);
        let test = first.line("  cmp r0, #0"@).line("  beq "@ + if_false.text());
        lemma_line(b2, first, "  cmp r0, #0"@);
        lemma_line(b2, first.line("  cmp r0, #0"@), "  beq "@ + if_false.text());
        let second = emit(*node->IfCond_then, test.builder);
        if test.fault is None {
            lemma_emit_balanced(*node->IfCond_then, test.builder);
        }
        lemma_followed_by(b2, test, second);
        let joined = test.followed_by(second);
        let taken = joined.line("  b "@ + end_if.text()).line(if_false.text() + ":"@);
        lemma_line(b2, joined, "  b "@ + end_if.text());
        lemma_line(b2, joined.line("  b "@ + end_if.text()), if_false.text() + ":"@);
        let third = emit(*node->IfCond_c_else, taken.builder);
        if taken.fault is None {
            lemma_emit_balanced(*node->IfCond_c_else, taken.builder);
        }
        lemma_followed_by(b2, taken, third);
        lemma_line(b2, taken.followed_by(third), end_if.text() + ":"@);
        lemma_rebase(b, b2, emit(node, b));
    }
}

proof fn lemma_while_balanced(node: Tree, b: BuilderView)
    requires
        node is WhileLoop,
        b.scopes.len() >= 1,
    ensures
        balanced(b, emit(node, b)),
    decreases node, 0nat,
{
    if b.next_label + 2 <= i32::MAX {
        let (b1, head) = b.new_label();
        let (b2, done) = b1.new_label();
        let start = b2.add(head.text() + ":"@);
        let first = emit(*node->WhileLoop_condition, start);
        lemma_emit_balanced(*node->WhileLoop_condition, start);
        let test = first.line("  cmp r0, #0"@).line("  beq "@ + done.text());
        lemma_line(start, first, "  cmp r0, #0"@);
        lemma_line(start, first.line("  cmp r0, #0"@), "  beq "@ + done.text());
        let second = emit(*node->WhileLoop_body, test.builder);
        if test.fault is None {
            lemma_emit_balanced(*node->WhileLoop_body, test.builder);
        }
        lemma_followed_by(start, test, second);
        let joined = test.followed_by(second);
        lemma_line(start, joined, "  b "@ + head.text());
        lemma_line(start, joined.line("  b "@ + head.text()), done.text() + ":"@);
        lemma_rebase(b, start, emit(node, b));
    }
}

proof fn lemma_function_balanced(node: Tree, b: BuilderView)
    requires
        node is FunctionDef,
        b.scopes.len() >= 1,
    ensures
        balanced(b, emit(node, b)),
    decreases node, 0nat,
{
    let name = node->FunctionDef_name;
    let params = node->FunctionDef_params;
    if params.len() <= 4 {
        let lines = b.add(Seq::empty()).add(".global "@ + name).add(name + ":"@).add(
            "  push {fp, lr}"@,
        ).add("  mov fp, sp"@);
        assert(grown(b, lines));
        let entered = lines.enter().set_up_env(params);
        let prologue = match push_params(params.len()) {
            Some(push) => entered.add(push),
            None => entered,
        };
        assert(prologue.scopes.len() == b.scopes.len() + 1);
        assert(prologue.lines.len() >= lines.lines.len());
        assert(lines.lines.is_prefix_of(prologue.lines));
        assert(grown(lines, prologue));
        let body = emit(*node->FunctionDef_body, prologue);
        lemma_emit_balanced(*node->FunctionDef_body, prologue);
        let done = body.line("  mov sp, fp"@).line("  mov r0, #0"@).line("  pop {fp, pc}"@);
        lemma_line(prologue, body, "  mov sp, fp"@);
        lemma_line(prologue, body.line("  mov sp, fp"@), "  mov r0, #0"@);
        lemma_line(prologue, body.line("  mov sp, fp"@).line("  mov r0, #0"@), "  pop {fp, pc}"@);
        let result = emit(node, b);
        let after = result.builder;
        assert(after.lines == done.builder.lines);
        assert forall|i: int| 0 <= i < b.lines.len() implies b.lines[i] == after.lines[i] by {
            assert(b.lines[i] == lines.lines[i]);
            assert(lines.lines[i] == prologue.lines[i]);
            assert(prologue.lines[i] == done.builder.lines[i]);
        }
        assert forall|i: int| 0 <= i < b.interned.len() implies b.interned[i]
            == after.interned[i] by {
            assert(b.interned[i] == prologue.interned[i]);
        }
    }
}

proof fn lemma_call_balanced(node: Tree, b: BuilderView)
    requires
        node is Call,
        b.scopes.len() >= 1,
    ensures
        balanced(b, emit(node, b)),
    decreases node, 0nat,
{
    let args = node->Call_args;
    let branch = "  bl "@ + node->Call_called;
    if args.len() == 1 {
        lemma_emit_balanced(args[0], b);
        lemma_line(b, emit(args[0], b), branch);
    } else if 1 < args.len() <= 4 {
        let start = b.add("  sub sp, sp, #"@ + decimal(4 * args.len() as int));
        lemma_args_balanced(args, 0, start);
        let stored = emit_args(args, 0, start);
        lemma_line(start, stored, "  pop {r0, r1, r2, r3}"@);
        lemma_line(start, stored.line("  pop {r0, r1, r2, r3}"@), branch);
        lemma_rebase(b, start, emit(node, b));
    }
}

proof fn lemma_binary_balanced(node: Tree, b: BuilderView)
    requires
        is_binary(node),
        b.scopes.len() >= 1,
    ensures
        balanced(b, emit(node, b)),
    decreases node, 1nat,
{
    lemma_operand_code(node, b);
}

proof fn lemma_value_balanced(node: Tree, b: BuilderView)
    requires
        node is Not || node is Return || node is Variable || node is Assignment,
        b.scopes.len() >= 1,
    ensures
        balanced(b, emit(node, b)),
    decreases node, 0nat,
{
    match node {
        Tree::Not { target, .. } => {
            lemma_emit_balanced(*target, b);
        },
        Tree::Return { value, .. } => {
            lemma_emit_balanced(*value, b);
        },
        Tree::Variable { value, .. } => {
            lemma_emit_balanced(*value, b);
        },
        Tree::Assignment { value, .. } => {
            lemma_emit_balanced(*value, b);
        },
        _ => {},
    }
}

/// Emitting only adds to the builder: lines, interned strings and labels
/// that were there stay. A node that is emitted without a fault leaves the
/// builder in the scope in which it found it, and no node ever leaves the
/// outermost scope.
pub proof fn lemma_emit_balanced(node: Tree, b: BuilderView)
    requires
        b.scopes.len() >= 1,
    ensures
        balanced(b, emit(node, b)),
    decreases node, 2nat,
{
    match node {
        Tree::Block { statements, .. } => {
            lemma_statements_balanced(statements, 0, b);
        },
        Tree::Not { .. }
        | Tree::Return { .. }
        | Tree::Variable { .. }
        | Tree::Assignment { .. } => {
            lemma_value_balanced(node, b);
        },
        Tree::Add { .. }
        | Tree::Subtract { .. }
        | Tree::Multiply { .. }
        | Tree::Divide { .. }
        | Tree::Equals { .. }
        | Tree::NEquals { .. } => {
            lemma_binary_balanced(node, b);
        },
        Tree::Call { .. } => {
            lemma_call_balanced(node, b);
        },
        Tree::IfCond { .. } => {
            lemma_if_balanced(node, b);
        },
        Tree::WhileLoop { .. } => {
            lemma_while_balanced(node, b);
        },
        Tree::FunctionDef { .. } => {
            lemma_function_balanced(node, b);
        },
        Tree::StrLiteral { .. } => {
            lemma_str_balanced(node, b);
        },
        _ => {},
    }
}

proof fn lemma_str_balanced(node: Tree, b: BuilderView)
    requires
        node is StrLiteral,
        b.scopes.len() >= 1,
    ensures
        balanced(b, emit(node, b)),
{
}

/// A string literal that is emitted a second time loads the label that it
/// loaded the first time, and the table of interned strings, which holds
/// one entry for it, stays as it is.
pub proof fn lemma_string_literal_twice(literal: Seq<char>, b: BuilderView)
    requires
        emit(Tree::StrLiteral { literal }, b).fault is None,
    ensures
        ({
            let first = emit(Tree::StrLiteral { literal }, b);
            let second = emit(Tree::StrLiteral { literal }, first.builder);
            &&& second.fault is None
            &&& second.builder.interned == first.builder.interned
            &&& second.builder.lines == first.builder.lines.push(first.builder.lines.last())
            &&& first.builder.lines.last() == "  ldr r0, ="@ + b.intern(literal).1.text()
        }),
{
    lemma_intern_twice(b, literal);
}

/// Nothing is appended by the empty string.
proof fn lemma_empty_tail(text: Seq<char>)
    ensures
        text + ""@ == text,
{
    reveal_strlit("");
    assert(text + ""@ =~= text);
}

/// The text `head` followed by `tail`.
fn joined2(head: &str, tail: &str) -> (r: String)
    ensures
        r@ == head@ + tail@,
{
    let mut r = String::from_str(head);
    r.append(tail);
    r
}

/// Appends the line `head` followed by `tail`.
fn add2(b: &mut Builder, head: &str, tail: &str)
    ensures
        final(b)@ == old(b)@.add(head@ + tail@),
{
    let line = joined2(head, tail);
    b.add(line.as_str());
}

/// Appends the line `head`, the number in decimal, `tail`.
fn add_number(b: &mut Builder, head: &str, number: i64, tail: &str)
    ensures
        final(b)@ == old(b)@.add(head@ + decimal(number as int) + tail@),
{
    let mut line = String::from_str(head);
    let digits = decimal_string(number);
    line.append(digits.as_str());
    line.append(tail);
    b.add(line.as_str());
}

/// The two operands of a binary operator.
pub open spec fn operands(node: Tree) -> (Tree, Tree) {
    match node {
        Tree::Equals { lhs, rhs } => (*lhs, *rhs),
        Tree::NEquals { lhs, rhs } => (*lhs, *rhs),
        Tree::Add { lhs, rhs } => (*lhs, *rhs),
        Tree::Subtract { lhs, rhs } => (*lhs, *rhs),
        Tree::Multiply { lhs, rhs } => (*lhs, *rhs),
        Tree::Divide { lhs, rhs } => (*lhs, *rhs),
        _ => arbitrary(),
    }
}

/// Whether a node is a binary operator.
pub open spec fn is_binary(node: Tree) -> bool {
    node is Equals || node is NEquals || node is Add || node is Subtract || node is Multiply
        || node is Divide
}

impl AST {
    /// Emits the assembly of this node into `b`. A fault ends the run at
    /// once: what was emitted before it stays in `b`, and nothing is emitted
    /// after it.
    pub fn emit_arm32(&self, b: &mut Builder) -> (r: Result<(), CodegenError>)
        ensures
            emit(self@, old(b)@) == (Emitted { builder: final(b)@, fault: fault_of(r) }),
        decreases self, 1nat,
    {
        match self {
            AST::Block { statements, .. } => {
                proof {
                    lemma_children(*self);
                }
                Self::emit_statements(statements, 0, b)
            },
            AST::Not { .. } => self.emit_not(b),
            AST::Add { .. } => {
                self.emit_operands(b)?;
                b.add("  add r0, r0, r1");
                Ok(())
            },
            AST::Subtract { .. } => {
                self.emit_operands(b)?;
                b.add("  sub r0, r1, r0");
                Ok(())
            },
            AST::Multiply { .. } => {
                self.emit_operands(b)?;
                b.add("  mul r2, r0, r1");
                b.add("  mov r0, r2");
                Ok(())
            },
            AST::Divide { .. } => {
                self.emit_operands(b)?;
                b.add("  udiv r0, r1, r0");
                Ok(())
            },
            AST::Equals { .. } => {
                self.emit_operands(b)?;
                b.add("  cmp r0, r1");
                b.add("  moveq r0, #1");
                b.add("  movne r0, #0");
                Ok(())
            },
            AST::NEquals { .. } => {
                self.emit_operands(b)?;
                b.add("  cmp r0, r1");
                b.add("  moveq r0, #0");
                b.add("  movne r0, #1");
                Ok(())
            },
            AST::Number { num, .. } => {
                add_number(b, "  ldr r0, =", *num as i64, "");
                proof {
                    lemma_empty_tail("  ldr r0, ="@ + decimal(*num as int));
                }
                Ok(())
            },
            AST::StrLiteral { literal } => {
                if !b.has_interned_room() && b.interned(literal).is_none() {
                    return Err(CodegenError::OutOfLabels);
                }
                let label = b.add_interned_str(literal.clone());
                let text = label.s();
                add2(b, "  ldr r0, =", text.as_str());
                Ok(())
            },
            AST::Call { .. } => self.emit_call(b),
            AST::IfCond { .. } => self.emit_if(b),
            AST::WhileLoop { .. } => self.emit_while(b),
            AST::FunctionDef { .. } => self.emit_function(b),
            AST::Identifier { name, .. } => {
                match b.try_get(name) {
                    Some(offset) => {
                        let offset: i32 = *offset;
                        add_number(b, "  ldr r0, #", offset as i64, "");
                        proof {
                            lemma_empty_tail("  ldr r0, #"@ + decimal(offset as int));
                        }
                        Ok(())
                    },
                    None => Err(CodegenError::UndefinedVariable { name: name.clone() }),
                }
            },
            AST::Return { value, .. } => {
                value.emit_arm32(b)?;
                b.add("  mov sp, fp");
                b.add("  pop {fp, pc}");
                Ok(())
            },
            AST::Variable { name, value, .. } => {
                value.emit_arm32(b)?;
                if !b.has_frame_room() {
                    return Err(CodegenError::FrameTooLarge);
                }
                b.add("  push {r0, ip}");
                b.set(name.clone());
                Ok(())
            },
            AST::Assignment { .. } => self.emit_assignment(b),
            AST::Error { .. } => Err(CodegenError::Unimplemented),
        }
    }

    /// Emits a logical negation.
    fn emit_not(&self, b: &mut Builder) -> (r: Result<(), CodegenError>)
        requires
            self is Not,
        ensures
            emit(self@, old(b)@) == (Emitted { builder: final(b)@, fault: fault_of(r) }),
        decreases self, 0nat,
    {
        match self {
            AST::Not { target, .. } => {
                target.emit_arm32(b)?;
                b.add("  cmp r0, #0");
                b.add("  moveq r0, #1");
                b.add("  movne r0, #0");
                Ok(())
            },
            _ => Ok(()),
        }
    }

    /// Emits both operands of a binary operator.
    fn emit_operands(&self, b: &mut Builder) -> (r: Result<(), CodegenError>)
        requires
            is_binary(self@),
        ensures
            ({
                let left = emit(operands(self@).0, old(b)@);
                operand_code(left, emit(operands(self@).1, after_lhs(left)))
            }) == (Emitted { builder: final(b)@, fault: fault_of(r) }),
        decreases self, 0nat,
    {
        match self {
            AST::Equals { lhs, rhs }
            | AST::NEquals { lhs, rhs }
            | AST::Add { lhs, rhs }
            | AST::Subtract { lhs, rhs }
            | AST::Multiply { lhs, rhs }
            | AST::Divide { lhs, rhs } => {
                lhs.emit_arm32(b)?;
                b.add("  push {r0, ip}");
                rhs.emit_arm32(b)?;
                b.add("  pop {r1, ip}");
                Ok(())
            },
            _ => Ok(()),
        }
    }

    /// Emits a call: no argument, one argument in `r0`, or two to four
    /// arguments by way of the stack.
    fn emit_call(&self, b: &mut Builder) -> (r: Result<(), CodegenError>)
        requires
            self is Call,
        ensures
            emit(self@, old(b)@) == (Emitted { builder: final(b)@, fault: fault_of(r) }),
        decreases self, 0nat,
    {
        match self {
            AST::Call { called, args, .. } => {
                proof {
                    lemma_children(*self);
                }
                let count: usize = args.len();
                if count == 0 {
                    add2(b, "  bl ", called.as_str());
                    Ok(())
                } else if count == 1 {
                    args[0].emit_arm32(b)?;
                    add2(b, "  bl ", called.as_str());
                    Ok(())
                } else if count <= 4 {
                    add_number(b, "  sub sp, sp, #", (count * 4) as i64, "");
                    proof {
                        lemma_empty_tail("  sub sp, sp, #"@ + decimal(4 * count as int));
                    }
                    Self::emit_args(args, 0, b)?;
                    b.add("  pop {r0, r1, r2, r3}");
                    add2(b, "  bl ", called.as_str());
                    Ok(())
                } else {
                    Err(CodegenError::TooManyArguments)
                }
            },
            _ => Ok(()),
        }
    }

    /// Emits a conditional with both branches.
    fn emit_if(&self, b: &mut Builder) -> (r: Result<(), CodegenError>)
        requires
            self is IfCond,
        ensures
            emit(self@, old(b)@) == (Emitted { builder: final(b)@, fault: fault_of(r) }),
        decreases self, 0nat,
    {
        match self {
            AST::IfCond { condition, then, c_else, .. } => {
                if !b.has_labels(2) {
                    return Err(CodegenError::OutOfLabels);
                }
                let if_false = b.new_label().s();
                let end_if = b.new_label().s();
                condition.emit_arm32(b)?;
                b.add("  cmp r0, #0");
                add2(b, "  beq ", if_false.as_str());
                then.emit_arm32(b)?;
                add2(b, "  b ", end_if.as_str());
                add2(b, if_false.as_str(), ":");
                c_else.emit_arm32(b)?;
                add2(b, end_if.as_str(), ":");
                Ok(())
            },
            _ => Ok(()),
        }
    }

    /// Emits a loop: the test at the head, the body, the branch back.
    fn emit_while(&self, b: &mut Builder) -> (r: Result<(), CodegenError>)
        requires
            self is WhileLoop,
        ensures
            emit(self@, old(b)@) == (Emitted { builder: final(b)@, fault: fault_of(r) }),
        decreases self, 0nat,
    {
        match self {
            AST::WhileLoop { condition, body, .. } => {
                if !b.has_labels(2) {
                    return Err(CodegenError::OutOfLabels);
                }
                let head = b.new_label().s();
                let done = b.new_label().s();
                add2(b, head.as_str(), ":");
                condition.emit_arm32(b)?;
                b.add("  cmp r0, #0");
                add2(b, "  beq ", done.as_str());
                body.emit_arm32(b)?;
                add2(b, "  b ", head.as_str());
                add2(b, done.as_str(), ":");
                Ok(())
            },
            _ => Ok(()),
        }
    }

    /// Emits a function: the prologue, the parameters in a scope of their
    /// own, the body, the epilogue.
    fn emit_function(&self, b: &mut Builder) -> (r: Result<(), CodegenError>)
        requires
            self is FunctionDef,
        ensures
            emit(self@, old(b)@) == (Emitted { builder: final(b)@, fault: fault_of(r) }),
        decreases self, 0nat,
    {
        match self {
            AST::FunctionDef { name, params, body, .. } => {
                let count: usize = params.len();
                if count > 4 {
                    return Err(CodegenError::TooManyParameters);
                }
                proof {
                    reveal_strlit("");
                    assert(""@ =~= Seq::<char>::empty());
                }
                b.add("");
                add2(b, ".global ", name.as_str());
                add2(b, name.as_str(), ":");
                b.add("  push {fp, lr}");
                b.add("  mov fp, sp");
                b.enter_ctx();
                b.set_up_env(params.as_slice());
                if count == 1 {
                    b.add("  push {r0, fp}");
                } else if count == 2 {
                    b.add("  push {r0, r1}");
                } else if count == 3 {
                    b.add("  push {r0, r1, r2, fp}");
                } else if count == 4 {
                    b.add("  push {r0, r1, r2, r3}");
                }
                body.emit_arm32(b)?;
                b.add("  mov sp, fp");
                b.add("  mov r0, #0");
                b.add("  pop {fp, pc}");
                b.exit_ctx()
            },
            _ => Ok(()),
        }
    }

    /// Emits an assignment to a declared variable.
    fn emit_assignment(&self, b: &mut Builder) -> (r: Result<(), CodegenError>)
        requires
            self is Assignment,
        ensures
            emit(self@, old(b)@) == (Emitted { builder: final(b)@, fault: fault_of(r) }),
        decreases self, 0nat,
    {
        match self {
            AST::Assignment { name, value, .. } => {
                value.emit_arm32(b)?;
                match b.try_get(name) {
                    Some(offset) => {
                        let offset: i32 = *offset;
                        add_number(b, "  str r0, #", offset as i64, "");
                        proof {
                            lemma_empty_tail("  str r0, #"@ + decimal(offset as int));
                        }
                        Ok(())
                    },
                    None => Err(CodegenError::UndefinedVariable { name: name.clone() }),
                }
            },
            _ => Ok(()),
        }
    }

    /// Emits the statements from index `from` on.
    fn emit_statements(items: &Vec<AST>, from: usize, b: &mut Builder) -> (r: Result<
        (),
        CodegenError,
    >)
        requires
            from <= items.len(),
        ensures
            emit_statements(trees(items@), from as int, old(b)@) == (Emitted {
                builder: final(b)@,
                fault: fault_of(r),
            }),
        decreases items, items.len() - from,
    {
        if from < items.len() {
            items[from].emit_arm32(b)?;
            Self::emit_statements(items, from + 1, b)
        } else {
            Ok(())
        }
    }

    /// Emits the arguments of a call from index `from` on, each into its
    /// slot of the stack.
    fn emit_args(args: &Vec<AST>, from: usize, b: &mut Builder) -> (r: Result<(), CodegenError>)
        requires
            from <= args.len(),
            args.len() <= 4,
        ensures
            emit_args(trees(args@), from as int, old(b)@) == (Emitted {
                builder: final(b)@,
                fault: fault_of(r),
            }),
        decreases args, args.len() - from,
    {
        if from < args.len() {
            args[from].emit_arm32(b)?;
            add_number(b, "  str r0, [sp, #", (from * 4) as i64, "]");
            Self::emit_args(args, from + 1, b)
        } else {
            Ok(())
        }
    }
}

} // verus!
