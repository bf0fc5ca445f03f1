//! The grammar of the sac language, as mathematical functions from the
//! input to the outcome of each rule.
//!
//! ```text
//! program    := stmt*
//! stmt       := return | fndef | if | while | vardecl | assign | block | exprstmt
//! fndef      := ":" ID (ID ("," ID)*)? block
//! if         := "if" expr stmt "else" stmt
//! while      := "while" expr stmt
//! vardecl    := "mut" ID "=" expr ";"
//! assign     := ID "=" expr ";"
//! block      := "{" stmt* "}"
//! exprstmt   := expr ";"
//! return     := "ret" expr ";"
//! expr       := comparison
//! comparison := sum (("==" | "!=") sum)*
//! sum        := product (("+" | "-") product)*
//! product    := unary (("*" | "/") unary)*
//! unary      := "!"? atom
//! atom       := call | ID | NUMBER | CHAR | STRING | "(" expr ")"
//! call       := ID "(" (expr ("," expr)*)? ")"
//! ```
//!
//! Tokens are regular expressions, so what a token matches is whatever the
//! `regex` crate finds. The alternatives of a rule are tried in order on the
//! same input, and the first that matches wins. A repetition ends where its
//! element does not match or consumes nothing.

use super::ast::Tree;
use super::parser::{identified, number_at_start, unquoted_len, Outcome};
use super::pattern::{compiles, prefix_match};
use super::span::SpanView;
use vstd::prelude::*;

verus! {

/// The three levels of binary operators, from the one that binds tightest.
#[derive(Clone, Copy, Debug, PartialEq, Eq)]
pub enum Level {
    Product,
    Sum,
    Comparison,
}

impl Level {
    pub open spec fn rank(self) -> nat {
        match self {
            Level::Product => 5,
            Level::Sum => 9,
            Level::Comparison => 13,
        }
    }

    /// The regular expressions of the two operators of the level.
    pub open spec fn operators(self) -> (Seq<char>, Seq<char>) {
        match self {
            Level::Product => ("[*]"@, "[/]"@),
            Level::Sum => ("[+]"@, "[-]"@),
            Level::Comparison => ("=="@, "!="@),
        }
    }
}

/// The node that a binary operator makes of its operands. An operator text
/// that is none of the level's operators makes an error node: at the
/// comparison level with the input of the rule as its message, else with
/// an empty one.
pub open spec fn combine(
    level: Level,
    lhs: Tree,
    operator: Seq<char>,
    rhs: Tree,
    input: Seq<char>,
) -> Tree {
    let lhs = Box::new(lhs);
    let rhs = Box::new(rhs);
    match level {
        Level::Product => if operator == "*"@ {
            Tree::Multiply { lhs, rhs }
        } else if operator == "/"@ {
            Tree::Divide { lhs, rhs }
        } else {
            Tree::Error { span: SpanView::dud(), msg: Seq::empty() }
        },
        Level::Sum => if operator == "+"@ {
            Tree::Add { lhs, rhs }
        } else if operator == "-"@ {
            Tree::Subtract { lhs, rhs }
        } else {
            Tree::Error { span: SpanView::dud(), msg: Seq::empty() }
        },
        Level::Comparison => if operator == "=="@ {
            Tree::Equals { lhs, rhs }
        } else if operator == "!="@ {
            Tree::NEquals { lhs, rhs }
        } else {
            Tree::Error { span: SpanView::dud(), msg: input }
        },
    }
}

/// The tree of a left operand followed by pairs of operator and right
/// operand: the pairs are taken from left to right, and each makes a node
/// whose left operand is everything before it.
pub open spec fn fold_left(
    level: Level,
    left: Tree,
    pairs: Seq<(Seq<char>, Tree)>,
    input: Seq<char>,
) -> Tree
    decreases pairs.len(),
{
    if pairs.len() == 0 {
        left
    } else {
        combine(
            level,
            fold_left(level, left, pairs.drop_last(), input),
            pairs.last().0,
            pairs.last().1,
            input,
        )
    }
}

/// A fold is left-associative: one more operation at the end makes a node
/// whose left operand is the fold of everything before it. With two
/// operations, `a op1 b op2 c` is `(a op1 b) op2 c`.
pub proof fn lemma_fold_left_associative(
    level: Level,
    left: Tree,
    pairs: Seq<(Seq<char>, Tree)>,
    operator: Seq<char>,
    rhs: Tree,
    input: Seq<char>,
)
    ensures
        fold_left(level, left, pairs.push((operator, rhs)), input) == combine(
            level,
            fold_left(level, left, pairs, input),
            operator,
            rhs,
            input,
        ),
        fold_left(level, left, Seq::empty(), input) == left,
{
    assert(pairs.push((operator, rhs)).drop_last() =~= pairs);
}

/// Folding pairs after a first one is folding them onto the node that the
/// first one makes.
pub proof fn lemma_fold_left_first(
    level: Level,
    left: Tree,
    first: (Seq<char>, Tree),
    pairs: Seq<(Seq<char>, Tree)>,
    input: Seq<char>,
)
    ensures
        fold_left(level, left, seq![first] + pairs, input) == fold_left(
            level,
            combine(level, left, first.0, first.1, input),
            pairs,
            input,
        ),
    decreases pairs.len(),
{
    let all = seq![first] + pairs;
    let node = combine(level, left, first.0, first.1, input);
    if pairs.len() == 0 {
        assert(all.drop_last() =~= Seq::empty());
        assert(all.last() == first);
        assert(fold_left(level, left, all.drop_last(), input) == left);
        assert(fold_left(level, left, all, input) == node);
    } else {
        assert(all.drop_last() =~= seq![first] + pairs.drop_last());
        assert(all.last() == pairs.last());
        lemma_fold_left_first(level, left, first, pairs.drop_last(), input);
        assert(fold_left(level, left, all, input) == combine(
            level,
            fold_left(level, left, all.drop_last(), input),
            pairs.last().0,
            pairs.last().1,
            input,
        ));
    }
}

/// What the regular expression `pattern` matches at the start of `input`:
/// the matched text and the rest.
pub open spec fn token(pattern: Seq<char>, input: Seq<char>) -> Option<(Seq<char>, Seq<char>)> {
    if compiles(pattern) {
        match prefix_match(pattern, input) {
            Some((matched, rest)) => if matched + rest == input {
                Some((matched, rest))
            } else {
                None
            },
            None => None,
        }
    } else {
        None
    }
}

/// The input after one run of whitespace, one line comment or one block
/// comment at its start.
pub open spec fn blank(input: Seq<char>) -> Option<Seq<char>> {
    match token("[ \n\r\t]+"@, input) {
        Some((_, rest)) => Some(rest),
        None => match token("[/][/].*"@, input) {
            Some((_, rest)) => Some(rest),
            None => match token("(?s)[/][*].*[*][/]"@, input) {
                Some((_, rest)) => Some(rest),
                None => None,
            },
        },
    }
}

/// The input without the whitespace and comments at its start.
pub open spec fn skip_ignored(input: Seq<char>) -> Seq<char>
    decreases input.len(),
{
    match blank(input) {
        Some(rest) => if rest.len() < input.len() {
            skip_ignored(rest)
        } else {
            input
        },
        None => input,
    }
}

/// Skipping whitespace and comments leaves no more than there was.
pub proof fn lemma_skip_ignored(input: Seq<char>)
    ensures
        skip_ignored(input).len() <= input.len(),
    decreases input.len(),
{
    match blank(input) {
        Some(rest) => {
            if rest.len() < input.len() {
                lemma_skip_ignored(rest);
            }
        },
        None => {},
    }
}

/// A token after whitespace and comments. Where the token does not match,
/// the rule gives up after the whitespace.
#[verifier::opaque]
pub open spec fn sliteral(pattern: Seq<char>, input: Seq<char>) -> Outcome<Seq<char>> {
    let start = skip_ignored(input);
    match token(pattern, start) {
        Some((matched, rest)) => Outcome::Matched { rest, value: matched },
        None => Outcome::NoMatch { at: start },
    }
}

/// A token matches no more than the input after whitespace.
pub proof fn lemma_sliteral(pattern: Seq<char>, input: Seq<char>)
    ensures
        sliteral(pattern, input) matches Outcome::Matched { rest, value } ==> value + rest
            == skip_ignored(input) && rest.len() <= input.len(),
{
    reveal(sliteral);
    lemma_skip_ignored(input);
}

/// An identifier after whitespace and comments.
pub open spec fn sident(input: Seq<char>) -> Outcome<Seq<char>> {
    identified(skip_ignored(input))
}

/// An identifier node.
pub open spec fn id(input: Seq<char>) -> Outcome<Tree> {
    match identified(input) {
        Outcome::Matched { rest, value } => Outcome::Matched {
            rest,
            value: Tree::Identifier { name: value, span: SpanView::dud() },
        },
        Outcome::NoMatch { at } => Outcome::NoMatch { at },
    }
}

/// A number node.
pub open spec fn number(input: Seq<char>) -> Outcome<Tree> {
    match number_at_start(input) {
        Some((rest, num)) => Outcome::Matched {
            rest,
            value: Tree::Number { num: num as int, span: SpanView::dud() },
        },
        None => Outcome::NoMatch { at: input },
    }
}

/// A string literal: a double quote, the characters up to the next double
/// quote, and that quote.
pub open spec fn sac_str(input: Seq<char>) -> Outcome<Tree> {
    match sliteral("\""@, input) {
        Outcome::Matched { rest, .. } => {
            let literal = rest.take(unquoted_len(rest));
            match sliteral("\""@, rest.skip(unquoted_len(rest))) {
                Outcome::Matched { rest, .. } => Outcome::Matched {
                    rest,
                    value: Tree::StrLiteral { literal },
                },
                Outcome::NoMatch { at } => Outcome::NoMatch { at },
            }
        },
        Outcome::NoMatch { .. } => Outcome::NoMatch { at: input },
    }
}

/// The code point of a character.
pub open spec fn code_point(c: char) -> int {
    (c as u32) as int
}

/// A character literal: a number node that holds the code point of the
/// character between two single quotes.
pub open spec fn chr(input: Seq<char>) -> Outcome<Tree> {
    match sliteral("[']"@, input) {
        Outcome::Matched { rest, .. } => if rest.len() == 0 {
            Outcome::NoMatch { at: rest }
        } else {
            match sliteral("[']"@, rest.skip(1)) {
                Outcome::Matched { rest: after, .. } => Outcome::Matched {
                    rest: after,
                    value: Tree::Number { num: code_point(rest[0]), span: SpanView::dud() },
                },
                Outcome::NoMatch { at } => Outcome::NoMatch { at },
            }
        },
        Outcome::NoMatch { .. } => Outcome::NoMatch { at: input },
    }
}

/// An operator of the level, after whitespace and comments.
pub open spec fn operator(level: Level, input: Seq<char>) -> Outcome<Seq<char>> {
    match sliteral(level.operators().0, input) {
        Outcome::Matched { rest, value } => Outcome::Matched { rest, value },
        Outcome::NoMatch { .. } => sliteral(level.operators().1, input),
    }
}

/// An expression.
pub open spec fn expression(input: Seq<char>) -> Outcome<Tree>
    decreases input.len(), 16nat,
{
    proof {
        lemma_skip_ignored(input);
    }
    binary(Level::Comparison, skip_ignored(input))
}

/// The operand of a level: the level that binds tighter, and below the
/// products a unary expression.
pub open spec fn operand(level: Level, input: Seq<char>) -> Outcome<Tree>
    decreases input.len(), (level.rank() - 1) as nat,
{
    match level {
        Level::Product => unary(input),
        Level::Sum => binary(Level::Product, input),
        Level::Comparison => binary(Level::Sum, input),
    }
}

/// An operator of the level and the operand after it.
pub open spec fn operation(level: Level, input: Seq<char>) -> Outcome<(Seq<char>, Tree)>
    decreases input.len(), level.rank(),
{
    match operator(level, input).within(input) {
        Outcome::Matched { rest, value: op } => match operand(level, rest) {
            Outcome::Matched { rest, value: rhs } => Outcome::Matched { rest, value: (op, rhs) },
            Outcome::NoMatch { at } => Outcome::NoMatch { at },
        },
        Outcome::NoMatch { at } => Outcome::NoMatch { at },
    }
}

/// The operations from `input` on, after those in `seen`, and the input
/// after the last of them.
pub open spec fn operations(
    level: Level,
    input: Seq<char>,
    seen: Seq<(Seq<char>, Tree)>,
) -> (Seq<(Seq<char>, Tree)>, Seq<char>)
    decreases input.len(), level.rank() + 1,
{
    match operation(level, input).progress(input) {
        Outcome::Matched { rest, value } => operations(level, rest, seen.push(value)),
        Outcome::NoMatch { .. } => (seen, input),
    }
}

/// A level of binary operators: an operand and any number of operations,
/// folded from the left.
pub open spec fn binary(level: Level, input: Seq<char>) -> Outcome<Tree>
    decreases input.len(), level.rank() + 2,
{
    match operand(level, input).within(input) {
        Outcome::Matched { rest, value: left } => {
            let (pairs, end) = operations(level, rest, Seq::empty());
            Outcome::Matched { rest: end, value: fold_left(level, left, pairs, input) }
        },
        Outcome::NoMatch { at } => Outcome::NoMatch { at },
    }
}

/// A product.
pub open spec fn product(input: Seq<char>) -> Outcome<Tree> {
    binary(Level::Product, input)
}

/// A sum.
pub open spec fn sum(input: Seq<char>) -> Outcome<Tree> {
    binary(Level::Sum, input)
}

/// A comparison.
pub open spec fn comparison(input: Seq<char>) -> Outcome<Tree> {
    binary(Level::Comparison, input)
}

/// An atom with or without `!` before it. The input counts as starting
/// with `!` where the token matches a text that is not empty.
pub open spec fn unary(input: Seq<char>) -> Outcome<Tree>
    decreases input.len(), 3nat,
{
    match sliteral("!"@, input).within(input) {
        Outcome::Matched { rest, value: not } => match atom(rest) {
            Outcome::Matched { rest, value: term } => Outcome::Matched {
                rest,
                value: if not.len() == 0 {
                    term
                } else {
                    Tree::Not { target: Box::new(term), span: SpanView::dud() }
                },
            },
            Outcome::NoMatch { at } => Outcome::NoMatch { at },
        },
        Outcome::NoMatch { .. } => atom(input),
    }
}

/// An expression between parentheses.
pub open spec fn parenthesized(input: Seq<char>) -> Outcome<Tree>
    decreases input.len(), 1nat,
{
    match sliteral("[(]"@, input).progress(input) {
        Outcome::Matched { rest, .. } => match expression(rest).within(rest) {
            Outcome::Matched { rest, value } => match sliteral("[)]"@, rest) {
                Outcome::Matched { rest: after, .. } => Outcome::Matched { rest: after, value },
                Outcome::NoMatch { .. } => Outcome::NoMatch { at: rest },
            },
            Outcome::NoMatch { at } => Outcome::NoMatch { at },
        },
        Outcome::NoMatch { .. } => Outcome::NoMatch { at: input },
    }
}

/// An atom: after whitespace and comments the first of call, identifier,
/// number, character, string and parenthesized expression that matches.
pub open spec fn atom(input: Seq<char>) -> Outcome<Tree>
    decreases input.len(), 2nat,
{
    proof {
        lemma_skip_ignored(input);
    }
    let start = skip_ignored(input);
    match call(start) {
        Outcome::Matched { rest, value } => Outcome::Matched { rest, value },
        Outcome::NoMatch { .. } => match id(start) {
            Outcome::Matched { rest, value } => Outcome::Matched { rest, value },
            Outcome::NoMatch { .. } => match number(start) {
                Outcome::Matched { rest, value } => Outcome::Matched { rest, value },
                Outcome::NoMatch { .. } => match chr(start) {
                    Outcome::Matched { rest, value } => Outcome::Matched { rest, value },
                    Outcome::NoMatch { .. } => match sac_str(start) {
                        Outcome::Matched { rest, value } => Outcome::Matched { rest, value },
                        Outcome::NoMatch { .. } => parenthesized(start),
                    },
                },
            },
        },
    }
}

/// A call: the name of a function and its arguments between parentheses.
pub open spec fn call(input: Seq<char>) -> Outcome<Tree>
    decreases input.len(), 1nat,
{
    match sident(input).progress(input) {
        Outcome::Matched { rest: after_name, value: called } => match sliteral(
            "[(]"@,
            after_name,
        ).within(after_name) {
            Outcome::Matched { rest, .. } => {
                let (args, after_args) = args(rest);
                match sliteral("[)]"@, after_args) {
                    Outcome::Matched { rest, .. } => Outcome::Matched {
                        rest,
                        value: Tree::Call { called, args, span: SpanView::dud() },
                    },
                    Outcome::NoMatch { .. } => Outcome::NoMatch { at: after_args },
                }
            },
            Outcome::NoMatch { .. } => Outcome::NoMatch { at: after_name },
        },
        Outcome::NoMatch { at } => Outcome::NoMatch { at },
    }
}

/// A comma and the expression after it.
pub open spec fn next_arg(input: Seq<char>) -> Outcome<Tree>
    decreases input.len(), 17nat,
{
    match sliteral(","@, input).within(input) {
        Outcome::Matched { rest, .. } => expression(rest),
        Outcome::NoMatch { .. } => Outcome::NoMatch { at: input },
    }
}

/// The arguments after the first from `input` on, after those in `seen`.
pub open spec fn more_args(input: Seq<char>, seen: Seq<Tree>) -> (Seq<Tree>, Seq<char>)
    decreases input.len(), 18nat,
{
    match next_arg(input).progress(input) {
        Outcome::Matched { rest, value } => more_args(rest, seen.push(value)),
        Outcome::NoMatch { .. } => (seen, input),
    }
}

/// The arguments of a call, separated by commas, and the input after them.
/// Where no expression stands, there are no arguments.
pub open spec fn args(input: Seq<char>) -> (Seq<Tree>, Seq<char>)
    decreases input.len(), 19nat,
{
    match expression(input).within(input) {
        Outcome::Matched { rest, value } => more_args(rest, seq![value]),
        Outcome::NoMatch { .. } => (Seq::empty(), input),
    }
}

/// A comma and the identifier after it.
pub open spec fn next_param(input: Seq<char>) -> Outcome<Seq<char>> {
    match sliteral("[,]"@, input) {
        Outcome::Matched { rest, .. } => sident(rest),
        Outcome::NoMatch { .. } => Outcome::NoMatch { at: input },
    }
}

/// The parameters after the first from `input` on, after those in `seen`.
pub open spec fn more_params(input: Seq<char>, seen: Seq<Seq<char>>) -> (
    Seq<Seq<char>>,
    Seq<char>,
)
    decreases input.len(),
{
    match next_param(input).progress(input) {
        Outcome::Matched { rest, value } => more_params(rest, seen.push(value)),
        Outcome::NoMatch { .. } => (seen, input),
    }
}

/// The parameters of a function, separated by commas, and the input after
/// them. Where no identifier stands, there are no parameters.
pub open spec fn params(input: Seq<char>) -> (Seq<Seq<char>>, Seq<char>) {
    match sident(input) {
        Outcome::Matched { rest, value } => more_params(rest, seq![value]),
        Outcome::NoMatch { .. } => (Seq::empty(), input),
    }
}

/// The semicolon after an expression: the outcome `after` of the
/// expression, with the input after the semicolon. Where the semicolon is
/// missing, the rule gives up where the expression ended.
pub open spec fn ended(after: Outcome<Tree>) -> Outcome<Tree> {
    match after {
        Outcome::Matched { rest, value } => match sliteral("[;]"@, rest) {
            Outcome::Matched { rest: end, .. } => Outcome::Matched { rest: end, value },
            Outcome::NoMatch { .. } => Outcome::NoMatch { at: rest },
        },
        Outcome::NoMatch { at } => Outcome::NoMatch { at },
    }
}

/// The outcome with its value made into another node.
pub open spec fn wrapped(o: Outcome<Tree>, wrap: spec_fn(Tree) -> Tree) -> Outcome<Tree> {
    match o {
        Outcome::Matched { rest, value } => Outcome::Matched { rest, value: wrap(value) },
        Outcome::NoMatch { at } => Outcome::NoMatch { at },
    }
}

/// A return statement.
pub open spec fn return_s(input: Seq<char>) -> Outcome<Tree> {
    match sliteral("ret"@, input) {
        Outcome::Matched { rest, .. } => wrapped(
            ended(expression(rest)),
            |value: Tree| Tree::Return { value: Box::new(value), span: SpanView::dud() },
        ),
        Outcome::NoMatch { .. } => Outcome::NoMatch { at: input },
    }
}

/// An expression statement.
pub open spec fn expr_s(input: Seq<char>) -> Outcome<Tree> {
    ended(expression(input))
}

/// `=`, an expression and a semicolon: what follows the name in a
/// declaration and in an assignment.
pub open spec fn initializer(input: Seq<char>) -> Outcome<Tree> {
    match sliteral("="@, input) {
        Outcome::Matched { rest, .. } => ended(expression(rest)),
        Outcome::NoMatch { .. } => Outcome::NoMatch { at: input },
    }
}

/// A variable declaration.
pub open spec fn var_s(input: Seq<char>) -> Outcome<Tree> {
    match sliteral("mut"@, input) {
        Outcome::Matched { rest, .. } => match sident(rest) {
            Outcome::Matched { rest, value: name } => wrapped(
                initializer(rest),
                |value: Tree| Tree::Variable { span: SpanView::dud(), name, value: Box::new(value) },
            ),
            Outcome::NoMatch { at } => Outcome::NoMatch { at },
        },
        Outcome::NoMatch { .. } => Outcome::NoMatch { at: input },
    }
}

/// An assignment.
pub open spec fn assign_s(input: Seq<char>) -> Outcome<Tree> {
    match sident(input) {
        Outcome::Matched { rest, value: name } => wrapped(
            initializer(rest),
            |value: Tree| Tree::Assignment { span: SpanView::dud(), name, value: Box::new(value) },
        ),
        Outcome::NoMatch { at } => Outcome::NoMatch { at },
    }
}

/// The statements from `input` on, after those in `seen`, and the input
/// after the last of them.
pub open spec fn statements(input: Seq<char>, seen: Seq<Tree>) -> (Seq<Tree>, Seq<char>)
    decreases input.len(), 4nat,
{
    match statement(input).progress(input) {
        Outcome::Matched { rest, value } => statements(rest, seen.push(value)),
        Outcome::NoMatch { .. } => (seen, input),
    }
}

/// A block of statements between braces.
pub open spec fn block_s(input: Seq<char>) -> Outcome<Tree>
    decreases input.len(), 1nat,
{
    match sliteral("[{]"@, input).progress(input) {
        Outcome::Matched { rest, .. } => {
            let (items, end) = statements(rest, Seq::empty());
            match sliteral("[}]"@, end) {
                Outcome::Matched { rest: after, .. } => Outcome::Matched {
                    rest: after,
                    value: Tree::Block { statements: items, span: SpanView::dud() },
                },
                Outcome::NoMatch { .. } => Outcome::NoMatch { at: end },
            }
        },
        Outcome::NoMatch { .. } => Outcome::NoMatch { at: input },
    }
}

/// The two branches of a conditional with the condition `condition`: a
/// statement, `else`, and a statement.
pub open spec fn branches(condition: Tree, input: Seq<char>) -> Outcome<Tree>
    decreases input.len(), 5nat,
{
    match statement(input).within(input) {
        Outcome::Matched { rest, value: then } => match sliteral("else"@, rest).within(rest) {
            Outcome::Matched { rest: after_else, .. } => match statement(after_else) {
                Outcome::Matched { rest, value: c_else } => Outcome::Matched {
                    rest,
                    value: Tree::IfCond {
                        span: SpanView::dud(),
                        condition: Box::new(condition),
                        then: Box::new(then),
                        c_else: Box::new(c_else),
                    },
                },
                Outcome::NoMatch { at } => Outcome::NoMatch { at },
            },
            Outcome::NoMatch { .. } => Outcome::NoMatch { at: rest },
        },
        Outcome::NoMatch { at } => Outcome::NoMatch { at },
    }
}

/// A conditional: `if`, the condition, and both branches.
pub open spec fn if_s(input: Seq<char>) -> Outcome<Tree>
    decreases input.len(), 1nat,
{
    match sliteral("if"@, input) {
        Outcome::Matched { rest, .. } => match expression(rest).progress(input) {
            Outcome::Matched { rest, value: condition } => branches(condition, rest),
            Outcome::NoMatch { at } => Outcome::NoMatch { at },
        },
        Outcome::NoMatch { .. } => Outcome::NoMatch { at: input },
    }
}

/// A loop.
pub open spec fn while_s(input: Seq<char>) -> Outcome<Tree>
    decreases input.len(), 1nat,
{
    match sliteral("while"@, input) {
        Outcome::Matched { rest, .. } => match expression(rest).progress(input) {
            Outcome::Matched { rest, value: condition } => match statement(rest) {
                Outcome::Matched { rest, value: body } => Outcome::Matched {
                    rest,
                    value: Tree::WhileLoop {
                        span: SpanView::dud(),
                        condition: Box::new(condition),
                        body: Box::new(body),
                    },
                },
                Outcome::NoMatch { at } => Outcome::NoMatch { at },
            },
            Outcome::NoMatch { at } => Outcome::NoMatch { at },
        },
        Outcome::NoMatch { .. } => Outcome::NoMatch { at: input },
    }
}

/// A function definition: a colon, the name, the parameters, and a block.
pub open spec fn fn_s(input: Seq<char>) -> Outcome<Tree>
    decreases input.len(), 2nat,
{
    match sliteral(":"@, input) {
        Outcome::Matched { rest, .. } => match sident(rest) {
            Outcome::Matched { rest, value: name } => {
                let (parameters, after) = params(rest);
                if after.len() <= input.len() {
                    match block_s(after) {
                        Outcome::Matched { rest, value: body } => Outcome::Matched {
                            rest,
                            value: Tree::FunctionDef {
                                span: SpanView::dud(),
                                name,
                                params: parameters,
                                body: Box::new(body),
                            },
                        },
                        Outcome::NoMatch { at } => Outcome::NoMatch { at },
                    }
                } else {
                    Outcome::NoMatch { at: input }
                }
            },
            Outcome::NoMatch { at } => Outcome::NoMatch { at },
        },
        Outcome::NoMatch { .. } => Outcome::NoMatch { at: input },
    }
}

/// A statement: the first that matches of return, function definition,
/// conditional, loop, declaration, assignment, block and expression
/// statement.
pub open spec fn statement(input: Seq<char>) -> Outcome<Tree>
    decreases input.len(), 3nat,
{
    match return_s(input) {
        Outcome::Matched { rest, value } => Outcome::Matched { rest, value },
        Outcome::NoMatch { .. } => match fn_s(input) {
            Outcome::Matched { rest, value } => Outcome::Matched { rest, value },
            Outcome::NoMatch { .. } => match if_s(input) {
                Outcome::Matched { rest, value } => Outcome::Matched { rest, value },
                Outcome::NoMatch { .. } => match while_s(input) {
                    Outcome::Matched { rest, value } => Outcome::Matched { rest, value },
                    Outcome::NoMatch { .. } => match var_s(input) {
                        Outcome::Matched { rest, value } => Outcome::Matched { rest, value },
                        Outcome::NoMatch { .. } => match assign_s(input) {
                            Outcome::Matched { rest, value } => Outcome::Matched { rest, value },
                            Outcome::NoMatch { .. } => match block_s(input) {
                                Outcome::Matched { rest, value } => Outcome::Matched {
                                    rest,
                                    value,
                                },
                                Outcome::NoMatch { .. } => expr_s(input),
                            },
                        },
                    },
                },
            },
        },
    }
}

/// A program: the statements of the input, in one block, and the input
/// that is left after them.
pub open spec fn program(input: Seq<char>) -> (Tree, Seq<char>) {
    let (items, rest) = statements(skip_ignored(input), Seq::empty());
    (Tree::Block { statements: items, span: SpanView::dud() }, rest)
}

} // verus!
