//! The parser of the sac language: one function for each rule of the
//! grammar, each computing what the grammar says of its input.

use super::ast::{lemma_children, trees, Tree, AST};
use super::parser::{
    and_right, any_char, identifier, no_longer, number_i32, text_outcome, try_match_regex,
    until_quote, Outcome, ParseResult, Parser,
};
use super::parser_laws::{lemma_and_right, lemma_function, lemma_map};
use super::sac_grammar;
use super::sac_grammar::Level;
use super::span::{Span, SpanView};
use crate::text::{same_text, texts};
use vstd::prelude::*;

verus! {

/// The outcome that a result of a parser of nodes stands for.
pub open spec fn tree_outcome(r: ParseResult<AST>) -> Outcome<Tree> {
    match r {
        Ok((rest, value)) => Outcome::Matched { rest: rest@, value: value@ },
        Err(at) => Outcome::NoMatch { at: at@ },
    }
}

/// The text that the regular expression `pattern` matches at the start of
/// `input`, and the rest of the input.
fn token<'a>(pattern: &str, input: &'a str) -> (r: Option<(String, &'a str)>)
    ensures
        match r {
            Some((matched, rest)) => sac_grammar::token(pattern@, input@) == Some(
                (matched@, rest@),
            ),
            None => sac_grammar::token(pattern@, input@) is None,
        },
{
    match try_match_regex(pattern, input) {
        Some(Ok((rest, matched))) => Some((matched, rest)),
        _ => None,
    }
}

/// The input after one run of whitespace or one comment.
fn blank<'a>(input: &'a str) -> (r: Option<&'a str>)
    ensures
        match r {
            Some(rest) => sac_grammar::blank(input@) == Some(rest@),
            None => sac_grammar::blank(input@) is None,
        },
{
    if let Some((_, rest)) = token("[ \n\r\t]+", input) {
        return Some(rest);
    }
    if let Some((_, rest)) = token("[/][/].*", input) {
        return Some(rest);
    }
    if let Some((_, rest)) = token("(?s)[/][*].*[*][/]", input) {
        return Some(rest);
    }
    None
}

/// Skips whitespace and comments. It accepts every input.
pub fn ignored<'a>(input: &'a str) -> (r: ParseResult<'a, ()>)
    ensures
        r matches Ok((rest, _)) && rest@ == sac_grammar::skip_ignored(input@),
        no_longer(r, input),
{
    let mut rest: &'a str = input;
    loop
        invariant
            sac_grammar::skip_ignored(rest@) == sac_grammar::skip_ignored(input@),
            rest@.len() <= input@.len(),
        decreases rest@.len(),
    {
        match blank(rest) {
            Some(next) => {
                if next.unicode_len() < rest.unicode_len() {
                    rest = next;
                } else {
                    return Ok((rest, ()));
                }
            },
            None => {
                return Ok((rest, ()));
            },
        }
    }
}

/// The parser of [`sliteral`].
pub struct SLiteral<'e> {
    pub exp: &'e str,
}

/// A token after whitespace and comments: accepts an input at whose start,
/// after whitespace, the regular expression `exp` matches, and gives the
/// matched text.
pub fn sliteral<'e>(exp: &'e str) -> (p: SLiteral<'e>)
    ensures
        p.exp == exp,
{
    SLiteral { exp }
}

impl<'a, 'e> Parser<'a, String> for SLiteral<'e> {
    open spec fn ready(&self, input: &'a str) -> bool {
        true
    }

    open spec fn accepts(&self, input: &'a str, rest: &'a str, value: String) -> bool {
        &&& sac_grammar::sliteral(self.exp@, input@) == (Outcome::Matched {
            rest: rest@,
            value: value@,
        })
        &&& rest@.len() <= input@.len()
    }

    open spec fn rejects(&self, input: &'a str, at: &'a str) -> bool {
        sac_grammar::sliteral(self.exp@, input@) == (Outcome::<Seq<char>>::NoMatch { at: at@ })
    }

    fn parse(&self, input: &'a str) -> (r: ParseResult<'a, String>) {
        proof {
            reveal(sac_grammar::sliteral);
            sac_grammar::lemma_sliteral(self.exp@, input@);
        }
        match ignored(input) {
            Ok((start, _)) => match token(self.exp, start) {
                Some((matched, rest)) => Ok((rest, matched)),
                None => Err(start),
            },
            Err(at) => Err(at),
        }
    }
}

/// An identifier after whitespace and comments.
pub fn sident<'a>(input: &'a str) -> (r: ParseResult<'a, String>)
    ensures
        text_outcome(r) == sac_grammar::sident(input@),
        no_longer(r, input),
        r matches Ok((rest, name)) ==> rest@.len() < sac_grammar::skip_ignored(input@).len(),
{
    let parser = and_right(ignored, identifier);
    proof {
        lemma_function(ignored);
        lemma_function(identifier);
        lemma_and_right(parser);
        sac_grammar::lemma_skip_ignored(input@);
    }
    parser.parse(input)
}

/// An identifier after whitespace and comments.
pub fn sidentifier<'a>(input: &'a str) -> (r: ParseResult<'a, String>)
    ensures
        text_outcome(r) == sac_grammar::sident(input@),
        no_longer(r, input),
{
    sident(input)
}

/// An identifier node.
pub fn id<'a>(input: &'a str) -> (r: ParseResult<'a, AST>)
    ensures
        tree_outcome(r) == sac_grammar::id(input@),
        no_longer(r, input),
{
    let wrap = |name: String| -> (node: AST)
        ensures
            node@ == (Tree::Identifier { name: name@, span: SpanView::dud() }),
        {
            AST::Identifier { name, span: Span::new_dud() }
        };
    let parser = super::parser::map(identifier, wrap);
    proof {
        lemma_function(identifier);
        lemma_map(parser);
    }
    parser.parse(input)
}

/// A number node.
pub fn number<'a>(input: &'a str) -> (r: ParseResult<'a, AST>)
    ensures
        tree_outcome(r) == sac_grammar::number(input@),
        no_longer(r, input),
{
    let wrap = |num: i32| -> (node: AST)
        ensures
            node@ == (Tree::Number { num: num as int, span: SpanView::dud() }),
        {
            AST::Number { num, span: Span::new_dud() }
        };
    let parser = super::parser::map(number_i32, wrap);
    proof {
        lemma_function(number_i32);
        lemma_map(parser);
    }
    parser.parse(input)
}

/// A string literal.
pub fn sac_str<'a>(input: &'a str) -> (r: ParseResult<'a, AST>)
    ensures
        tree_outcome(r) == sac_grammar::sac_str(input@),
        no_longer(r, input),
{
    match sliteral("\"").parse(input) {
        Ok((rest, _)) => {
            let (literal, after) = until_quote(rest);
            let literal = String::from_str(literal);
            match sliteral("\"").parse(after) {
                Ok((end, _)) => Ok((end, AST::StrLiteral { literal })),
                Err(at) => Err(at),
            }
        },
        Err(_) => Err(input),
    }
}

/// A character literal.
pub fn chr<'a>(input: &'a str) -> (r: ParseResult<'a, AST>)
    ensures
        tree_outcome(r) == sac_grammar::chr(input@),
        no_longer(r, input),
{
    match sliteral("[']").parse(input) {
        Ok((rest, _)) => match any_char(rest) {
            Ok((after, character)) => match sliteral("[']").parse(after) {
                Ok((end, _)) => {
                    let code: u32 = character as u32;
                    proof {
                        vstd::utf8::char_is_scalar(character);
                    }
                    Ok((end, AST::Number { num: code as i32, span: Span::new_dud() }))
                },
                Err(at) => Err(at),
            },
            Err(at) => Err(at),
        },
        Err(_) => Err(input),
    }
}

/// The values of pairs of operator and operand.
pub open spec fn pairs_view(pairs: Seq<(String, AST)>) -> Seq<(Seq<char>, Tree)> {
    pairs.map_values(|p: (String, AST)| (p.0@, p.1@))
}

/// The outcome that a result of a parser of operations stands for.
pub open spec fn pair_outcome(r: ParseResult<(String, AST)>) -> Outcome<(Seq<char>, Tree)> {
    match r {
        Ok((rest, value)) => Outcome::Matched { rest: rest@, value: (value.0@, value.1@) },
        Err(at) => Outcome::NoMatch { at: at@ },
    }
}

/// The node that `operator` makes of two operands at the given level.
pub fn combine(level: Level, lhs: AST, operator: &str, rhs: AST, input: &str) -> (r: AST)
    ensures
        r@ == sac_grammar::combine(level, lhs@, operator@, rhs@, input@),
{
    let lhs = Box::new(lhs);
    let rhs = Box::new(rhs);
    match level {
        Level::Product => {
            if same_text(operator, "*") {
                AST::Multiply { lhs, rhs }
            } else if same_text(operator, "/") {
                AST::Divide { lhs, rhs }
            } else {
                AST::Error { span: Span::new_dud(), msg: String::new() }
            }
        },
        Level::Sum => {
            if same_text(operator, "+") {
                AST::Add { lhs, rhs }
            } else if same_text(operator, "-") {
                AST::Subtract { lhs, rhs }
            } else {
                AST::Error { span: Span::new_dud(), msg: String::new() }
            }
        },
        Level::Comparison => {
            if same_text(operator, "==") {
                AST::Equals { lhs, rhs }
            } else if same_text(operator, "!=") {
                AST::NEquals { lhs, rhs }
            } else {
                AST::Error { span: Span::new_dud(), msg: String::from_str(input) }
            }
        },
    }
}

/// Folds a left operand and the operations after it into one tree, from
/// the left: `a op1 b op2 c` becomes `(a op1 b) op2 c`.
pub fn fold_binary(level: Level, left: AST, pairs: Vec<(String, AST)>, input: &str) -> (r: AST)
    ensures
        r@ == sac_grammar::fold_left(level, left@, pairs_view(pairs@), input@),
{
    let ghost all = pairs_view(pairs@);
    let ghost first = left@;
    let mut pairs = pairs;
    let mut tree = left;
    while pairs.len() > 0
        invariant
            sac_grammar::fold_left(level, tree@, pairs_view(pairs@), input@)
                == sac_grammar::fold_left(level, first, all, input@),
        decreases pairs.len(),
    {
        let ghost before = pairs_view(pairs@);
        let ghost node = tree@;
        let (operator, rhs) = pairs.remove(0);
        proof {
            assert(before =~= seq![(operator@, rhs@)] + pairs_view(pairs@));
            sac_grammar::lemma_fold_left_first(
                level,
                node,
                (operator@, rhs@),
                pairs_view(pairs@),
                input@,
            );
        }
        tree = combine(level, tree, operator.as_str(), rhs, input);
    }
    tree
}

/// An operator of the level, after whitespace and comments.
fn operator<'a>(level: Level, input: &'a str) -> (r: ParseResult<'a, String>)
    ensures
        text_outcome(r) == sac_grammar::operator(level, input@),
        no_longer(r, input),
{
    let (first, second) = match level {
        Level::Product => ("[*]", "[/]"),
        Level::Sum => ("[+]", "[-]"),
        Level::Comparison => ("==", "!="),
    };
    match sliteral(first).parse(input) {
        Ok((rest, value)) => Ok((rest, value)),
        Err(_) => sliteral(second).parse(input),
    }
}

/// The operand of a level.
fn operand<'a>(level: Level, input: &'a str) -> (r: ParseResult<'a, AST>)
    ensures
        tree_outcome(r) == sac_grammar::operand(level, input@),
        no_longer(r, input),
    decreases input@.len(), (level.rank() - 1) as nat,
{
    match level {
        Level::Product => unary(input),
        Level::Sum => binary(Level::Product, input),
        Level::Comparison => binary(Level::Sum, input),
    }
}

/// An operator of the level and the operand after it.
fn operation<'a>(level: Level, input: &'a str) -> (r: ParseResult<'a, (String, AST)>)
    ensures
        pair_outcome(r) == sac_grammar::operation(level, input@),
        no_longer(r, input),
    decreases input@.len(), level.rank(),
{
    match operator(level, input) {
        Ok((rest, op)) => match operand(level, rest) {
            Ok((after, rhs)) => Ok((after, (op, rhs))),
            Err(at) => Err(at),
        },
        Err(at) => Err(at),
    }
}

/// A level of binary operators.
fn binary<'a>(level: Level, input: &'a str) -> (r: ParseResult<'a, AST>)
    ensures
        tree_outcome(r) == sac_grammar::binary(level, input@),
        no_longer(r, input),
    decreases input@.len(), level.rank() + 2,
{
    match operand(level, input) {
        Ok((rest, left)) => {
            let mut pairs: Vec<(String, AST)> = Vec::new();
            let mut end: &'a str = rest;
            assert(pairs_view(pairs@) =~= Seq::empty());
            loop
                invariant
                    end@.len() <= rest@.len() <= input@.len(),
                    sac_grammar::operand(level, input@) == (Outcome::Matched {
                        rest: rest@,
                        value: left@,
                    }),
                    sac_grammar::operations(level, end@, pairs_view(pairs@))
                        == sac_grammar::operations(level, rest@, Seq::empty()),
                decreases end@.len(),
            {
                match operation(level, end) {
                    Ok((next, pair)) => {
                        if next.unicode_len() < end.unicode_len() {
                            let ghost seen = pairs_view(pairs@);
                            let ghost value = (pair.0@, pair.1@);
                            pairs.push(pair);
                            assert(pairs_view(pairs@) =~= seen.push(value));
                            end = next;
                        } else {
                            return Ok((end, fold_binary(level, left, pairs, input)));
                        }
                    },
                    Err(_) => {
                        return Ok((end, fold_binary(level, left, pairs, input)));
                    },
                }
            }
        },
        Err(at) => Err(at),
    }
}

/// A product: unary expressions joined by `*` and `/`.
pub fn product<'a>(input: &'a str) -> (r: ParseResult<'a, AST>)
    ensures
        tree_outcome(r) == sac_grammar::product(input@),
        no_longer(r, input),
{
    binary(Level::Product, input)
}

/// A sum: products joined by `+` and `-`.
pub fn sum<'a>(input: &'a str) -> (r: ParseResult<'a, AST>)
    ensures
        tree_outcome(r) == sac_grammar::sum(input@),
        no_longer(r, input),
{
    binary(Level::Sum, input)
}

/// A comparison: sums joined by `==` and `!=`.
pub fn comparison<'a>(input: &'a str) -> (r: ParseResult<'a, AST>)
    ensures
        tree_outcome(r) == sac_grammar::comparison(input@),
        no_longer(r, input),
{
    binary(Level::Comparison, input)
}

/// An expression.
pub fn expression<'a>(input: &'a str) -> (r: ParseResult<'a, AST>)
    ensures
        tree_outcome(r) == sac_grammar::expression(input@),
        no_longer(r, input),
    decreases input@.len(), 16nat,
{
    match ignored(input) {
        Ok((start, _)) => binary(Level::Comparison, start),
        Err(at) => Err(at),
    }
}

/// An atom with or without `!` before it.
pub fn unary<'a>(input: &'a str) -> (r: ParseResult<'a, AST>)
    ensures
        tree_outcome(r) == sac_grammar::unary(input@),
        no_longer(r, input),
    decreases input@.len(), 3nat,
{
    match sliteral("!").parse(input) {
        Ok((rest, not)) => match atom(rest) {
            Ok((after, term)) => {
                if not.as_str().is_empty() {
                    Ok((after, term))
                } else {
                    Ok((after, AST::Not { target: Box::new(term), span: Span::new_dud() }))
                }
            },
            Err(at) => Err(at),
        },
        Err(_) => atom(input),
    }
}

/// An expression between parentheses.
fn parenthesized<'a>(input: &'a str) -> (r: ParseResult<'a, AST>)
    ensures
        tree_outcome(r) == sac_grammar::parenthesized(input@),
        no_longer(r, input),
    decreases input@.len(), 1nat,
{
    match sliteral("[(]").parse(input) {
        Ok((rest, _)) => {
            if rest.unicode_len() >= input.unicode_len() {
                return Err(input);
            }
            match expression(rest) {
                Ok((after, value)) => match sliteral("[)]").parse(after) {
                    Ok((end, _)) => Ok((end, value)),
                    Err(_) => Err(after),
                },
                Err(at) => Err(at),
            }
        },
        Err(_) => Err(input),
    }
}

/// An atom: a call, an identifier, a number, a character, a string or an
/// expression between parentheses.
pub fn atom<'a>(input: &'a str) -> (r: ParseResult<'a, AST>)
    ensures
        tree_outcome(r) == sac_grammar::atom(input@),
        no_longer(r, input),
    decreases input@.len(), 2nat,
{
    let start = match ignored(input) {
        Ok((start, _)) => start,
        Err(at) => {
            return Err(at);
        },
    };
    if let Ok((rest, value)) = call(start) {
        return Ok((rest, value));
    }
    if let Ok((rest, value)) = id(start) {
        return Ok((rest, value));
    }
    if let Ok((rest, value)) = number(start) {
        return Ok((rest, value));
    }
    if let Ok((rest, value)) = chr(start) {
        return Ok((rest, value));
    }
    if let Ok((rest, value)) = sac_str(start) {
        return Ok((rest, value));
    }
    parenthesized(start)
}

/// A call.
pub fn call<'a>(input: &'a str) -> (r: ParseResult<'a, AST>)
    ensures
        tree_outcome(r) == sac_grammar::call(input@),
        no_longer(r, input),
    decreases input@.len(), 1nat,
{
    proof {
        sac_grammar::lemma_skip_ignored(input@);
    }
    match sident(input) {
        Ok((after_name, called)) => match sliteral("[(]").parse(after_name) {
            Ok((rest, _)) => match args(rest) {
                Ok((after_args, args)) => match sliteral("[)]").parse(after_args) {
                    Ok((end, _)) => {
                        let node = AST::Call { called, args, span: Span::new_dud() };
                        proof {
                            lemma_children(node);
                        }
                        Ok((end, node))
                    },
                    Err(_) => Err(after_args),
                },
                Err(at) => Err(at),
            },
            Err(_) => Err(after_name),
        },
        Err(at) => Err(at),
    }
}

/// A comma and the expression after it.
fn next_arg<'a>(input: &'a str) -> (r: ParseResult<'a, AST>)
    ensures
        tree_outcome(r) == sac_grammar::next_arg(input@),
        no_longer(r, input),
    decreases input@.len(), 17nat,
{
    match sliteral(",").parse(input) {
        Ok((rest, _)) => expression(rest),
        Err(_) => Err(input),
    }
}

/// The arguments of a call. It accepts every input: where no expression
/// stands, there are no arguments.
pub fn args<'a>(input: &'a str) -> (r: ParseResult<'a, Vec<AST>>)
    ensures
        r matches Ok((rest, items)) && (trees(items@), rest@) == sac_grammar::args(input@),
        no_longer(r, input),
    decreases input@.len(), 19nat,
{
    match expression(input) {
        Ok((rest, first)) => {
            let mut items: Vec<AST> = Vec::new();
            items.push(first);
            let mut end: &'a str = rest;
            assert(trees(items@) =~= seq![first@]);
            loop
                invariant
                    end@.len() <= rest@.len() <= input@.len(),
                    sac_grammar::more_args(end@, trees(items@)) == sac_grammar::args(input@),
                decreases end@.len(),
            {
                match next_arg(end) {
                    Ok((next, item)) => {
                        if next.unicode_len() < end.unicode_len() {
                            let ghost seen = trees(items@);
                            let ghost value = item@;
                            items.push(item);
                            assert(trees(items@) =~= seen.push(value));
                            end = next;
                        } else {
                            return Ok((end, items));
                        }
                    },
                    Err(_) => {
                        return Ok((end, items));
                    },
                }
            }
        },
        Err(_) => {
            let items: Vec<AST> = Vec::new();
            assert(trees(items@) =~= Seq::empty());
            Ok((input, items))
        },
    }
}

/// The semicolon that ends a statement, after the expression of the
/// statement was parsed with the result `after`.
fn ended<'a>(after: ParseResult<'a, AST>) -> (r: ParseResult<'a, AST>)
    ensures
        tree_outcome(r) == sac_grammar::ended(tree_outcome(after)),
        r matches Ok((end, _)) ==> after matches Ok((rest, _)) && end@.len() <= rest@.len(),
{
    match after {
        Ok((rest, value)) => match sliteral("[;]").parse(rest) {
            Ok((end, _)) => Ok((end, value)),
            Err(_) => Err(rest),
        },
        Err(at) => Err(at),
    }
}

/// A return statement.
pub fn return_s<'a>(input: &'a str) -> (r: ParseResult<'a, AST>)
    ensures
        tree_outcome(r) == sac_grammar::return_s(input@),
        no_longer(r, input),
{
    match sliteral("ret").parse(input) {
        Ok((rest, _)) => match ended(expression(rest)) {
            Ok((end, value)) => Ok(
                (end, AST::Return { value: Box::new(value), span: Span::new_dud() }),
            ),
            Err(at) => Err(at),
        },
        Err(_) => Err(input),
    }
}

/// An expression statement.
pub fn expr_s<'a>(input: &'a str) -> (r: ParseResult<'a, AST>)
    ensures
        tree_outcome(r) == sac_grammar::expr_s(input@),
        no_longer(r, input),
{
    ended(expression(input))
}

/// `=`, an expression and a semicolon.
fn initializer<'a>(input: &'a str) -> (r: ParseResult<'a, AST>)
    ensures
        tree_outcome(r) == sac_grammar::initializer(input@),
        no_longer(r, input),
{
    match sliteral("=").parse(input) {
        Ok((rest, _)) => ended(expression(rest)),
        Err(_) => Err(input),
    }
}

/// A variable declaration.
pub fn var_s<'a>(input: &'a str) -> (r: ParseResult<'a, AST>)
    ensures
        tree_outcome(r) == sac_grammar::var_s(input@),
        no_longer(r, input),
{
    match sliteral("mut").parse(input) {
        Ok((rest, _)) => match sidentifier(rest) {
            Ok((after, name)) => match initializer(after) {
                Ok((end, value)) => Ok(
                    (end, AST::Variable { span: Span::new_dud(), name, value: Box::new(value) }),
                ),
                Err(at) => Err(at),
            },
            Err(at) => Err(at),
        },
        Err(_) => Err(input),
    }
}

/// An assignment.
pub fn assign_s<'a>(input: &'a str) -> (r: ParseResult<'a, AST>)
    ensures
        tree_outcome(r) == sac_grammar::assign_s(input@),
        no_longer(r, input),
{
    match sidentifier(input) {
        Ok((after, name)) => match initializer(after) {
            Ok((end, value)) => Ok(
                (end, AST::Assignment { span: Span::new_dud(), name, value: Box::new(value) }),
            ),
            Err(at) => Err(at),
        },
        Err(at) => Err(at),
    }
}

/// A comma and the identifier after it.
fn next_param<'a>(input: &'a str) -> (r: ParseResult<'a, String>)
    ensures
        text_outcome(r) == sac_grammar::next_param(input@),
        no_longer(r, input),
{
    match sliteral("[,]").parse(input) {
        Ok((rest, _)) => sidentifier(rest),
        Err(_) => Err(input),
    }
}

/// The parameters of a function. It accepts every input: where no
/// identifier stands, there are no parameters.
pub fn params<'a>(input: &'a str) -> (r: ParseResult<'a, Vec<String>>)
    ensures
        r matches Ok((rest, items)) && (texts(items@), rest@) == sac_grammar::params(input@),
        no_longer(r, input),
{
    match sidentifier(input) {
        Ok((rest, first)) => {
            let mut items: Vec<String> = Vec::new();
            let ghost name = first@;
            items.push(first);
            let mut end: &'a str = rest;
            assert(texts(items@) =~= seq![name]);
            loop
                invariant
                    end@.len() <= rest@.len() <= input@.len(),
                    sac_grammar::more_params(end@, texts(items@)) == sac_grammar::params(input@),
                decreases end@.len(),
            {
                match next_param(end) {
                    Ok((next, item)) => {
                        if next.unicode_len() < end.unicode_len() {
                            let ghost seen = texts(items@);
                            let ghost value = item@;
                            items.push(item);
                            assert(texts(items@) =~= seen.push(value));
                            end = next;
                        } else {
                            return Ok((end, items));
                        }
                    },
                    Err(_) => {
                        return Ok((end, items));
                    },
                }
            }
        },
        Err(_) => {
            let items: Vec<String> = Vec::new();
            assert(texts(items@) =~= Seq::empty());
            Ok((input, items))
        },
    }
}

/// The statements that the input starts with, and the input after them.
fn statements<'a>(input: &'a str) -> (r: (Vec<AST>, &'a str))
    ensures
        (trees(r.0@), r.1@) == sac_grammar::statements(input@, Seq::empty()),
        r.1@.len() <= input@.len(),
    decreases input@.len(), 4nat,
{
    let mut items: Vec<AST> = Vec::new();
    let mut end: &'a str = input;
    assert(trees(items@) =~= Seq::empty());
    loop
        invariant
            end@.len() <= input@.len(),
            sac_grammar::statements(end@, trees(items@)) == sac_grammar::statements(
                input@,
                Seq::empty(),
            ),
        decreases end@.len(),
    {
        match statement(end) {
            Ok((next, item)) => {
                if next.unicode_len() < end.unicode_len() {
                    let ghost seen = trees(items@);
                    let ghost value = item@;
                    items.push(item);
                    assert(trees(items@) =~= seen.push(value));
                    end = next;
                } else {
                    return (items, end);
                }
            },
            Err(_) => {
                return (items, end);
            },
        }
    }
}

/// A block of statements between braces.
pub fn block_s<'a>(input: &'a str) -> (r: ParseResult<'a, AST>)
    ensures
        tree_outcome(r) == sac_grammar::block_s(input@),
        no_longer(r, input),
    decreases input@.len(), 1nat,
{
    match sliteral("[{]").parse(input) {
        Ok((rest, _)) => {
            if rest.unicode_len() >= input.unicode_len() {
                return Err(input);
            }
            let (statements, end) = statements(rest);
            match sliteral("[}]").parse(end) {
                Ok((after, _)) => {
                    let node = AST::Block { statements, span: Span::new_dud() };
                    proof {
                        lemma_children(node);
                    }
                    Ok((after, node))
                },
                Err(_) => Err(end),
            }
        },
        Err(_) => Err(input),
    }
}

/// The two branches of a conditional, after its condition.
fn branches<'a>(condition: AST, input: &'a str) -> (r: ParseResult<'a, AST>)
    ensures
        tree_outcome(r) == sac_grammar::branches(condition@, input@),
        no_longer(r, input),
    decreases input@.len(), 5nat,
{
    match statement(input) {
        Ok((rest, then)) => match sliteral("else").parse(rest) {
            Ok((after_else, _)) => match statement(after_else) {
                Ok((end, c_else)) => Ok(
                    (
                        end,
                        AST::IfCond {
                            span: Span::new_dud(),
                            condition: Box::new(condition),
                            then: Box::new(then),
                            c_else: Box::new(c_else),
                        },
                    ),
                ),
                Err(at) => Err(at),
            },
            Err(_) => Err(rest),
        },
        Err(at) => Err(at),
    }
}

/// A conditional with both branches.
pub fn if_s<'a>(input: &'a str) -> (r: ParseResult<'a, AST>)
    ensures
        tree_outcome(r) == sac_grammar::if_s(input@),
        no_longer(r, input),
    decreases input@.len(), 1nat,
{
    match sliteral("if").parse(input) {
        Ok((rest, _)) => match expression(rest) {
            Ok((rest, condition)) => {
                if rest.unicode_len() >= input.unicode_len() {
                    Err(input)
                } else {
                    branches(condition, rest)
                }
            },
            Err(at) => Err(at),
        },
        Err(_) => Err(input),
    }
}

/// A loop.
pub fn while_s<'a>(input: &'a str) -> (r: ParseResult<'a, AST>)
    ensures
        tree_outcome(r) == sac_grammar::while_s(input@),
        no_longer(r, input),
    decreases input@.len(), 1nat,
{
    let rest = match sliteral("while").parse(input) {
        Ok((rest, _)) => rest,
        Err(_) => {
            return Err(input);
        },
    };
    let (rest, condition) = match expression(rest) {
        Ok(found) => found,
        Err(at) => {
            return Err(at);
        },
    };
    if rest.unicode_len() >= input.unicode_len() {
        return Err(input);
    }
    match statement(rest) {
        Ok((end, body)) => Ok(
            (
                end,
                AST::WhileLoop {
                    span: Span::new_dud(),
                    condition: Box::new(condition),
                    body: Box::new(body),
                },
            ),
        ),
        Err(at) => Err(at),
    }
}

/// A function definition.
pub fn fn_s<'a>(input: &'a str) -> (r: ParseResult<'a, AST>)
    ensures
        tree_outcome(r) == sac_grammar::fn_s(input@),
        no_longer(r, input),
    decreases input@.len(), 2nat,
{
    let rest = match sliteral(":").parse(input) {
        Ok((rest, _)) => rest,
        Err(_) => {
            return Err(input);
        },
    };
    let (rest, name) = match sidentifier(rest) {
        Ok(found) => found,
        Err(at) => {
            return Err(at);
        },
    };
    let (rest, params) = match params(rest) {
        Ok(found) => found,
        Err(at) => {
            return Err(at);
        },
    };
    match block_s(rest) {
        Ok((end, body)) => Ok(
            (end, AST::FunctionDef { span: Span::new_dud(), name, params, body: Box::new(body) }),
        ),
        Err(at) => Err(at),
    }
}

/// A statement.
pub fn statement<'a>(input: &'a str) -> (r: ParseResult<'a, AST>)
    ensures
        tree_outcome(r) == sac_grammar::statement(input@),
        no_longer(r, input),
    decreases input@.len(), 3nat,
{
    if let Ok((rest, value)) = return_s(input) {
        return Ok((rest, value));
    }
    if let Ok((rest, value)) = fn_s(input) {
        return Ok((rest, value));
    }
    if let Ok((rest, value)) = if_s(input) {
        return Ok((rest, value));
    }
    if let Ok((rest, value)) = while_s(input) {
        return Ok((rest, value));
    }
    if let Ok((rest, value)) = var_s(input) {
        return Ok((rest, value));
    }
    if let Ok((rest, value)) = assign_s(input) {
        return Ok((rest, value));
    }
    if let Ok((rest, value)) = block_s(input) {
        return Ok((rest, value));
    }
    expr_s(input)
}

/// A program: all statements that the input starts with, in one block.
/// What it leaves of the input is what no statement matches.
pub fn sac_parser<'a>(input: &'a str) -> (r: ParseResult<'a, AST>)
    ensures
        r matches Ok((rest, tree)) && (tree@, rest@) == sac_grammar::program(input@),
        no_longer(r, input),
{
    match ignored(input) {
        Ok((start, _)) => {
            let (statements, rest) = statements(start);
            let node = AST::Block { statements, span: Span::new_dud() };
            proof {
                lemma_children(node);
            }
            Ok((rest, node))
        },
        Err(at) => Err(at),
    }
}

} // verus!
