use sac::frontend::ast::AST;
use sac::frontend::parser::{match_regex, try_match_regex, Parser};
use sac::frontend::sac_grammar::Level;
use sac::frontend::sac_parser::{
    combine, comparison, expression, fold_binary, if_s, ignored, number, params, sident,
    sidentifier,
    sliteral, statement,
};
use sac::frontend::span::Span;

fn num(n: i32) -> AST {
    AST::Number { num: n, span: Span::new_dud() }
}

fn name(n: &str) -> AST {
    AST::Identifier { name: n.to_string(), span: Span::new_dud() }
}

fn add(l: AST, r: AST) -> AST {
    AST::Add { lhs: Box::new(l), rhs: Box::new(r) }
}

#[test]
fn sums_fold_from_the_left() {
    assert_eq!(expression("1 + 2 + 3"), Ok(("", add(add(num(1), num(2)), num(3)))));
    assert_eq!(
        expression("1 - 2 - 3 - 4"),
        Ok((
            "",
            AST::Subtract {
                lhs: Box::new(AST::Subtract {
                    lhs: Box::new(AST::Subtract { lhs: Box::new(num(1)), rhs: Box::new(num(2)) }),
                    rhs: Box::new(num(3)),
                }),
                rhs: Box::new(num(4)),
            }
        ))
    );
}

#[test]
fn products_bind_tighter_than_sums() {
    assert_eq!(
        expression("1 + 2 * 3"),
        Ok(("", add(num(1), AST::Multiply { lhs: Box::new(num(2)), rhs: Box::new(num(3)) })))
    );
    assert_eq!(
        expression("1 * 2 + 3"),
        Ok(("", add(AST::Multiply { lhs: Box::new(num(1)), rhs: Box::new(num(2)) }, num(3))))
    );
}

#[test]
fn comparisons_fold_from_the_left() {
    assert_eq!(
        comparison("a == b != c"),
        Ok((
            "",
            AST::NEquals {
                lhs: Box::new(AST::Equals { lhs: Box::new(name("a")), rhs: Box::new(name("b")) }),
                rhs: Box::new(name("c")),
            }
        ))
    );
}

#[test]
fn parentheses_group() {
    assert_eq!(
        expression("(1 + 2) * 3"),
        Ok(("", AST::Multiply { lhs: Box::new(add(num(1), num(2))), rhs: Box::new(num(3)) }))
    );
    assert_eq!(expression("(1 + 2"), Err(""));
}

#[test]
fn fold_binary_nests_to_the_left() {
    let pairs = vec![("+".to_string(), num(2)), ("-".to_string(), num(3))];
    assert_eq!(
        fold_binary(Level::Sum, num(1), pairs, "1 + 2 - 3"),
        AST::Subtract { lhs: Box::new(add(num(1), num(2))), rhs: Box::new(num(3)) }
    );
    assert_eq!(fold_binary(Level::Sum, num(1), vec![], ""), num(1));
}

#[test]
fn combine_makes_the_node_of_the_operator() {
    let l = || num(1);
    let r = || num(2);
    let boxed = |n: AST| Box::new(n);
    assert_eq!(
        combine(Level::Product, l(), "*", r(), "in"),
        AST::Multiply { lhs: boxed(l()), rhs: boxed(r()) }
    );
    assert_eq!(
        combine(Level::Product, l(), "/", r(), "in"),
        AST::Divide { lhs: boxed(l()), rhs: boxed(r()) }
    );
    assert_eq!(
        combine(Level::Sum, l(), "+", r(), "in"),
        AST::Add { lhs: boxed(l()), rhs: boxed(r()) }
    );
    assert_eq!(
        combine(Level::Sum, l(), "-", r(), "in"),
        AST::Subtract { lhs: boxed(l()), rhs: boxed(r()) }
    );
    assert_eq!(
        combine(Level::Comparison, l(), "==", r(), "in"),
        AST::Equals { lhs: boxed(l()), rhs: boxed(r()) }
    );
    assert_eq!(
        combine(Level::Comparison, l(), "!=", r(), "in"),
        AST::NEquals { lhs: boxed(l()), rhs: boxed(r()) }
    );
    assert_eq!(
        combine(Level::Sum, l(), "*", r(), "in"),
        AST::Error { span: Span::new_dud(), msg: "".to_string() }
    );
    assert_eq!(
        combine(Level::Comparison, l(), "+", r(), "in"),
        AST::Error { span: Span::new_dud(), msg: "in".to_string() }
    );
}

#[test]
fn ignored_skips_whitespace_and_comments() {
    assert_eq!(ignored("  \n\t x"), Ok(("x", ())));
    assert_eq!(ignored("// to the end of the line\nx"), Ok(("x", ())));
    assert_eq!(ignored("/* over\n lines */ x"), Ok(("x", ())));
    assert_eq!(ignored(" /* a */ // b\n /* c */x // d"), Ok(("x // d", ())));
    assert_eq!(ignored("x"), Ok(("x", ())));
    assert_eq!(ignored(""), Ok(("", ())));
    assert_eq!(ignored("/ x"), Ok(("/ x", ())));
}

#[test]
fn sliteral_gives_up_after_the_whitespace() {
    let open = sliteral("[(]");
    assert_eq!(open.parse("  (x"), Ok(("x", "(".to_string())));
    assert_eq!(open.parse("  x"), Err("x"));
    assert_eq!(sliteral("(").parse("  (x"), Err("(x"));
}

#[test]
fn identifiers_after_whitespace() {
    assert_eq!(sident("  abc def"), Ok((" def", "abc".to_string())));
    assert_eq!(sidentifier("  abc def"), Ok((" def", "abc".to_string())));
    assert_eq!(sident("  1"), Err("1"));
}

#[test]
fn number_reads_digits_that_fit() {
    assert_eq!(number("2147483647;"), Ok((";", num(2147483647))));
    assert_eq!(number("2147483648;"), Err("2147483648;"));
    assert_eq!(number("x"), Err("x"));
}

#[test]
fn params_are_separated_by_commas() {
    assert_eq!(params(" a, b ,c {"), Ok((" {", vec!["a".into(), "b".into(), "c".into()])));
    assert_eq!(params(" a, {"), Ok((", {", vec!["a".to_string()])));
    assert_eq!(params(" {"), Ok((" {", vec![])));
}

#[test]
fn the_first_statement_that_matches_wins() {
    assert_eq!(
        statement("ret 1;"),
        Ok(("", AST::Return { value: Box::new(num(1)), span: Span::new_dud() }))
    );
    assert_eq!(
        statement("retry = 1;"),
        Ok((
            "",
            AST::Assignment {
                span: Span::new_dud(),
                name: "retry".to_string(),
                value: Box::new(num(1)),
            }
        ))
    );
    assert_eq!(statement("f(1);"), Ok(("", AST::Call {
        called: "f".to_string(),
        args: vec![num(1)],
        span: Span::new_dud(),
    })));
    assert_eq!(statement("1"), Err(""));
}

#[test]
fn if_needs_its_else() {
    assert_eq!(if_s("if a ret 1;"), Err(""));
    assert_eq!(if_s("if a ret 1; els ret 2;"), Err(" els ret 2;"));
    assert_eq!(statement("if a ret 1;"), Err(" a ret 1;"));
}

#[test]
fn match_regex_counts_a_match_at_the_start_only() {
    let digits = match_regex("[0-9]+");
    assert_eq!(digits.parse("12ab"), Ok(("ab", "12".to_string())));
    assert_eq!(digits.parse("ab12"), Err("ab12"));
    assert_eq!(match_regex("é+").parse("ééa"), Ok(("a", "éé".to_string())));
}

#[test]
fn try_match_regex_tells_an_invalid_pattern() {
    assert_eq!(try_match_regex("[0-9]+", "12ab"), Some(Ok(("ab", "12".to_string()))));
    assert_eq!(try_match_regex("[0-9]+", "ab"), Some(Err("ab")));
    assert_eq!(try_match_regex("(", "ab"), None);
}
