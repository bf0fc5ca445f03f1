use sac::frontend::ast::AST;
use sac::frontend::span::Span;

fn at(line: i32) -> Span {
    Span { file: "t.sac".to_string(), start_line: line, start_col: 1, end_line: line, end_col: 9 }
}

fn num(n: i32) -> AST {
    AST::Number { num: n, span: Span::new_dud() }
}

fn name(n: &str) -> AST {
    AST::Identifier { name: n.to_string(), span: Span::new_dud() }
}

fn samples() -> Vec<AST> {
    vec![
        num(1),
        name("a"),
        AST::StrLiteral { literal: "s".to_string() },
        AST::Not { target: Box::new(num(1)), span: Span::new_dud() },
        AST::Equals { lhs: Box::new(num(1)), rhs: Box::new(num(2)) },
        AST::NEquals { lhs: Box::new(num(1)), rhs: Box::new(num(2)) },
        AST::Add { lhs: Box::new(num(1)), rhs: Box::new(num(2)) },
        AST::Subtract { lhs: Box::new(num(1)), rhs: Box::new(num(2)) },
        AST::Multiply { lhs: Box::new(num(1)), rhs: Box::new(num(2)) },
        AST::Divide { lhs: Box::new(num(1)), rhs: Box::new(num(2)) },
        AST::Call { called: "f".to_string(), args: vec![num(1), name("a")], span: Span::new_dud() },
        AST::Return { value: Box::new(num(1)), span: Span::new_dud() },
        AST::Block { statements: vec![num(1), num(2)], span: Span::new_dud() },
        AST::IfCond {
            span: Span::new_dud(),
            condition: Box::new(num(1)),
            then: Box::new(num(2)),
            c_else: Box::new(num(3)),
        },
        AST::FunctionDef {
            span: Span::new_dud(),
            name: "f".to_string(),
            params: vec!["a".to_string(), "b".to_string()],
            body: Box::new(AST::Block { statements: vec![], span: Span::new_dud() }),
        },
        AST::Variable { span: Span::new_dud(), name: "v".to_string(), value: Box::new(num(1)) },
        AST::Assignment { span: Span::new_dud(), name: "v".to_string(), value: Box::new(num(1)) },
        AST::WhileLoop {
            span: Span::new_dud(),
            condition: Box::new(num(1)),
            body: Box::new(num(2)),
        },
        AST::Error { span: Span::new_dud(), msg: "m".to_string() },
    ]
}

#[test]
fn equals_is_reflexive_for_every_kind() {
    for node in samples() {
        assert!(node.equals(&node), "{:?}", node);
    }
}

#[test]
fn equals_is_false_across_kinds() {
    let nodes = samples();
    for (i, a) in nodes.iter().enumerate() {
        for (j, b) in nodes.iter().enumerate() {
            assert_eq!(a.equals(b), i == j, "{:?} and {:?}", a, b);
        }
    }
}

#[test]
fn a_number_never_equals_an_identifier() {
    assert!(!num(1).equals(&name("a")));
    assert!(!name("a").equals(&num(1)));
}

#[test]
fn equals_ignores_spans() {
    let a = AST::Call {
        called: "f".to_string(),
        args: vec![AST::Number { num: 1, span: at(1) }],
        span: at(2),
    };
    let b = AST::Call {
        called: "f".to_string(),
        args: vec![AST::Number { num: 1, span: at(7) }],
        span: at(9),
    };
    assert!(a.equals(&b));
    assert_ne!(a, b);
}

#[test]
fn equals_compares_numbers_names_and_children() {
    assert!(!num(1).equals(&num(2)));
    assert!(!name("a").equals(&name("b")));
    let call = |args: Vec<AST>| AST::Call { called: "f".to_string(), args, span: Span::new_dud() };
    assert!(!call(vec![num(1)]).equals(&call(vec![num(1), num(2)])));
    assert!(!call(vec![num(1), num(3)]).equals(&call(vec![num(1), num(2)])));
    assert!(call(vec![num(1), num(2)]).equals(&call(vec![num(1), num(2)])));
    let def = |params: Vec<&str>| AST::FunctionDef {
        span: Span::new_dud(),
        name: "f".to_string(),
        params: params.into_iter().map(|p| p.to_string()).collect(),
        body: Box::new(num(1)),
    };
    assert!(def(vec!["a", "b"]).equals(&def(vec!["a", "b"])));
    assert!(!def(vec!["a", "b"]).equals(&def(vec!["b", "a"])));
    assert!(!def(vec!["a"]).equals(&def(vec!["a", "b"])));
}

#[test]
fn equals_compares_error_messages() {
    let a = AST::Error { span: at(1), msg: "m".to_string() };
    let b = AST::Error { span: at(2), msg: "m".to_string() };
    let c = AST::Error { span: at(1), msg: "n".to_string() };
    assert!(a.equals(&b));
    assert!(!a.equals(&c));
}

#[test]
fn span_of_a_leaf_is_its_own() {
    assert_eq!(AST::Number { num: 1, span: at(3) }.get_span(), at(3));
    assert_eq!(AST::Identifier { name: "a".to_string(), span: at(4) }.get_span(), at(4));
    assert_eq!(AST::StrLiteral { literal: "s".to_string() }.get_span(), Span::new_dud());
}

#[test]
fn span_of_a_binary_operator_merges_its_operands() {
    let node = AST::Add {
        lhs: Box::new(AST::Number { num: 1, span: at(3) }),
        rhs: Box::new(AST::Number { num: 2, span: at(5) }),
    };
    assert_eq!(
        node.get_span(),
        Span { file: "t.sac".to_string(), start_line: 3, start_col: 1, end_line: 5, end_col: 9 }
    );
}

#[test]
fn span_of_a_return_merges_its_value() {
    let node = AST::Return { value: Box::new(AST::Number { num: 1, span: at(8) }), span: at(6) };
    assert_eq!(
        node.get_span(),
        Span { file: "t.sac".to_string(), start_line: 6, start_col: 1, end_line: 8, end_col: 9 }
    );
}

#[test]
fn span_of_a_statement_is_its_own() {
    let node = AST::WhileLoop {
        span: at(2),
        condition: Box::new(AST::Number { num: 1, span: at(3) }),
        body: Box::new(AST::Number { num: 2, span: at(4) }),
    };
    assert_eq!(node.get_span(), at(2));
}
