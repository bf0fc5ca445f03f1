use sac::codegen::builder::{Builder, CodegenError};
use sac::frontend::ast::AST;
use sac::frontend::sac_parser::sac_parser;
use sac::frontend::span::Span;

fn num(n: i32) -> AST {
    AST::Number { num: n, span: Span::new_dud() }
}

fn name(n: &str) -> AST {
    AST::Identifier { name: n.to_string(), span: Span::new_dud() }
}

fn call(called: &str, args: Vec<AST>) -> AST {
    AST::Call { called: called.to_string(), args, span: Span::new_dud() }
}

fn emitted(node: &AST) -> Result<Vec<String>, CodegenError> {
    let mut b = Builder::n("t.sac".to_string());
    node.emit_arm32(&mut b)?;
    Ok(b.lines().clone())
}

fn emitted_in(b: &mut Builder, node: &AST) -> Result<Vec<String>, CodegenError> {
    let before = b.lines().len();
    node.emit_arm32(b)?;
    Ok(b.lines()[before..].to_vec())
}

#[test]
fn number_loads_a_constant() {
    assert_eq!(emitted(&num(42)), Ok(vec!["  ldr r0, =42".to_string()]));
    assert_eq!(emitted(&num(-7)), Ok(vec!["  ldr r0, =-7".to_string()]));
    assert_eq!(emitted(&num(i32::MIN)), Ok(vec!["  ldr r0, =-2147483648".to_string()]));
}

#[test]
fn call_without_arguments_is_a_bare_branch() {
    assert_eq!(emitted(&call("f", vec![])), Ok(vec!["  bl f".to_string()]));
}

#[test]
fn call_with_one_argument_passes_it_in_r0() {
    assert_eq!(
        emitted(&call("f", vec![num(1)])),
        Ok(vec!["  ldr r0, =1".to_string(), "  bl f".to_string()])
    );
}

#[test]
fn call_with_two_to_four_arguments_goes_through_the_stack() {
    for count in 2..=4usize {
        let args: Vec<AST> = (0..count).map(|i| num(10 + i as i32)).collect();
        let mut expected = vec![format!("  sub sp, sp, #{}", 4 * count)];
        for i in 0..count {
            expected.push(format!("  ldr r0, ={}", 10 + i));
            expected.push(format!("  str r0, [sp, #{}]", 4 * i));
        }
        expected.push("  pop {r0, r1, r2, r3}".to_string());
        expected.push("  bl f".to_string());
        assert_eq!(emitted(&call("f", args)), Ok(expected));
    }
}

#[test]
fn call_with_five_arguments_fails() {
    let args: Vec<AST> = (0..5).map(num).collect();
    let mut b = Builder::n("t.sac".to_string());
    assert_eq!(call("f", args).emit_arm32(&mut b), Err(CodegenError::TooManyArguments));
    assert!(b.lines().is_empty());
}

#[test]
fn arguments_are_evaluated_from_left_to_right() {
    let node = call("f", vec![call("g", vec![]), call("h", vec![])]);
    assert_eq!(
        emitted(&node),
        Ok(vec![
            "  sub sp, sp, #8".to_string(),
            "  bl g".to_string(),
            "  str r0, [sp, #0]".to_string(),
            "  bl h".to_string(),
            "  str r0, [sp, #4]".to_string(),
            "  pop {r0, r1, r2, r3}".to_string(),
            "  bl f".to_string(),
        ])
    );
}

fn binary_tail(node: AST) -> Vec<String> {
    let lines = emitted(&node).expect("both operands are numbers");
    assert_eq!(
        lines[..4],
        [
            "  ldr r0, =6".to_string(),
            "  push {r0, ip}".to_string(),
            "  ldr r0, =3".to_string(),
            "  pop {r1, ip}".to_string(),
        ]
    );
    lines[4..].to_vec()
}

#[test]
fn binary_operators_save_the_left_operand_and_apply() {
    let l = || Box::new(num(6));
    let r = || Box::new(num(3));
    assert_eq!(binary_tail(AST::Add { lhs: l(), rhs: r() }), vec!["  add r0, r0, r1"]);
    assert_eq!(binary_tail(AST::Subtract { lhs: l(), rhs: r() }), vec!["  sub r0, r1, r0"]);
    assert_eq!(
        binary_tail(AST::Multiply { lhs: l(), rhs: r() }),
        vec!["  mul r2, r0, r1", "  mov r0, r2"]
    );
    assert_eq!(binary_tail(AST::Divide { lhs: l(), rhs: r() }), vec!["  udiv r0, r1, r0"]);
    assert_eq!(
        binary_tail(AST::Equals { lhs: l(), rhs: r() }),
        vec!["  cmp r0, r1", "  moveq r0, #1", "  movne r0, #0"]
    );
    assert_eq!(
        binary_tail(AST::NEquals { lhs: l(), rhs: r() }),
        vec!["  cmp r0, r1", "  moveq r0, #0", "  movne r0, #1"]
    );
}

#[test]
fn not_compares_with_zero() {
    let node = AST::Not { target: Box::new(num(0)), span: Span::new_dud() };
    assert_eq!(
        emitted(&node),
        Ok(vec![
            "  ldr r0, =0".to_string(),
            "  cmp r0, #0".to_string(),
            "  moveq r0, #1".to_string(),
            "  movne r0, #0".to_string(),
        ])
    );
}

#[test]
fn conditional_takes_two_labels() {
    let node = AST::IfCond {
        span: Span::new_dud(),
        condition: Box::new(num(1)),
        then: Box::new(num(2)),
        c_else: Box::new(num(3)),
    };
    let mut b = Builder::n("t.sac".to_string());
    assert_eq!(
        emitted_in(&mut b, &node),
        Ok(vec![
            "  ldr r0, =1".to_string(),
            "  cmp r0, #0".to_string(),
            "  beq .SacLabel0".to_string(),
            "  ldr r0, =2".to_string(),
            "  b .SacLabel1".to_string(),
            ".SacLabel0:".to_string(),
            "  ldr r0, =3".to_string(),
            ".SacLabel1:".to_string(),
        ])
    );
    let again = emitted_in(&mut b, &node).expect("a second conditional");
    assert_eq!(again[2], "  beq .SacLabel2");
    assert_eq!(again[4], "  b .SacLabel3");
}

#[test]
fn loop_tests_at_the_head_and_branches_back() {
    let node = AST::WhileLoop {
        span: Span::new_dud(),
        condition: Box::new(num(1)),
        body: Box::new(call("f", vec![])),
    };
    assert_eq!(
        emitted(&node),
        Ok(vec![
            ".SacLabel0:".to_string(),
            "  ldr r0, =1".to_string(),
            "  cmp r0, #0".to_string(),
            "  beq .SacLabel1".to_string(),
            "  bl f".to_string(),
            "  b .SacLabel0".to_string(),
            ".SacLabel1:".to_string(),
        ])
    );
}

fn function(params: Vec<&str>, body: Vec<AST>) -> AST {
    AST::FunctionDef {
        span: Span::new_dud(),
        name: "f".to_string(),
        params: params.into_iter().map(|p| p.to_string()).collect(),
        body: Box::new(AST::Block { statements: body, span: Span::new_dud() }),
    }
}

#[test]
fn function_pushes_its_parameters_by_arity() {
    let pushes = [
        None,
        Some("  push {r0, fp}"),
        Some("  push {r0, r1}"),
        Some("  push {r0, r1, r2, fp}"),
        Some("  push {r0, r1, r2, r3}"),
    ];
    let names = ["a", "b", "c", "d"];
    for (count, push) in pushes.iter().enumerate() {
        let mut expected = vec![
            "".to_string(),
            ".global f".to_string(),
            "f:".to_string(),
            "  push {fp, lr}".to_string(),
            "  mov fp, sp".to_string(),
        ];
        if let Some(push) = push {
            expected.push(push.to_string());
        }
        expected.push("  mov sp, fp".to_string());
        expected.push("  mov r0, #0".to_string());
        expected.push("  pop {fp, pc}".to_string());
        assert_eq!(emitted(&function(names[..count].to_vec(), vec![])), Ok(expected));
    }
}

#[test]
fn function_with_five_parameters_fails() {
    let node = function(vec!["a", "b", "c", "d", "e"], vec![]);
    let mut b = Builder::n("t.sac".to_string());
    assert_eq!(node.emit_arm32(&mut b), Err(CodegenError::TooManyParameters));
    assert!(b.lines().is_empty());
}

#[test]
fn parameters_resolve_inside_the_function_only() {
    let node = function(vec!["a", "b"], vec![name("a"), name("b")]);
    let mut b = Builder::n("t.sac".to_string());
    let lines = emitted_in(&mut b, &node).expect("both names are parameters");
    assert_eq!(lines[6], "  ldr r0, #-8");
    assert_eq!(lines[7], "  ldr r0, #-4");
    assert_eq!(b.try_get(&"a".to_string()), None);
    assert_eq!(
        name("a").emit_arm32(&mut b),
        Err(CodegenError::UndefinedVariable { name: "a".to_string() })
    );
}

#[test]
fn undefined_identifier_fails() {
    assert_eq!(
        emitted(&name("nowhere")),
        Err(CodegenError::UndefinedVariable { name: "nowhere".to_string() })
    );
}

#[test]
fn declaration_pushes_and_binds() {
    let declare = AST::Variable {
        span: Span::new_dud(),
        name: "v".to_string(),
        value: Box::new(num(5)),
    };
    let node = function(vec!["a"], vec![declare, name("v")]);
    let lines = emitted(&node).expect("v is declared before it is read");
    assert_eq!(lines[6..9], ["  ldr r0, =5", "  push {r0, ip}", "  ldr r0, #-8"]);
}

#[test]
fn assignment_stores_to_the_declared_slot() {
    let assign = AST::Assignment {
        span: Span::new_dud(),
        name: "a".to_string(),
        value: Box::new(num(5)),
    };
    let lines = emitted(&function(vec!["a"], vec![assign])).expect("a is a parameter");
    assert_eq!(lines[6..8], ["  ldr r0, =5", "  str r0, #-4"]);
}

#[test]
fn assignment_to_an_undeclared_name_fails_after_its_value() {
    let assign = AST::Assignment {
        span: Span::new_dud(),
        name: "a".to_string(),
        value: Box::new(num(5)),
    };
    let mut b = Builder::n("t.sac".to_string());
    assert_eq!(
        assign.emit_arm32(&mut b),
        Err(CodegenError::UndefinedVariable { name: "a".to_string() })
    );
    assert_eq!(b.lines().len(), 1);
}

#[test]
fn return_leaves_the_frame() {
    let node = AST::Return { value: Box::new(num(1)), span: Span::new_dud() };
    assert_eq!(
        emitted(&node),
        Ok(vec![
            "  ldr r0, =1".to_string(),
            "  mov sp, fp".to_string(),
            "  pop {fp, pc}".to_string(),
        ])
    );
}

#[test]
fn string_literal_loads_its_label() {
    let hello = AST::StrLiteral { literal: "Hello".to_string() };
    let world = AST::StrLiteral { literal: "World".to_string() };
    let node = AST::Block {
        statements: vec![hello, world, AST::StrLiteral { literal: "Hello".to_string() }],
        span: Span::new_dud(),
    };
    let mut b = Builder::n("t.sac".to_string());
    assert_eq!(
        emitted_in(&mut b, &node),
        Ok(vec![
            "  ldr r0, =.SacLabelInterned0".to_string(),
            "  ldr r0, =.SacLabelInterned1".to_string(),
            "  ldr r0, =.SacLabelInterned0".to_string(),
        ])
    );
    assert_eq!(b.assembly().matches(".string \"Hello\"").count(), 1);
}

#[test]
fn error_node_has_no_lowering() {
    let node = AST::Error { span: Span::new_dud(), msg: "m".to_string() };
    assert_eq!(emitted(&node), Err(CodegenError::Unimplemented));
}

#[test]
fn a_fault_ends_the_block() {
    let node = AST::Block {
        statements: vec![num(1), name("nowhere"), num(2)],
        span: Span::new_dud(),
    };
    let mut b = Builder::n("t.sac".to_string());
    assert_eq!(
        node.emit_arm32(&mut b),
        Err(CodegenError::UndefinedVariable { name: "nowhere".to_string() })
    );
    assert_eq!(b.lines().len(), 1);
}

const FACTORIAL: &str = r#"
:factorial n {
    mut res = 1;
    while n != 1 {
        res = res * n;
        n = n - 1;
    }
    ret res;
}"#;

#[test]
fn factorial_parses_to_a_function_of_one_parameter() {
    let (rest, tree) = sac_parser(FACTORIAL).expect("a program");
    assert_eq!(rest, "");
    match tree {
        AST::Block { statements, .. } => {
            assert_eq!(statements.len(), 1);
            match &statements[0] {
                AST::FunctionDef { name, params, .. } => {
                    assert_eq!(name, "factorial");
                    assert_eq!(params, &vec!["n".to_string()]);
                },
                other => panic!("{:?}", other),
            }
        },
        other => panic!("{:?}", other),
    }
}

#[test]
fn factorial_lowers_to_prologue_loop_body_and_return() {
    let (_, tree) = sac_parser(FACTORIAL).expect("a program");
    let lines = emitted(&tree).expect("a listing");
    let expected = vec![
        "",
        ".global factorial",
        "factorial:",
        "  push {fp, lr}",
        "  mov fp, sp",
        "  push {r0, fp}",
        "  ldr r0, =1",
        "  push {r0, ip}",
        ".SacLabel0:",
        "  ldr r0, #-4",
        "  push {r0, ip}",
        "  ldr r0, =1",
        "  pop {r1, ip}",
        "  cmp r0, r1",
        "  moveq r0, #0",
        "  movne r0, #1",
        "  cmp r0, #0",
        "  beq .SacLabel1",
        "  ldr r0, #-8",
        "  push {r0, ip}",
        "  ldr r0, #-4",
        "  pop {r1, ip}",
        "  mul r2, r0, r1",
        "  mov r0, r2",
        "  str r0, #-8",
        "  ldr r0, #-4",
        "  push {r0, ip}",
        "  ldr r0, =1",
        "  pop {r1, ip}",
        "  sub r0, r1, r0",
        "  str r0, #-4",
        "  b .SacLabel0",
        ".SacLabel1:",
        "  ldr r0, #-8",
        "  mov sp, fp",
        "  pop {fp, pc}",
        "  mov sp, fp",
        "  mov r0, #0",
        "  pop {fp, pc}",
    ];
    assert_eq!(lines, expected);
}

#[test]
fn factorial_has_the_categories_in_order() {
    let (_, tree) = sac_parser(FACTORIAL).expect("a program");
    let lines = emitted(&tree).expect("a listing");
    let position = |wanted: &str, from: usize| -> usize {
        from + lines[from..]
            .iter()
            .position(|l| l.trim_start().starts_with(wanted))
            .unwrap_or_else(|| panic!("no `{}` after line {}", wanted, from))
    };
    let prologue = position("push {fp, lr}", 0);
    let head = position(".SacLabel0:", prologue);
    let test = position("cmp r0, #0", head);
    let exit = position("beq .SacLabel1", test);
    let multiply = position("mul ", exit);
    let subtract = position("sub ", multiply);
    let back = position("b .SacLabel0", subtract);
    let done = position(".SacLabel1:", back);
    let ret = position("pop {fp, pc}", done);
    assert!(ret < lines.len());
}
