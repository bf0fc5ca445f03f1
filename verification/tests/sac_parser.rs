use sac::frontend::ast::AST;
use sac::frontend::sac_parser::{
    args, assign_s, atom, block_s, call, chr, comparison, expr_s, fn_s, id, if_s, product,
    return_s, sac_parser, sac_str, sum, unary, var_s, while_s,
};
use sac::frontend::span::Span;

#[test]
fn test_id() {
    assert_eq!(
        Ok((
            "",
            AST::Identifier {
                name: "abcd_1".into(),
                span: Span::new_dud()
            }
        )),
        id("abcd_1")
    );
}

#[test]
fn test_args() {
    assert_eq!(
        args("a, b, c"),
        Ok((
            "",
            vec![
                AST::Identifier {
                    name: "a".into(),
                    span: Span::new_dud()
                },
                AST::Identifier {
                    name: "b".into(),
                    span: Span::new_dud()
                },
                AST::Identifier {
                    name: "c".into(),
                    span: Span::new_dud()
                }
            ],
        ))
    );
    assert_eq!(args(""), Ok(("", vec![],)))
}

#[test]
fn test_call() {
    assert_eq!(
        call("fib(a,      b,      c)"),
        Ok((
            "",
            AST::Call {
                called: "fib".into(),
                args: vec![
                    AST::Identifier {
                        name: "a".into(),
                        span: Span::new_dud()
                    },
                    AST::Identifier {
                        name: "b".into(),
                        span: Span::new_dud()
                    },
                    AST::Identifier {
                        name: "c".into(),
                        span: Span::new_dud()
                    }
                ],
                span: Span::new_dud()
            }
        ))
    );

    assert_eq!(
        call("printf(\"Hello, World!\")"),
        Ok((
            "",
            AST::Call {
                called: "printf".into(),
                args: vec![AST::StrLiteral {
                    literal: "Hello, World!".into(),
                }],
                span: Span::new_dud()
            }
        ))
    );
}

#[test]
fn test_sac_str() {
    assert_eq!(
        Ok((
            "",
            AST::StrLiteral {
                literal: "Hello, World!".into()
            }
        )),
        sac_str("\"Hello, World!\"")
    )
}

#[test]
fn test_chr() {
    assert_eq!(
        chr("'A'"),
        Ok((
            "",
            AST::Number {
                num: 65,
                span: Span::new_dud()
            }
        ))
    )
}

#[test]
fn test_atom() {
    assert_eq!(
        atom("a"),
        Ok((
            "",
            AST::Identifier {
                name: "a".into(),
                span: Span::new_dud(),
            }
        ))
    );
    assert_eq!(
        atom("321"),
        Ok((
            "",
            AST::Number {
                span: Span::new_dud(),
                num: 321
            }
        ))
    );
    assert_eq!(
        atom("(   (321))"),
        Ok((
            "",
            AST::Number {
                span: Span::new_dud(),
                num: 321
            }
        ))
    );
}

#[test]
fn test_unary() {
    assert_eq!(
        unary("!abcd"),
        Ok((
            "",
            AST::Not {
                target: Box::new(AST::Identifier {
                    name: "abcd".into(),
                    span: Span::new_dud()
                }),
                span: Span::new_dud()
            }
        ))
    );

    assert_eq!(
        unary("abcd"),
        Ok((
            "",
            AST::Identifier {
                name: "abcd".into(),
                span: Span::new_dud()
            },
        ))
    );
}

#[test]
fn test_product() {
    assert_eq!(
        product("1"),
        Ok((
            "",
            AST::Number {
                num: 1,
                span: Span::new_dud()
            }
        ))
    );
    assert_eq!(
        product("1     *    3 /   4"),
        Ok((
            "",
            AST::Divide {
                lhs: Box::new(AST::Multiply {
                    lhs: Box::new(AST::Number {
                        num: 1,
                        span: Span::new_dud()
                    }),
                    rhs: Box::new(AST::Number {
                        num: 3,
                        span: Span::new_dud()
                    })
                }),
                rhs: Box::new(AST::Number {
                    num: 4,
                    span: Span::new_dud()
                })
            }
        ))
    )
}

#[test]
fn test_sum() {
    assert_eq!(
        sum("1"),
        Ok((
            "",
            AST::Number {
                num: 1,
                span: Span::new_dud()
            }
        ))
    );
    assert_eq!(
        sum("1     *    3 /   4"),
        Ok((
            "",
            AST::Divide {
                lhs: Box::new(AST::Multiply {
                    lhs: Box::new(AST::Number {
                        num: 1,
                        span: Span::new_dud()
                    }),
                    rhs: Box::new(AST::Number {
                        num: 3,
                        span: Span::new_dud()
                    })
                }),
                rhs: Box::new(AST::Number {
                    num: 4,
                    span: Span::new_dud()
                })
            }
        ))
    );
    assert_eq!(
        sum("1     +    3 -   4"),
        Ok((
            "",
            AST::Subtract {
                lhs: Box::new(AST::Add {
                    lhs: Box::new(AST::Number {
                        num: 1,
                        span: Span::new_dud()
                    }),
                    rhs: Box::new(AST::Number {
                        num: 3,
                        span: Span::new_dud()
                    })
                }),
                rhs: Box::new(AST::Number {
                    num: 4,
                    span: Span::new_dud()
                })
            }
        ))
    );
    assert_eq!(
        sum("a     *    3 /   4 + 5"),
        Ok((
            "",
            AST::Add {
                lhs: Box::new(AST::Divide {
                    lhs: Box::new(AST::Multiply {
                        lhs: Box::new(AST::Identifier {
                            name: "a".into(),
                            span: Span::new_dud(),
                        }),
                        rhs: Box::new(AST::Number {
                            num: 3,
                            span: Span::new_dud()
                        })
                    }),
                    rhs: Box::new(AST::Number {
                        num: 4,
                        span: Span::new_dud()
                    })
                }),
                rhs: Box::new(AST::Number {
                    num: 5,
                    span: Span::new_dud()
                })
            }
        ))
    );
}

#[test]
fn test_comparison() {
    assert_eq!(
        comparison("1"),
        Ok((
            "",
            AST::Number {
                num: 1,
                span: Span::new_dud()
            }
        ))
    );
    assert_eq!(
        comparison("1     *    3 /   4"),
        Ok((
            "",
            AST::Divide {
                lhs: Box::new(AST::Multiply {
                    lhs: Box::new(AST::Number {
                        num: 1,
                        span: Span::new_dud()
                    }),
                    rhs: Box::new(AST::Number {
                        num: 3,
                        span: Span::new_dud()
                    })
                }),
                rhs: Box::new(AST::Number {
                    num: 4,
                    span: Span::new_dud()
                })
            }
        ))
    );
    assert_eq!(
        comparison("1 != 2"),
        Ok((
            "",
            AST::NEquals {
                lhs: Box::new(AST::Number {
                    num: 1,
                    span: Span::new_dud()
                }),
                rhs: Box::new(AST::Number {
                    num: 2,
                    span: Span::new_dud()
                })
            }
        ))
    );
    assert_eq!(
        comparison("1     +    3 -   4"),
        Ok((
            "",
            AST::Subtract {
                lhs: Box::new(AST::Add {
                    lhs: Box::new(AST::Number {
                        num: 1,
                        span: Span::new_dud()
                    }),
                    rhs: Box::new(AST::Number {
                        num: 3,
                        span: Span::new_dud()
                    })
                }),
                rhs: Box::new(AST::Number {
                    num: 4,
                    span: Span::new_dud()
                })
            }
        ))
    );
    assert_eq!(
        comparison("1     *    3 /   4 + 5"),
        Ok((
            "",
            AST::Add {
                lhs: Box::new(AST::Divide {
                    lhs: Box::new(AST::Multiply {
                        lhs: Box::new(AST::Number {
                            num: 1,
                            span: Span::new_dud()
                        }),
                        rhs: Box::new(AST::Number {
                            num: 3,
                            span: Span::new_dud()
                        })
                    }),
                    rhs: Box::new(AST::Number {
                        num: 4,
                        span: Span::new_dud()
                    })
                }),
                rhs: Box::new(AST::Number {
                    num: 5,
                    span: Span::new_dud()
                })
            }
        ))
    );
    assert_eq!(
        comparison("a + 1 == b - 1 != c"),
        Ok((
            "",
            AST::NEquals {
                lhs: Box::new(AST::Equals {
                    lhs: Box::new(AST::Add {
                        lhs: Box::new(AST::Identifier {
                            name: "a".into(),
                            span: Span::new_dud()
                        }),
                        rhs: Box::new(AST::Number {
                            num: 1,
                            span: Span::new_dud()
                        })
                    }),
                    rhs: Box::new(AST::Subtract {
                        lhs: Box::new(AST::Identifier {
                            name: "b".into(),
                            span: Span::new_dud()
                        }),
                        rhs: Box::new(AST::Number {
                            num: 1,
                            span: Span::new_dud()
                        })
                    }),
                }),
                rhs: Box::new(AST::Identifier {
                    name: "c".into(),
                    span: Span::new_dud()
                })
            }
        ))
    );
}

#[test]
fn test_return_s() {
    assert_eq!(
        return_s("    ret a;"),
        Ok((
            "",
            AST::Return {
                value: Box::new(AST::Identifier {
                    name: "a".into(),
                    span: Span::new_dud()
                }),
                span: Span::new_dud()
            }
        ))
    );
}

#[test]
fn test_expr_s() {
    assert_eq!(
        expr_s("   1   ;"),
        Ok((
            "",
            AST::Number {
                num: 1,
                span: Span::new_dud()
            }
        ))
    )
}

#[test]
fn test_if_s() {
    assert_eq!(
        if_s("if a == b ret a; else ret b;"),
        Ok((
            "",
            AST::IfCond {
                span: Span::new_dud(),
                condition: Box::new(AST::Equals {
                    lhs: Box::new(AST::Identifier {
                        name: "a".into(),
                        span: Span::new_dud()
                    }),
                    rhs: Box::new(AST::Identifier {
                        name: "b".into(),
                        span: Span::new_dud()
                    })
                }),
                then: Box::new(AST::Return {
                    value: Box::new(AST::Identifier {
                        name: "a".into(),
                        span: Span::new_dud()
                    }),
                    span: Span::new_dud()
                }),
                c_else: Box::new(AST::Return {
                    value: Box::new(AST::Identifier {
                        name: "b".into(),
                        span: Span::new_dud()
                    }),
                    span: Span::new_dud()
                }),
            }
        ))
    )
}

#[test]
fn test_while_s() {
    assert_eq!(
        while_s("while a == b ret a;"),
        Ok((
            "",
            AST::WhileLoop {
                span: Span::new_dud(),
                condition: Box::new(AST::Equals {
                    lhs: Box::new(AST::Identifier {
                        name: "a".into(),
                        span: Span::new_dud()
                    }),
                    rhs: Box::new(AST::Identifier {
                        name: "b".into(),
                        span: Span::new_dud()
                    })
                }),
                body: Box::new(AST::Return {
                    value: Box::new(AST::Identifier {
                        name: "a".into(),
                        span: Span::new_dud()
                    }),
                    span: Span::new_dud()
                }),
            }
        ))
    )
}

#[test]
fn test_var_s() {
    assert_eq!(
        var_s("mut a = c;"),
        Ok((
            "",
            AST::Variable {
                span: Span::new_dud(),
                name: "a".into(),
                value: Box::new(AST::Identifier {
                    name: "c".into(),
                    span: Span::new_dud()
                })
            }
        ))
    );
}

#[test]
fn test_assign_s() {
    assert_eq!(
        assign_s("a = 300;"),
        Ok((
            "",
            AST::Assignment {
                span: Span::new_dud(),
                name: "a".into(),
                value: Box::new(AST::Number {
                    num: 300,
                    span: Span::new_dud()
                })
            }
        ))
    )
}

#[test]
fn test_block_s() {
    assert_eq!(
        block_s("{ 1; ret a; 2 + 1; }"),
        Ok((
            "",
            AST::Block {
                statements: vec![
                    AST::Number {
                        num: 1,
                        span: Span::new_dud()
                    },
                    AST::Return {
                        value: Box::new(AST::Identifier {
                            name: "a".into(),
                            span: Span::new_dud()
                        }),
                        span: Span::new_dud()
                    },
                    AST::Add {
                        lhs: Box::new(AST::Number {
                            num: 2,
                            span: Span::new_dud()
                        }),
                        rhs: Box::new(AST::Number {
                            num: 1,
                            span: Span::new_dud()
                        })
                    }
                ],
                span: Span::new_dud()
            }
        ))
    )
}

#[test]
fn test_fn_s() {
    assert_eq!(
        fn_s(r":fib a, b { ret a + b; }"),
        Ok((
            "",
            AST::FunctionDef {
                span: Span::new_dud(),
                name: "fib".into(),
                params: vec!["a".into(), "b".into(),],
                body: Box::new(AST::Block {
                    statements: vec![AST::Return {
                        value: Box::new(AST::Add {
                            lhs: Box::new(AST::Identifier {
                                name: "a".into(),
                                span: Span::new_dud()
                            }),
                            rhs: Box::new(AST::Identifier {
                                name: "b".into(),
                                span: Span::new_dud()
                            })
                        }),
                        span: Span::new_dud()
                    }],
                    span: Span::new_dud()
                })
            }
        ))
    );
}

#[test]
fn test_sac_parser() {
    let src = r#"
:factorial n {
    mut res = 1;
    while n != 1 {
        res = res * n;
        n = n - 1;
    }
    ret res;
}"#;
    assert_eq!(
        sac_parser(src),
        Ok((
            "",
            AST::Block {
                statements: vec![AST::FunctionDef {
                    span: Span::new_dud(),
                    name: "factorial".into(),
                    params: vec!["n".into()],
                    body: Box::new(AST::Block {
                        statements: vec![
                            AST::Variable {
                                span: Span::new_dud(),
                                name: "res".into(),
                                value: Box::new(AST::Number {
                                    num: 1,
                                    span: Span::new_dud()
                                })
                            },
                            AST::WhileLoop {
                                span: Span::new_dud(),
                                condition: Box::new(AST::NEquals {
                                    lhs: Box::new(AST::Identifier {
                                        name: "n".into(),
                                        span: Span::new_dud()
                                    }),
                                    rhs: Box::new(AST::Number {
                                        span: Span::new_dud(),
                                        num: 1
                                    }),
                                }),
                                body: Box::new(AST::Block {
                                    statements: vec![
                                        AST::Assignment {
                                            span: Span::new_dud(),
                                            name: "res".into(),
                                            value: Box::new(AST::Multiply {
                                                lhs: Box::new(AST::Identifier {
                                                    name: "res".into(),
                                                    span: Span::new_dud()
                                                }),
                                                rhs: Box::new(AST::Identifier {
                                                    name: "n".into(),
                                                    span: Span::new_dud()
                                                }),
                                            },)
                                        },
                                        AST::Assignment {
                                            span: Span::new_dud(),
                                            name: "n".into(),
                                            value: Box::new(AST::Subtract {
                                                lhs: Box::new(AST::Identifier {
                                                    name: "n".into(),
                                                    span: Span::new_dud()
                                                }),
                                                rhs: Box::new(AST::Number {
                                                    span: Span::new_dud(),
                                                    num: 1
                                                }),
                                            },)
                                        }
                                    ],
                                    span: Span::new_dud()
                                })
                            },
                            AST::Return {
                                value: Box::new(AST::Identifier {
                                    name: "res".into(),
                                    span: Span::new_dud()
                                }),
                                span: Span::new_dud()
                            }
                        ],
                        span: Span::new_dud()
                    })
                }],
                span: Span::new_dud()
            }
        ))
    )
}
