use rlang::ast::AstNode;
use rlang::ast::LetBinding;
use rlang::ast::Program;
use rlang::utility::test_ast_helper;
use rlang::utility::AstStep;

fn helper(prog: &'static str) -> Program {
    test_ast_helper(prog, vec![AstStep::Uniquify]).unwrap()
}

fn binder_names(e: &AstNode, out: &mut Vec<String>) {
    match e {
        AstNode::Prim { args, .. } => {
            for a in args {
                binder_names(a, out);
            }
        }
        AstNode::Let { bindings, body } => {
            for b in bindings {
                out.push(b.identifier.clone());
                binder_names(&b.expr, out);
            }
            binder_names(body, out);
        }
        _ => {}
    }
}

#[test]
fn uniquify_tests_uniquify_let() {
    let unique_program = helper("(let ([x 42]) x)");

    let x_var_unq = "x.1".to_owned();

    let expected = Program {
        info: (),
        exp: AstNode::Let {
            bindings: vec![LetBinding { identifier: x_var_unq.clone(), expr: AstNode::Int(42) }],

            body: Box::new(AstNode::Var { name: x_var_unq }),
        },
    };

    assert_eq!(unique_program, expected);
}

#[test]
fn uniquify_tests_uniquify_let_addition() {
    let unique_program = helper("(let ([x 42][y 10]) (+ x y))");

    let x_var_unq = "x.1".to_owned();
    let y_var_unq = "y.1".to_owned();

    let expected = Program {
        info: (),
        exp: AstNode::Let {
            bindings: vec![
                LetBinding { identifier: x_var_unq.clone(), expr: AstNode::Int(42) },
                LetBinding { identifier: y_var_unq.clone(), expr: AstNode::Int(10) },
            ],

            body: Box::new(AstNode::Prim {
                op: "+".to_owned(),
                args: vec![
                    AstNode::Var { name: x_var_unq },
                    AstNode::Var { name: y_var_unq },
                ],
            }),
        },
    };

    assert_eq!(unique_program, expected);
}

#[test]
fn uniquify_tests_uniquify_nested_let() {
    let unique_program = helper("(let ([x (let ([y 42]) y)]) x)");

    let x_var_unq = "x.1".to_owned();
    let y_var_unq = "y.2".to_owned();

    let expected = Program {
        info: (),
        exp: AstNode::Let {
            bindings: vec![LetBinding {
                identifier: x_var_unq.clone(),
                expr: AstNode::Let {
                    bindings: vec![LetBinding {
                        identifier: y_var_unq.clone(),
                        expr: AstNode::Int(42),
                    }],
                    body: Box::new(AstNode::Var { name: y_var_unq }),
                },
            }],

            body: Box::new(AstNode::Var { name: x_var_unq }),
        },
    };

    assert_eq!(unique_program, expected);
}

#[test]
fn uniquify_nested_let_shadowing() {
    let unique_program = helper("(let ([x 10]) (let ([x (+ x 1)]) x))");

    let x1_var = "x.1".to_owned();
    let x2_var = "x.2".to_owned();

    let expected = Program {
        info: (),
        exp: AstNode::Let {
            bindings: vec![LetBinding { identifier: x1_var.clone(), expr: AstNode::Int(10) }],
            body: Box::new(AstNode::Let {
                bindings: vec![LetBinding {
                    identifier: x2_var.clone(),
                    expr: AstNode::Prim {
                        op: "+".to_owned(),
                        args: vec![AstNode::Var { name: x1_var }, AstNode::Int(1)],
                    },
                }],
                body: Box::new(AstNode::Var { name: x2_var }),
            }),
        },
    };

    assert_eq!(unique_program, expected);
}

#[test]
fn uniquify_unbound_variable_stays() {
    let unique_program = helper("(+ x (let ([y 1]) z))");
    let expected = AstNode::Prim {
        op: "+".to_owned(),
        args: vec![
            AstNode::Var { name: "x".to_owned() },
            AstNode::Let {
                bindings: vec![LetBinding { identifier: "y.1".to_owned(), expr: AstNode::Int(1) }],
                body: Box::new(AstNode::Var { name: "z".to_owned() }),
            },
        ],
    };
    assert_eq!(unique_program.exp, expected);
}

#[test]
fn uniquify_later_binding_sees_earlier_one() {
    let unique_program = helper("(let ([x 1][y x][x y]) x)");
    let expected = AstNode::Let {
        bindings: vec![
            LetBinding { identifier: "x.1".to_owned(), expr: AstNode::Int(1) },
            LetBinding {
                identifier: "y.1".to_owned(),
                expr: AstNode::Var { name: "x.1".to_owned() },
            },
            LetBinding {
                identifier: "x.1".to_owned(),
                expr: AstNode::Var { name: "y.1".to_owned() },
            },
        ],
        body: Box::new(AstNode::Var { name: "x.1".to_owned() }),
    };
    assert_eq!(unique_program.exp, expected);
}

#[test]
fn uniquify_binding_does_not_see_itself() {
    let unique_program = helper("(let ([x x]) x)");
    let expected = AstNode::Let {
        bindings: vec![LetBinding {
            identifier: "x.1".to_owned(),
            expr: AstNode::Var { name: "x".to_owned() },
        }],
        body: Box::new(AstNode::Var { name: "x.1".to_owned() }),
    };
    assert_eq!(unique_program.exp, expected);
}

#[test]
fn uniquify_deep_nesting_counts_in_decimal() {
    let source = "(let ([a 1]) (let ([a 2]) (let ([a 3]) (let ([a 4]) (let ([a 5]) \
                  (let ([a 6]) (let ([a 7]) (let ([a 8]) (let ([a 9]) (let ([a 10]) a))))))))))";
    let unique_program = helper(source);
    let mut names = Vec::new();
    binder_names(&unique_program.exp, &mut names);
    let expected: Vec<String> = (1..=10).map(|d| format!("a.{}", d)).collect();
    assert_eq!(names, expected);
}

#[test]
fn uniquify_names_differ_where_depths_or_names_do() {
    let unique_program = helper("(let ([x 1][y 2]) (let ([x 3]) (let ([y 4]) (+ x y))))");
    let mut names = Vec::new();
    binder_names(&unique_program.exp, &mut names);
    assert_eq!(names, vec!["x.1", "y.1", "x.2", "y.3"]);
    let mut sorted = names.clone();
    sorted.sort();
    sorted.dedup();
    assert_eq!(sorted.len(), names.len());
}

#[test]
fn uniquify_same_depth_same_name_collides() {
    let unique_program = helper("(+ (let ([y 2]) y) (let ([y 3]) y))");
    let mut names = Vec::new();
    binder_names(&unique_program.exp, &mut names);
    assert_eq!(names, vec!["y.1", "y.1"]);
}

#[test]
fn uniquify_keeps_errors() {
    let unique_program = helper("(+ 1");
    assert!(matches!(unique_program.exp, AstNode::Error { .. }));
}

fn direct(source: &str) -> Program {
    let ast = rlang::parser::Parser::new(rlang::lexer::Lexer::new(source).lex()).parse();
    rlang::uniquify::uniquify_program(ast)
}

#[test]
fn uniquify_let() {
    let unique_program = direct("(let ([x 42]) x)");

    let x_var_unq = "x.1".to_owned();

    let expected = Program {
        info: (),
        exp: AstNode::Let {
            bindings: vec![LetBinding { identifier: x_var_unq.clone(), expr: AstNode::Int(42) }],

            body: Box::new(AstNode::Var { name: x_var_unq }),
        },
    };

    assert_eq!(unique_program, expected);
}

#[test]
fn uniquify_let_addition() {
    let unique_program = direct("(let ([x 42][y 10]) (+ x y))");

    let x_var_unq = "x.1".to_owned();
    let y_var_unq = "y.1".to_owned();

    let expected = Program {
        info: (),
        exp: AstNode::Let {
            bindings: vec![
                LetBinding { identifier: x_var_unq.clone(), expr: AstNode::Int(42) },
                LetBinding { identifier: y_var_unq.clone(), expr: AstNode::Int(10) },
            ],

            body: Box::new(AstNode::Prim {
                op: "+".to_owned(),
                args: vec![
                    AstNode::Var { name: x_var_unq },
                    AstNode::Var { name: y_var_unq },
                ],
            }),
        },
    };

    assert_eq!(unique_program, expected);
}

#[test]
fn uniquify_nested_let() {
    let unique_program = direct("(let ([x (let ([y 42]) y)]) x)");

    let x_var_unq = "x.1".to_owned();
    let y_var_unq = "y.2".to_owned();

    let expected = Program {
        info: (),
        exp: AstNode::Let {
            bindings: vec![LetBinding {
                identifier: x_var_unq.clone(),
                expr: AstNode::Let {
                    bindings: vec![LetBinding {
                        identifier: y_var_unq.clone(),
                        expr: AstNode::Int(42),
                    }],
                    body: Box::new(AstNode::Var { name: y_var_unq }),
                },
            }],

            body: Box::new(AstNode::Var { name: x_var_unq }),
        },
    };

    assert_eq!(unique_program, expected);
}
