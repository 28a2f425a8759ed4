use rlang::ast::AstNode;
use rlang::ast::Program;
use rlang::decomplify::decomplify_program;
use rlang::explicate::explicate_control;
use rlang::explicate::Atm;
use rlang::explicate::Exp;
use rlang::explicate::Explicator;
use rlang::explicate::IRFunction;
use rlang::explicate::IRProgram;
use rlang::explicate::Stmt;
use rlang::explicate::Tail;
use rlang::lexer::Lexer;
use rlang::parser::Parser;
use rlang::uniquify::uniquify_program;
use rlang::utility::test_ir_helper;

fn helper(prog: &'static str) -> IRProgram {
    test_ir_helper(prog).unwrap()
}

// the intermediate form of the source made unique, without folding
fn unfolded(prog: &'static str) -> IRProgram {
    let ast = Parser::new(Lexer::new(prog).lex()).parse();
    explicate_control(decomplify_program(uniquify_program(ast)))
}

fn program(locals: Vec<String>, tail: Tail) -> IRProgram {
    IRProgram {
        functions: vec![(
            "start".to_owned(),
            IRFunction { locals, labels: vec![(".l1".to_owned(), tail)] },
        )],
    }
}

fn var(name: &str) -> Atm {
    Atm::Var { name: name.to_owned() }
}

fn assign(name: &str, rhs: Exp, rest: Tail) -> Tail {
    Tail::Sequence(Stmt::Assign(var(name), rhs), Box::new(rest))
}

#[test]
fn explicate_tests_explicate_constant() {
    let ir = helper("(123)");

    let expected = program(vec![], Tail::Return(Exp::Atm(Atm::Int(123))));

    assert_eq!(ir, expected);
    assert_eq!(ir.functions[0].0, "start");
}

#[test]
fn explicate_tests_explicate_add_constants() {
    let ir = helper("(+ 2 2)");

    let expected = program(vec![], Tail::Return(Exp::Atm(Atm::Int(4))));

    assert_eq!(ir, expected);
    assert_eq!(ir.functions[0].0, "start");
}

#[test]
fn explicate_let_constant() {
    let ir = helper("(let ([x 10]) x)");

    let expected = program(vec![], Tail::Return(Exp::Atm(Atm::Int(10))));

    assert_eq!(ir, expected);
    assert_eq!(ir.functions[0].0, "start");
}

#[test]
fn explicate_let_nested_const() {
    let ir = helper("(let ([x (let ([y 42]) y)]) x)");

    let expected = program(vec![], Tail::Return(Exp::Atm(Atm::Int(42))));

    assert_eq!(ir, expected);
    assert_eq!(ir.functions[0].0, "start");
}

#[test]
fn explicate_add_read() {
    let ir = helper("(+ (read) (read))");

    let tmp = "tmp.0".to_owned();
    let tmp1 = "tmp.1".to_owned();

    let tail = Tail::Sequence(
        Stmt::Assign(
            Atm::Var { name: tmp.clone() },
            Exp::Prim { op: "read".to_owned(), args: vec![] },
        ),
        Box::new(Tail::Sequence(
            Stmt::Assign(
                Atm::Var { name: tmp1.clone() },
                Exp::Prim { op: "read".to_owned(), args: vec![] },
            ),
            Box::new(Tail::Return(Exp::Prim {
                op: "+".to_owned(),
                args: vec![Atm::Var { name: tmp.clone() }, Atm::Var { name: tmp1.clone() }],
            })),
        )),
    );

    let expected = program(vec![tmp.clone(), tmp1.clone()], tail);

    assert_eq!(ir, expected);
    assert_eq!(ir.functions[0].0, "start");
}

#[test]
fn explicate_constant() {
    let ir = unfolded("(123)");

    let expected = program(vec![], Tail::Return(Exp::Atm(Atm::Int(123))));

    assert_eq!(ir, expected);
    assert_eq!(ir.functions[0].0, "start");
}

#[test]
fn explicate_add_constants() {
    let ir = unfolded("(+ 2 2)");

    // nothing is folded here: the sum is returned as it stands
    let expected = program(
        vec![],
        Tail::Return(Exp::Prim { op: "+".to_owned(), args: vec![Atm::Int(2), Atm::Int(2)] }),
    );

    assert_eq!(ir, expected);
    assert_eq!(ir.functions[0].0, "start");
}

#[test]
fn explicate_let() {
    let ir = unfolded("(let ([x 10]) x)");

    let x_var = "x.1".to_owned();

    let tail = Tail::Sequence(
        Stmt::Assign(Atm::Var { name: x_var.clone() }, Exp::Atm(Atm::Int(10))),
        Box::new(Tail::Return(Exp::Atm(Atm::Var { name: x_var.clone() }))),
    );

    let expected = program(vec![x_var.clone()], tail);

    assert_eq!(ir, expected);
    assert_eq!(ir.functions[0].0, "start");
}

#[test]
fn explicate_let_nested() {
    let ir = unfolded("(let ([x (let ([y 42]) y)]) x)");

    let x_var = "x.1".to_owned();
    let y_var = "y.2".to_owned();

    let tail = Tail::Sequence(
        Stmt::Assign(Atm::Var { name: y_var.clone() }, Exp::Atm(Atm::Int(42))),
        Box::new(Tail::Sequence(
            Stmt::Assign(
                Atm::Var { name: x_var.clone() },
                Exp::Atm(Atm::Var { name: y_var.clone() }),
            ),
            Box::new(Tail::Return(Exp::Atm(Atm::Var { name: x_var.clone() }))),
        )),
    );

    let expected = program(vec![x_var, y_var], tail);

    assert_eq!(ir, expected);
    assert_eq!(ir.functions[0].0, "start");
}

#[test]
fn explicate_locals_are_in_natural_order() {
    // twelve operands that need a temporary each
    let mut source = String::from("(read)");
    for _ in 0..11 {
        source = format!("(+ {} (read))", source);
    }
    let source = format!("({})", source);
    let ast = Parser::new(Lexer::new(&source).lex()).parse();
    let ir = explicate_control(decomplify_program(uniquify_program(ast)));
    let locals = &ir.functions[0].1.locals;
    assert_eq!(locals.len(), 22);
    let position = |name: &str| locals.iter().position(|l| l == name).unwrap();
    assert!(position("tmp.2") < position("tmp.10"));
    assert!(position("tmp.9") < position("tmp.10"));
    assert!(position("tmp.10") < position("tmp.11"));
    assert_eq!(locals[0], "tmp.0");
    assert_eq!(locals[21], "tmp.21");
}

#[test]
fn explicate_local_assigned_twice_is_listed_once() {
    let twice = AstNode::Let {
        bindings: vec![
            rlang::ast::LetBinding { identifier: "a".to_owned(), expr: AstNode::Int(1) },
            rlang::ast::LetBinding { identifier: "a".to_owned(), expr: AstNode::Int(2) },
        ],
        body: Box::new(AstNode::Var { name: "a".to_owned() }),
    };
    let ir = explicate_control(Program { info: (), exp: twice });
    assert_eq!(ir.functions[0].1.locals, vec!["a".to_owned()]);
    let expected = assign(
        "a",
        Exp::Atm(Atm::Int(1)),
        assign("a", Exp::Atm(Atm::Int(2)), Tail::Return(Exp::Atm(var("a")))),
    );
    assert_eq!(ir.functions[0].1.labels[0].1, expected);
}

#[test]
fn explicate_assign_puts_bindings_before_the_body() {
    let inner = Parser::new(Lexer::new("(let ([y (read)][z (- y)]) (+ y z))").lex()).parse();
    let mut explicator = Explicator::new();
    let tail = explicator.explicate_assign(
        inner.exp,
        "x".to_owned(),
        Tail::Return(Exp::Atm(var("x"))),
    );
    assert_eq!(explicator.local_vars(), &vec!["y".to_owned(), "z".to_owned(), "x".to_owned()]);
    let expected = assign(
        "y",
        Exp::Prim { op: "read".to_owned(), args: vec![] },
        assign(
            "z",
            Exp::Prim { op: "-".to_owned(), args: vec![var("y")] },
            assign(
                "x",
                Exp::Prim { op: "+".to_owned(), args: vec![var("y"), var("z")] },
                Tail::Return(Exp::Atm(var("x"))),
            ),
        ),
    );
    assert_eq!(tail, expected);
}

#[test]
fn explicator_notes_assigned_names_in_order() {
    let mut explicator = Explicator::new();
    let source = "(let ([b (let ([c 1]) c)][a 2]) (let ([b a]) b))";
    let tail = explicator.explicate_tail(Parser::new(Lexer::new(source).lex()).parse().exp);
    let expected = assign(
        "c",
        Exp::Atm(Atm::Int(1)),
        assign(
            "b",
            Exp::Atm(var("c")),
            assign(
                "a",
                Exp::Atm(Atm::Int(2)),
                assign("b", Exp::Atm(var("a")), Tail::Return(Exp::Atm(var("b")))),
            ),
        ),
    );
    assert_eq!(tail, expected);
    let names: Vec<&str> = explicator.local_vars().iter().map(|n| n.as_str()).collect();
    assert_eq!(names, vec!["c", "b", "a", "b"]);
    explicator.explicate_tail(AstNode::Int(0));
    assert_eq!(explicator.local_vars().len(), 4);
}
