use rlang::ast::AstNode;
use rlang::ast::LetBinding;
use rlang::ast::Program;
use rlang::lexer::Lexer;
use rlang::parser::Parser;
use rlang::partial_eval::partially_evaluate;
use rlang::partial_eval::PartialEvaluator;
use rlang::uniquify::uniquify_program;

fn helper(prog: &'static str) -> Program {
    partially_evaluate(uniquify_program(Parser::new(Lexer::new(prog).lex()).parse()))
}

fn read() -> AstNode {
    AstNode::Prim { op: "read".to_owned(), args: vec![] }
}

fn var(name: &str) -> AstNode {
    AstNode::Var { name: name.to_owned() }
}

#[test]
fn partial_evalute_add_constants() {
    let program = helper("(+ 2 2)");

    let expected = Program { info: (), exp: AstNode::Int(4) };

    assert_eq!(program, expected);
}

#[test]
fn partial_eval_add_constant_add_constants() {
    let program = helper("(+ 2 (+ 2 2))");

    let expected = Program { info: (), exp: AstNode::Int(6) };

    assert_eq!(program, expected)
}

#[test]
fn partial_eval_negate_add_constant_negate_constant() {
    let program = helper("(- (+ 3 (- 5))))))");

    let expected = Program { info: (), exp: AstNode::Int(2) };

    assert_eq!(program, expected)
}

#[test]
fn partial_eval_add_constant_read() {
    let program = helper("(+ 2 (read))");

    let expected = Program {
        info: (),
        exp: AstNode::Prim {
            op: "+".to_owned(),
            args: vec![
                AstNode::Int(2),
                AstNode::Prim { op: "read".to_owned(), args: vec![] },
            ],
        },
    };

    assert_eq!(program, expected)
}

#[test]
fn partial_eval_add_read_negate_add_two_constants() {
    let program = helper("(+ (read) (- (+ 5 3)))");

    let expected = Program {
        info: (),
        exp: AstNode::Prim {
            op: "+".to_owned(),
            args: vec![
                AstNode::Prim { op: "read".to_owned(), args: vec![] },
                AstNode::Int(-8),
            ],
        },
    };

    assert_eq!(program, expected)
}

#[test]
fn partial_eval_let_add_constants_in_add_constant() {
    let program = helper("(let ([x (+ 10 23)]) (+ x 100))");

    let expected = Program { info: (), exp: AstNode::Int(133) };

    assert_eq!(program, expected)
}

#[test]
fn partial_eval_let_constant_let_var_in_add_vars() {
    // without its last parenthesis the text is no program
    let unclosed = helper("(let ([x 10][y x]) (+ x y)");
    assert!(matches!(unclosed.exp, AstNode::Error { .. }));

    let program = helper("(let ([x 10][y x]) (+ x y))");

    let expected = Program { info: (), exp: AstNode::Int(20) };

    assert_eq!(program, expected)
}

#[test]
fn partial_eval_nested_let() {
    let program = helper("(let ([x (let ([x (+ 123 (- 23))]) (x))]) (x))");

    let expected = Program { info: (), exp: AstNode::Int(100) };

    assert_eq!(program, expected)
}

#[test]
fn partial_eval_wraps_around() {
    let program = helper("(+ 9223372036854775807 1)");
    assert_eq!(program.exp, AstNode::Int(i64::MIN));
    let negated = partially_evaluate(Program {
        info: (),
        exp: AstNode::Prim { op: "-".to_owned(), args: vec![AstNode::Int(i64::MIN)] },
    });
    assert_eq!(negated.exp, AstNode::Int(i64::MIN));
}

#[test]
fn partial_eval_let_of_read_is_the_read() {
    let program = helper("(let ([x (read)]) x)");
    assert_eq!(program.exp, read());
}

#[test]
fn partial_eval_let_is_rebuilt_around_what_is_not_known() {
    let program = helper("(let ([x (read)][y (+ 1 2)]) (+ x y))");
    let expected = AstNode::Let {
        bindings: vec![
            LetBinding { identifier: "x.1".to_owned(), expr: read() },
            LetBinding { identifier: "y.1".to_owned(), expr: AstNode::Int(3) },
        ],
        body: Box::new(AstNode::Prim {
            op: "+".to_owned(),
            args: vec![var("x.1"), var("y.1")],
        }),
    };
    assert_eq!(program.exp, expected);
}

#[test]
fn partial_eval_unbound_variable_stays() {
    let program = helper("(let ([x 1]) y)");
    let expected = AstNode::Let {
        bindings: vec![LetBinding { identifier: "x.1".to_owned(), expr: AstNode::Int(1) }],
        body: Box::new(var("y")),
    };
    assert_eq!(program.exp, expected);
}

#[test]
fn partial_eval_variable_bound_to_itself_is_not_followed_forever() {
    let program = partially_evaluate(Program {
        info: (),
        exp: AstNode::Let {
            bindings: vec![LetBinding { identifier: "a".to_owned(), expr: var("a") }],
            body: Box::new(AstNode::Prim {
                op: "-".to_owned(),
                args: vec![var("a")],
            }),
        },
    });
    let expected = AstNode::Let {
        bindings: vec![LetBinding { identifier: "a".to_owned(), expr: var("a") }],
        body: Box::new(AstNode::Prim { op: "-".to_owned(), args: vec![var("a")] }),
    };
    assert_eq!(program.exp, expected);
}

#[test]
fn partial_eval_keeps_unknown_shapes() {
    let odd = AstNode::Prim { op: "+".to_owned(), args: vec![AstNode::Int(1)] };
    let program = partially_evaluate(Program {
        info: (),
        exp: AstNode::Prim { op: "+".to_owned(), args: vec![AstNode::Int(1)] },
    });
    assert_eq!(program.exp, odd);
}

#[test]
fn partial_evaluator_keeps_its_environment() {
    let first = uniquify_program(Parser::new(Lexer::new("(let ([x 5]) (+ x (read)))").lex()).parse());
    let mut evaluator = PartialEvaluator::new(first);
    let once = evaluator.evaluate();
    let twice = evaluator.evaluate();
    assert_eq!(once, twice);
}
