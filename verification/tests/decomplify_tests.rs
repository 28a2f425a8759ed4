use rlang::ast::check_anf;
use rlang::ast::check_well_formed;
use rlang::ast::AstNode;
use rlang::ast::LetBinding;
use rlang::ast::Program;
use rlang::decomplify::check_decomplify;
use rlang::decomplify::count_temps;
use rlang::decomplify::decomplify_program;
use rlang::decomplify::Rco;
use rlang::interp_ast::AstInterpreter;
use rlang::interpreter::CachedRuntimeCall;
use rlang::lexer::Lexer;
use rlang::parser::Parser;
use rlang::uniquify::uniquify_program;
use rlang::utility::test_ast_helper;
use rlang::utility::AstStep;

fn helper(prog: &'static str) -> Program {
    test_ast_helper(
        prog,
        vec![AstStep::Uniquify, AstStep::PartialEvaluation, AstStep::Decomplify],
    )
    .unwrap()
}

fn parse(source: &str) -> Program {
    Parser::new(Lexer::new(source).lex()).parse()
}

fn var(name: &str) -> AstNode {
    AstNode::Var { name: name.to_owned() }
}

fn prim(op: &str, args: Vec<AstNode>) -> AstNode {
    AstNode::Prim { op: op.to_owned(), args }
}

fn bind(name: &str, expr: AstNode) -> LetBinding {
    LetBinding { identifier: name.to_owned(), expr }
}

fn let_in(bindings: Vec<LetBinding>, body: AstNode) -> AstNode {
    AstNode::Let { bindings, body: Box::new(body) }
}

#[test]
fn decomplify_addition() {
    let decomplified = helper("(+ x (+ x y))");

    let expected = Program {
        info: (),
        exp: let_in(
            vec![bind("tmp.0", prim("+", vec![var("x"), var("y")]))],
            prim("+", vec![var("x"), var("tmp.0")]),
        ),
    };

    assert_eq!(decomplified, expected);
}

#[test]
fn decomplify_let_read() {
    let decomplified = helper("(let ([x 42]) (+ x (read)))");

    let expected = Program {
        info: (),
        exp: let_in(
            vec![bind("x.1", AstNode::Int(42))],
            let_in(
                vec![bind("tmp.0", prim("read", vec![]))],
                prim("+", vec![var("x.1"), var("tmp.0")]),
            ),
        ),
    };

    assert_eq!(decomplified, expected);
}

#[test]
fn decomplify_keeps_what_is_in_normal_form() {
    for source in ["(5)", "(x)", "(read)", "(- x)", "(+ 1 x)", "(let ([a 1]) (+ a a))"] {
        let program = parse(source);
        let expected = program.clone();
        assert_eq!(decomplify_program(program), expected);
    }
}

#[test]
fn decomplify_numbers_temporaries_from_the_outside_in() {
    let decomplified = decomplify_program(parse("(+ (+ 1 (read)) (- (- x)))"));
    let expected = let_in(
        vec![
            bind(
                "tmp.0",
                let_in(
                    vec![bind("tmp.1", prim("read", vec![]))],
                    prim("+", vec![AstNode::Int(1), var("tmp.1")]),
                ),
            ),
            bind(
                "tmp.2",
                let_in(vec![bind("tmp.3", prim("-", vec![var("x")]))], prim("-", vec![var("tmp.3")])),
            ),
        ],
        prim("+", vec![var("tmp.0"), var("tmp.2")]),
    );
    assert_eq!(decomplified.exp, expected);
}

#[test]
fn decomplify_nested_negation_is_normal() {
    let decomplified = decomplify_program(parse("(- (- (- 5)))"));
    assert!(check_anf(&decomplified.exp));
    let expected = let_in(
        vec![bind(
            "tmp.0",
            let_in(
                vec![bind("tmp.1", prim("-", vec![AstNode::Int(5)]))],
                prim("-", vec![var("tmp.1")]),
            ),
        )],
        prim("-", vec![var("tmp.0")]),
    );
    assert_eq!(decomplified.exp, expected);
}

#[test]
fn decomplify_keeps_bindings_in_order() {
    let decomplified = decomplify_program(parse("(let ([a (+ 1 (- 2))][b 5][c (let ([d 1]) d)]) b)"));
    let expected = let_in(
        vec![
            bind("tmp.0", prim("-", vec![AstNode::Int(2)])),
            bind("a", prim("+", vec![AstNode::Int(1), var("tmp.0")])),
            bind("b", AstNode::Int(5)),
            bind("d", AstNode::Int(1)),
            bind("c", var("d")),
        ],
        var("b"),
    );
    assert_eq!(decomplified.exp, expected);
}

#[test]
fn decomplify_keeps_the_order_of_reads() {
    let source = "(let ([a (+ 1 (read))][b (read)]) a)";
    let decomplified = decomplify_program(parse(source));
    let expected = let_in(
        vec![
            bind("tmp.0", prim("read", vec![])),
            bind("a", prim("+", vec![AstNode::Int(1), var("tmp.0")])),
            bind("b", prim("read", vec![])),
        ],
        var("a"),
    );
    assert_eq!(decomplified.exp, expected);
    let input = || vec!["3".to_owned(), "4".to_owned()];
    let mut before = AstInterpreter::new(parse(source), CachedRuntimeCall::new(input()));
    let mut after = AstInterpreter::new(decomplified, CachedRuntimeCall::new(input()));
    assert_eq!(before.run(), Some(4));
    assert_eq!(after.run(), Some(4));
}

#[test]
fn decomplify_binds_a_name_before_its_use() {
    let source = "(let ([a (- (- 7))][b a]) (+ a b))";
    let decomplified = decomplify_program(parse(source));
    let expected = let_in(
        vec![
            bind("tmp.0", prim("-", vec![AstNode::Int(7)])),
            bind("a", prim("-", vec![var("tmp.0")])),
            bind("b", var("a")),
        ],
        prim("+", vec![var("a"), var("b")]),
    );
    assert_eq!(decomplified.exp, expected);
    let mut after = AstInterpreter::new(decomplified, CachedRuntimeCall::new(vec![]));
    assert_eq!(after.run(), Some(14));
}

#[test]
fn decomplify_result_has_only_atomic_operands() {
    let sources = [
        "(+ (+ (read) (read)) (+ (- (read)) (let ([x (+ 1 (- 2))]) (+ x (- x)))))",
        "(let ([x (+ (- 1) (- 2))][y (let ([z (read)]) (- (+ z z)))]) (+ (- x) (+ y y)))",
        "(- (let ([x (- (read))]) (- (+ x (- x)))))",
    ];
    for source in sources {
        let program = parse(source);
        assert!(check_well_formed(&program.exp));
        assert!(!check_anf(&program.exp));
        assert!(check_anf(&decomplify_program(program).exp));
    }
}

#[test]
fn decomplify_counts_its_temporaries() {
    assert_eq!(count_temps(&parse("(+ 1 2)").exp), Some(0));
    assert_eq!(count_temps(&parse("(+ (read) (- (- x)))").exp), Some(3));
    assert_eq!(count_temps(&parse("(let ([a (- (read))]) (+ a (+ a a)))").exp), Some(2));
}

#[test]
fn decomplify_goes_on_numbering() {
    let mut rco = Rco::new();
    let first = rco.decomplify(parse("(- (read))"));
    let second = rco.decomplify(parse("(- (read))"));
    assert_eq!(
        first,
        let_in(vec![bind("tmp.0", prim("read", vec![]))], prim("-", vec![var("tmp.0")]))
    );
    assert_eq!(
        second,
        let_in(vec![bind("tmp.1", prim("read", vec![]))], prim("-", vec![var("tmp.1")]))
    );
}

#[test]
fn decomplify_needs_a_well_formed_tree() {
    assert!(!check_decomplify(&parse("(+ 1")));
    assert!(!check_decomplify(&Program { info: (), exp: prim("*", vec![]) }));
    assert!(!check_decomplify(&Program { info: (), exp: prim("+", vec![AstNode::Int(1)]) }));
    assert!(!check_decomplify(&Program { info: (), exp: prim("read", vec![AstNode::Int(1)]) }));
    assert!(check_decomplify(&parse("(+ 1 (- (read)))")));
    assert!(test_ast_helper("(+ 1", vec![AstStep::Uniquify, AstStep::Decomplify]).is_none());
    assert!(test_ast_helper("(+ 1", vec![AstStep::Uniquify, AstStep::PartialEvaluation]).is_some());
}

fn value_of(program: Program, input: &[&str]) -> Option<i64> {
    let lines = input.iter().map(|line| (*line).to_owned()).collect();
    AstInterpreter::new(program, CachedRuntimeCall::new(lines)).run()
}

#[test]
fn decomplify_keeps_the_value_of_a_program() {
    let cases: [(&str, &[&str], i64); 5] = [
        ("(+ (- (read)) (+ (read) (- (- (read)))))", &["1", "20", "300"], 319),
        ("(let ([x (+ (read) (- 2))][y (- (+ x x))]) (+ (- y) (+ x (read))))", &["7", "9"], 24),
        ("(let ([x (read)]) (let ([y (+ x (- (read)))]) (+ (+ y y) (- (- x)))))", &["10", "4"], 22),
        ("(- (let ([a (- (- 5))]) (+ a (let ([b (+ a (- 1))]) (- b)))))", &[], -1),
        ("(+ (let ([x (read)]) (- (- x))) (let ([y (read)]) (+ y (- (- y)))))", &["2", "3"], 8),
    ];
    for (source, input, expected) in cases {
        let unique = uniquify_program(parse(source));
        assert_eq!(value_of(unique.clone(), input), Some(expected), "{}", source);
        let decomplified = decomplify_program(unique);
        assert_eq!(check_anf(&decomplified.exp), true, "{}", source);
        assert_eq!(value_of(decomplified, input), Some(expected), "{}", source);
    }
}

#[test]
fn decomplify_takes_its_names_from_the_programs_own() {
    // a variable called `tmp` gets the name of a temporary of the same number
    let source = "(let ([tmp 5]) (- (- (- tmp))))";
    let unique = uniquify_program(parse(source));
    assert_eq!(value_of(unique.clone(), &[]), Some(-5));
    let decomplified = decomplify_program(unique);
    assert_eq!(
        decomplified.exp,
        let_in(
            vec![bind("tmp.1", AstNode::Int(5))],
            let_in(
                vec![bind(
                    "tmp.0",
                    let_in(
                        vec![bind("tmp.1", prim("-", vec![var("tmp.1")]))],
                        prim("-", vec![var("tmp.1")]),
                    ),
                )],
                prim("-", vec![var("tmp.0")]),
            ),
        ),
    );
    assert_eq!(value_of(decomplified, &[]), None);
}
