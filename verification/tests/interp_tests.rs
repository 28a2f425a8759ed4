use rlang::ast::AstNode;
use rlang::ast::LetBinding;
use rlang::ast::Program;
use rlang::explicate::Atm;
use rlang::explicate::Exp;
use rlang::explicate::IRFunction;
use rlang::explicate::IRProgram;
use rlang::explicate::Stmt;
use rlang::explicate::Tail;
use rlang::interp_ast::AstInterpreter;
use rlang::interp_ir::IrInterpreter;
use rlang::interpreter::CachedRuntimeCall;
use rlang::interpreter::InterpretResult;
use rlang::interpreter::Interpretable;
use rlang::interpreter::Interpreter;
use rlang::lexer::Lexer;
use rlang::parser::Parser;
use rlang::token::Token;
use rlang::token::TokenType;
use rlang::utility::test_ast_helper;
use rlang::utility::test_ir_helper;
use rlang::utility::AstStep;

fn lines(input: &[&str]) -> Vec<String> {
    input.iter().map(|l| l.to_string()).collect()
}

fn parse(source: &str) -> Program {
    Parser::new(Lexer::new(source).lex()).parse()
}

fn run_tree(program: Program, input: &[&str]) -> (InterpretResult, CachedRuntimeCall) {
    let mut interpreter = AstInterpreter::new(program, CachedRuntimeCall::new(lines(input)));
    let result = interpreter.interpret();
    assert_eq!(interpreter.interpret_success(), !result.had_error);
    assert_eq!(interpreter.error_list(), &result.errors);
    (result, interpreter.into_cache())
}

fn run_ir(program: IRProgram, cache: CachedRuntimeCall) -> InterpretResult {
    let mut interpreter = IrInterpreter::new(program, cache);
    let result = interpreter.interpret();
    assert_eq!(interpreter.has_error(), result.had_error);
    assert_eq!(interpreter.last_error(), result.errors.last().cloned().unwrap_or_default());
    result
}

fn value(v: i64) -> InterpretResult {
    InterpretResult { value: Some(v), had_error: false, errors: vec![] }
}

fn failure(errors: &[&str]) -> InterpretResult {
    InterpretResult { value: None, had_error: true, errors: lines(errors) }
}

fn single(tail: Tail) -> IRProgram {
    IRProgram {
        functions: vec![(
            "start".to_owned(),
            IRFunction { locals: vec![], labels: vec![(".l1".to_owned(), tail)] },
        )],
    }
}

fn assign(name: &str, rhs: Exp, rest: Tail) -> Tail {
    Tail::Sequence(Stmt::Assign(Atm::Var { name: name.to_owned() }, rhs), Box::new(rest))
}

fn prim(op: &str, args: Vec<Atm>) -> Exp {
    Exp::Prim { op: op.to_owned(), args }
}

fn atm(name: &str) -> Atm {
    Atm::Var { name: name.to_owned() }
}

// both interpreters in a row on the source, the second on what the first cached
fn both(source: &str, input: &[&str]) -> (InterpretResult, InterpretResult) {
    let steps = vec![AstStep::Uniquify, AstStep::PartialEvaluation, AstStep::Decomplify];
    let tree = test_ast_helper(source, steps).unwrap();
    let (first, mut cache) = run_tree(tree, input);
    cache.set_write_mode(false);
    let second = run_ir(test_ir_helper(source).unwrap(), cache);
    (first, second)
}

#[test]
fn tree_interpreter_adds_and_negates() {
    assert_eq!(run_tree(parse("(+ 2 (- 5))"), &[]).0, value(-3));
    assert_eq!(run_tree(parse("(- (- 7))"), &[]).0, value(7));
    assert_eq!(run_tree(parse("(42)"), &[]).0, value(42));
}

#[test]
fn tree_interpreter_wraps_around() {
    assert_eq!(run_tree(parse("(+ 9223372036854775807 1)"), &[]).0, value(i64::MIN));
    let negated = Program {
        info: (),
        exp: AstNode::Prim { op: "-".to_owned(), args: vec![AstNode::Int(i64::MIN)] },
    };
    assert_eq!(run_tree(negated, &[]).0, value(i64::MIN));
}

#[test]
fn tree_interpreter_binds_in_order() {
    assert_eq!(run_tree(parse("(let ([x 10][y (+ x 1)]) (+ x y))"), &[]).0, value(21));
    assert_eq!(run_tree(parse("(let ([x (let ([y 4]) (- y))]) (+ x y))"), &[]).0, value(0));
}

#[test]
fn tree_interpreter_reads_lines_in_order() {
    let (result, cache) = run_tree(parse("(+ (read) (- (read)))"), &["10", "-3", "99"]);
    assert_eq!(result, value(13));
    let mut cache = cache;
    let read = "read".to_owned();
    assert_eq!(cache.get_cached_result_of(&read), Some(10));
    assert_eq!(cache.get_cached_result_of(&read), Some(-3));
    assert_eq!(cache.get_cached_result_of(&read), None);
}

#[test]
fn tree_interpreter_errors() {
    assert_eq!(run_tree(parse("(x)"), &[]).0, failure(&["x is not defined!"]));
    assert_eq!(
        run_tree(parse("(let ([x 1]) (let ([x 2]) x))"), &[]).0,
        failure(&["x is already defined!"])
    );
    assert_eq!(run_tree(parse("(read)"), &[]).0, failure(&["read: no input is left"]));
    assert_eq!(
        run_tree(parse("(read)"), &["seven"]).0,
        failure(&["read: not an integer: 'seven'"])
    );
    assert_eq!(
        run_tree(parse("(read)"), &["9223372036854775808"]).0,
        failure(&["read: not an integer: '9223372036854775808'"])
    );
    let unknown = Program {
        info: (),
        exp: AstNode::Prim { op: "*".to_owned(), args: vec![AstNode::Int(1), AstNode::Int(2)] },
    };
    assert_eq!(
        run_tree(unknown, &[]).0,
        failure(&["Unrecognized operator in interp_exp: *"])
    );
    let placed = Token { ttype: TokenType::Error, lexeme: "^".to_owned(), line: 1, col: 1 };
    let error = Program {
        info: (),
        exp: AstNode::Error { msg: "Expected an expression, found '^'".to_owned(), token: placed },
    };
    assert_eq!(run_tree(error, &[]).0, failure(&["Expected an expression, found '^'"]));
}

#[test]
fn tree_interpreter_sum_computes_both_operands() {
    let (result, mut cache) = run_tree(parse("(+ x (+ y (read)))"), &["5"]);
    assert_eq!(result, failure(&["x is not defined!", "y is not defined!"]));
    assert_eq!(cache.get_cached_result_of(&"read".to_owned()), Some(5));
}

#[test]
fn tree_interpreter_stops_binding_at_the_first_failure() {
    let (result, mut cache) = run_tree(parse("(let ([a (read)][b c][d (read)]) a)"), &["1", "2"]);
    assert_eq!(result, failure(&["c is not defined!"]));
    let read = "read".to_owned();
    assert_eq!(cache.get_cached_result_of(&read), Some(1));
    assert_eq!(cache.get_cached_result_of(&read), None);
}

#[test]
fn tree_interpreter_errors_add_up_over_runs() {
    let mut interpreter = AstInterpreter::new(parse("(x)"), CachedRuntimeCall::new(vec![]));
    assert_eq!(interpreter.run(), None);
    assert_eq!(interpreter.run(), None);
    assert!(!interpreter.interpret_success());
    assert_eq!(interpreter.error_list(), &lines(&["x is not defined!", "x is not defined!"]));
}

#[test]
fn ir_interpreter_runs_statements_in_order() {
    let tail = assign(
        "x",
        Exp::Atm(Atm::Int(5)),
        assign(
            "y",
            prim("-", vec![atm("x")]),
            assign(
                "x",
                prim("+", vec![atm("x"), atm("y")]),
                Tail::Return(prim("+", vec![atm("x"), Atm::Int(7)])),
            ),
        ),
    );
    assert_eq!(run_ir(single(tail), CachedRuntimeCall::new(vec![])), value(7));
}

#[test]
fn ir_interpreter_reads_what_was_cached() {
    let mut cache = CachedRuntimeCall::new(lines(&["100"]));
    cache.set_cached_result_of("read".to_owned(), 3);
    cache.set_cached_result_of("other".to_owned(), 50);
    cache.set_cached_result_of("read".to_owned(), 4);
    cache.set_write_mode(false);
    let tail = assign(
        "a",
        prim("read", vec![]),
        assign("b", prim("read", vec![]), Tail::Return(prim("+", vec![atm("a"), atm("b")]))),
    );
    let mut interpreter = IrInterpreter::new(single(tail), cache);
    assert_eq!(interpreter.interpret(), value(7));
    let mut cache = interpreter.into_cache();
    assert_eq!(cache.get_cached_result_of(&"read".to_owned()), None);
    assert_eq!(cache.get_cached_result_of(&"other".to_owned()), Some(50));
    cache.set_write_mode(true);
    assert_eq!(cache.read_int(), Ok(100));
    assert_eq!(cache.read_int(), Err("read: no input is left".to_owned()));
}

#[test]
fn ir_interpreter_write_mode_takes_input() {
    let tail = Tail::Return(prim("read", vec![]));
    assert_eq!(run_ir(single(tail), CachedRuntimeCall::new(lines(&["-12"]))), value(-12));
}

#[test]
fn ir_interpreter_errors() {
    let mut empty = CachedRuntimeCall::new(lines(&["1"]));
    empty.set_write_mode(false);
    assert_eq!(
        run_ir(single(Tail::Return(prim("read", vec![]))), empty),
        failure(&["read: no cached result is left"])
    );
    assert_eq!(
        run_ir(single(Tail::Return(Exp::Atm(atm("x")))), CachedRuntimeCall::new(vec![])),
        failure(&["Attempted to use undeclared variable: 'x'"])
    );
    assert_eq!(
        run_ir(
            single(Tail::Return(prim("*", vec![Atm::Int(1)]))),
            CachedRuntimeCall::new(vec![])
        ),
        failure(&["handle_exp: unknown primitive: *"])
    );
    assert_eq!(
        run_ir(IRProgram { functions: vec![] }, CachedRuntimeCall::new(vec![])),
        failure(&["entry point 'start' not found!"])
    );
    let unlabelled = IRProgram {
        functions: vec![("start".to_owned(), IRFunction { locals: vec![], labels: vec![] })],
    };
    assert_eq!(
        run_ir(unlabelled, CachedRuntimeCall::new(vec![])),
        failure(&["entry label '.l1' not found!"])
    );
}

#[test]
fn ir_interpreter_stops_at_a_failed_statement() {
    let tail = assign(
        "x",
        Exp::Atm(atm("u")),
        assign("y", prim("read", vec![]), Tail::Return(Exp::Atm(Atm::Int(1)))),
    );
    let mut interpreter = IrInterpreter::new(single(tail), CachedRuntimeCall::new(lines(&["5"])));
    let result = interpreter.interpret();
    assert_eq!(result, failure(&["Attempted to use undeclared variable: 'u'"]));
    assert!(interpreter.has_error());
    // nothing behind the failed statement was run
    let mut cache = interpreter.into_cache();
    assert_eq!(cache.read_int(), Ok(5));
}

#[test]
fn ir_interpreter_assigns_to_variables_only() {
    let tail = Tail::Sequence(
        Stmt::Assign(Atm::Int(3), Exp::Atm(Atm::Int(4))),
        Box::new(Tail::Return(Exp::Atm(Atm::Int(1)))),
    );
    let result = run_ir(single(tail), CachedRuntimeCall::new(vec![]));
    assert_eq!(result, failure(&["Attempted to assign to what is no variable"]));
}

#[test]
fn ir_interpreter_binds_variable_to_variable() {
    let tail = assign(
        "x.1",
        Exp::Atm(Atm::Int(42)),
        assign("y.2", Exp::Atm(atm("x.1")), Tail::Return(Exp::Atm(atm("y.2")))),
    );
    let mut interpreter = IrInterpreter::new(single(tail), CachedRuntimeCall::new(vec![]));
    assert_eq!(interpreter.interpret(), value(42));
    assert!(!interpreter.has_error());
    assert_eq!(interpreter.last_error(), "");
}

#[test]
fn second_run_uses_up_what_was_cached() {
    let steps = vec![AstStep::Uniquify, AstStep::PartialEvaluation, AstStep::Decomplify];
    let tree = test_ast_helper("(+ (read) (read))", steps).unwrap();
    let mut first = AstInterpreter::new(tree, CachedRuntimeCall::new(lines(&["3", "4", "5"])));
    assert_eq!(Interpreter::new(&mut first).run(), value(7));
    let mut cache = first.into_cache();
    cache.set_write_mode(false);
    let mut second = IrInterpreter::new(test_ir_helper("(+ (read) (read))").unwrap(), cache);
    assert_eq!(Interpreter::new(&mut second).run(), value(7));
    let mut cache = second.into_cache();
    // nothing is left in the cache, and the third line was not taken
    assert_eq!(cache.get_cached_result_of(&"read".to_owned()), None);
    cache.set_write_mode(true);
    assert_eq!(cache.read_int(), Ok(5));
    assert_eq!(cache.read_int(), Err("read: no input is left".to_owned()));
}

#[test]
fn interpreters_agree_on_what_was_read() {
    for (source, input, expected) in [
        ("(+ (read) (read))", vec!["3", "4"], 7),
        ("(let ([x (read)]) (+ x (- (read))))", vec!["10", "4"], 6),
        ("(let ([x (let ([y (read)]) (+ y y))]) (+ x (read)))", vec!["21", "-2"], 40),
        ("(- (- (- (read))))", vec!["8"], -8),
        ("(+ 1 (+ 2 (+ 3 (read))))", vec!["-6"], 0),
    ] {
        let (first, second) = both(source, &input);
        assert_eq!(first, value(expected));
        assert_eq!(second, first);
    }
}

#[test]
fn second_run_does_not_read_input() {
    let (first, second) = both("(read)", &["5", "6", "7"]);
    assert_eq!(first, value(5));
    assert_eq!(second, value(5));
}

#[test]
fn dispatcher_runs_either_interpreter() {
    let mut tree = AstInterpreter::new(parse("(+ 1 2)"), CachedRuntimeCall::new(vec![]));
    let mut dispatcher = Interpreter::new(&mut tree);
    assert_eq!(dispatcher.run(), value(3));
    let mut ir = IrInterpreter::new(
        single(Tail::Return(prim("-", vec![Atm::Int(3)]))),
        CachedRuntimeCall::new(vec![]),
    );
    let mut dispatcher = Interpreter::new(&mut ir);
    assert_eq!(dispatcher.run(), value(-3));
}

#[test]
fn let_binding_record_is_plain() {
    let binding = LetBinding { identifier: "x".to_owned(), expr: AstNode::Int(1) };
    assert_eq!(binding.clone(), binding);
}

#[test]
fn both_interpreters_in_a_row() {
    let steps = vec![AstStep::Uniquify, AstStep::PartialEvaluation, AstStep::Decomplify];
    let tree = test_ast_helper("(let ([a (read)]) (+ (- a) (+ (read) a)))", steps).unwrap();
    let (first, second) = rlang::utility::interpret_both(tree, lines(&["5", "11"]));
    assert_eq!(first, value(11));
    assert_eq!(second, value(11));
    let failing = test_ast_helper("(+ (read) q)", vec![AstStep::Decomplify]).unwrap();
    let (first, second) = rlang::utility::interpret_both(failing, lines(&["5"]));
    assert_eq!(first, failure(&["q is not defined!"]));
    assert_eq!(second, failure(&["Attempted to use undeclared variable: 'q'"]));
}

#[test]
fn a_run_has_a_value_or_an_error() {
    let sources = [
        "(+ 1 (- (read)))",
        "(+ x 1)",
        "(let ([x 1][x 2]) x)",
        "(+ (read) (read))",
        "(let ([x (read)]) (+ x (- y)))",
    ];
    for source in sources {
        for input in [&["4", "5"][..], &["4"][..], &["four"][..], &[][..]] {
            let (result, _) = run_tree(parse(source), input);
            assert_eq!(result.value.is_none(), result.had_error, "{}", source);
            assert_eq!(result.had_error, !result.errors.is_empty(), "{}", source);
        }
    }
    let blocks = [
        assign("x", prim("read", vec![]), Tail::Return(Exp::Atm(atm("x")))),
        assign("x", Exp::Atm(atm("y")), Tail::Return(Exp::Atm(Atm::Int(1)))),
        Tail::Return(prim("+", vec![atm("u"), Atm::Int(1)])),
    ];
    for block in blocks {
        let result = run_ir(single(block), CachedRuntimeCall::new(vec![]));
        assert_eq!(result.value.is_none(), result.had_error);
        assert_eq!(result.had_error, !result.errors.is_empty());
    }
}
