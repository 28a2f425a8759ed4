use rlang::interp_ast::AstInterpreter;
use rlang::interp_ir::IrInterpreter;
use rlang::interpreter::CachedRuntimeCall;
use rlang::interpreter::Interpretable;
use rlang::utility::test_ast_helper;
use rlang::utility::test_ir_helper;
use rlang::utility::test_x64_helper;
use rlang::utility::AstStep;
use rlang::x64_def::Arg;
use rlang::x64_def::Function;
use rlang::x64_def::Instr;
use rlang::x64_def::Reg;
use rlang::x64_def::VarLoc;
use rlang::x64_def::X64Program;

// the value that both interpreters give the source, run in a row
fn printed(source: &str, input: &[&str]) -> i64 {
    let steps = vec![AstStep::Uniquify, AstStep::PartialEvaluation, AstStep::Decomplify];
    let tree = test_ast_helper(source, steps).unwrap();
    let lines = input.iter().map(|l| l.to_string()).collect();
    let mut first = AstInterpreter::new(tree, CachedRuntimeCall::new(lines));
    let first_result = first.interpret();
    assert!(!first_result.had_error);
    let mut cache = first.into_cache();
    cache.set_write_mode(false);
    let mut second = IrInterpreter::new(test_ir_helper(source).unwrap(), cache);
    let second_result = second.interpret();
    assert_eq!(first_result, second_result);
    first_result.value.unwrap()
}

fn start(program: &X64Program) -> &Function {
    assert_eq!(program.functions.len(), 1);
    assert_eq!(program.functions[0].0, "start");
    &program.functions[0].1
}

// the instructions of the function in the order of its blocks, jumps left out
fn stream(function: &Function) -> Vec<Instr> {
    function
        .blocks
        .iter()
        .flat_map(|b| b.block.instr.iter().cloned())
        .filter(|i| !matches!(i, Instr::Jmp(_)))
        .collect()
}

fn rax() -> Arg {
    Arg::Reg(Reg::Rax)
}

fn rbp() -> Arg {
    Arg::Reg(Reg::Rbp)
}

fn rsp() -> Arg {
    Arg::Reg(Reg::Rsp)
}

fn var(name: &str) -> Arg {
    Arg::Var(name.to_owned())
}

#[test]
fn scenario_constant() {
    assert_eq!(printed("(2)", &[]), 2);
    let program = test_x64_helper("(2)").unwrap();
    let function = start(&program);
    assert!(function.vars.is_empty());
    assert_eq!(
        stream(function),
        vec![
            Instr::Push(rbp()),
            Instr::Mov64(rbp(), rsp()),
            Instr::Mov64(rax(), Arg::Imm(2)),
            Instr::Mov64(rsp(), rbp()),
            Instr::Pop(rbp()),
            Instr::Ret,
        ]
    );
}

#[test]
fn scenario_folded_addition() {
    assert_eq!(printed("(+ 2 2)", &[]), 4);
    let program = test_x64_helper("(+ 2 2)").unwrap();
    let function = start(&program);
    assert!(function.vars.is_empty());
    assert_eq!(function.blocks[1].block.instr[0], Instr::Mov64(rax(), Arg::Imm(4)));
}

#[test]
fn scenario_add_negated() {
    assert_eq!(printed("(+ 2 (-1))", &[]), 1);
    // unfolded, the negation needs a temporary
    let tree = test_ast_helper("(+ 2 (-1))", vec![AstStep::Uniquify, AstStep::Decomplify]).unwrap();
    let program = rlang::x64_backend::ir_to_x64(rlang::explicate::explicate_control(tree));
    let function = start(&program);
    assert_eq!(function.vars.len(), 1);
    assert_eq!(function.vars[0].name, "tmp.0");
    assert_eq!(function.vars[0].loc, VarLoc::Rbp(8));
    assert_eq!(
        stream(function),
        vec![
            Instr::Push(rbp()),
            Instr::Mov64(rbp(), rsp()),
            Instr::Sub64(rsp(), Arg::Imm(8)),
            Instr::Mov64(var("tmp.0"), Arg::Imm(1)),
            Instr::Neg64(var("tmp.0")),
            Instr::Mov64(rax(), Arg::Imm(2)),
            Instr::Add64(rax(), var("tmp.0")),
            Instr::Add64(rsp(), Arg::Imm(8)),
            Instr::Mov64(rsp(), rbp()),
            Instr::Pop(rbp()),
            Instr::Ret,
        ]
    );
}

#[test]
fn scenario_nested_let() {
    assert_eq!(printed("(let ([x 42]) (let ([y x]) y))", &[]), 42);
    let tree = test_ast_helper(
        "(let ([x 42]) (let ([y x]) y))",
        vec![AstStep::Uniquify, AstStep::Decomplify],
    )
    .unwrap();
    let program = rlang::x64_backend::ir_to_x64(rlang::explicate::explicate_control(tree));
    let instrs = stream(start(&program));
    let r15 = Arg::Reg(Reg::R15);
    let moved = instrs
        .windows(2)
        .any(|w| w == [Instr::Mov64(r15.clone(), var("x.1")), Instr::Mov64(var("y.2"), r15.clone())]);
    assert!(moved);
    assert!(!instrs.contains(&Instr::Mov64(var("y.2"), var("x.1"))));
    let push = instrs.iter().position(|i| *i == Instr::Push(r15.clone())).unwrap();
    let pop = instrs.iter().position(|i| *i == Instr::Pop(r15.clone())).unwrap();
    assert!(push < pop);
}

#[test]
fn scenario_add_two_reads() {
    assert_eq!(printed("(+ (read) (read))", &["3", "4"]), 7);
    let program = test_x64_helper("(+ (read) (read))").unwrap();
    assert_eq!(program.external, vec!["read_int".to_owned()]);
    let function = start(&program);
    let slots: Vec<VarLoc> = function.vars.iter().map(|h| h.loc).collect();
    assert_eq!(slots, vec![VarLoc::Rbp(8), VarLoc::Rbp(16)]);
    let call = Instr::Call("read_int".to_owned(), 0);
    assert_eq!(
        function.blocks[1].block.instr[..6],
        [
            call.clone(),
            Instr::Mov64(var("tmp.0"), rax()),
            call,
            Instr::Mov64(var("tmp.1"), rax()),
            Instr::Mov64(rax(), var("tmp.0")),
            Instr::Add64(rax(), var("tmp.1")),
        ]
    );
}

#[test]
fn scenario_shadowing() {
    assert_eq!(printed("(let ([x 10]) (let ([x (+ x 1)]) x))", &[]), 11);
    let unfolded = test_ast_helper(
        "(let ([x 10]) (let ([x (+ x 1)]) x))",
        vec![AstStep::Uniquify, AstStep::Decomplify],
    )
    .unwrap();
    let mut interpreter = AstInterpreter::new(unfolded, CachedRuntimeCall::new(vec![]));
    assert_eq!(interpreter.run(), Some(11));
    // without new names the inner binding would be refused
    let same = test_ast_helper("(let ([x 10]) (let ([x (+ x 1)]) x))", vec![]).unwrap();
    let mut interpreter = AstInterpreter::new(same, CachedRuntimeCall::new(vec![]));
    assert_eq!(interpreter.run(), None);
}
