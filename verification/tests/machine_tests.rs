use rlang::interp_ast::AstInterpreter;
use rlang::interpreter::CachedRuntimeCall;
use rlang::machine::check_encodable;
use rlang::machine::check_runnable;
use rlang::simulator::Machine;
use rlang::utility::test_ast_helper;
use rlang::utility::test_x64_helper;
use rlang::utility::AstStep;
use rlang::x64_def::Arg;
use rlang::x64_def::Function;
use rlang::x64_def::Home;
use rlang::x64_def::Instr;
use rlang::x64_def::Reg;
use rlang::x64_def::VarLoc;

const STACK: i64 = 0x7fff_0000;
const BASE: i64 = 0x7fff_0100;
const CALLER: i64 = 0x40_1000;

fn lines(input: &[&str]) -> Vec<String> {
    input.iter().map(|l| l.to_string()).collect()
}

fn compiled(source: &str) -> Function {
    let mut program = test_x64_helper(source).unwrap();
    assert_eq!(program.functions.len(), 1);
    program.functions.remove(0).1
}

// what the tree interpreter gives the source, and how many lines it leaves
fn interpreted(source: &str, input: &[&str]) -> (Option<i64>, usize) {
    let steps = vec![AstStep::Uniquify, AstStep::PartialEvaluation, AstStep::Decomplify];
    let tree = test_ast_helper(source, steps).unwrap();
    let mut interpreter = AstInterpreter::new(tree, CachedRuntimeCall::new(lines(input)));
    let value = interpreter.run();
    let mut cache = interpreter.into_cache();
    let mut left = 0;
    while cache.read_int().is_ok() {
        left += 1;
    }
    (value, left)
}

fn entered(input: &[&str]) -> Machine {
    Machine::new(lines(input), STACK, BASE, CALLER)
}

// the instructions between prelude and conclusion, without the closing jump
fn body(function: &Function) -> Vec<Instr> {
    let block = &function.blocks[1].block.instr;
    block[..block.len() - 1].to_vec()
}

fn home(name: &str, offset: i64) -> Home {
    Home { name: name.to_owned(), loc: VarLoc::Rbp(offset) }
}

fn var(name: &str) -> Arg {
    Arg::Var(name.to_owned())
}

#[test]
fn machine_starts_at_the_entry() {
    let machine = entered(&["1", "2"]);
    assert_eq!(machine.register(Reg::Rsp), Some(STACK));
    assert_eq!(machine.register(Reg::Rbp), Some(BASE));
    assert_eq!(machine.register(Reg::Rax), None);
    assert_eq!(machine.word(STACK), Some(CALLER));
    assert_eq!(machine.word(STACK - 8), None);
    assert_eq!(machine.lines_left(), 2);
}

#[test]
fn machine_returns_what_the_interpreter_returns() {
    let cases: [(&str, &[&str], i64); 8] = [
        ("(2)", &[], 2),
        ("(+ 2 2)", &[], 4),
        ("(+ 2 (- 1))", &[], 1),
        ("(+ (read) (read))", &["3", "4"], 7),
        ("(let ([x 10]) (let ([x (+ x 1)]) x))", &[], 11),
        ("(- (read))", &["-9223372036854775808", "5"], i64::MIN),
        ("(+ (read) 1)", &["9223372036854775807"], i64::MIN),
        ("(let ([x (read)]) (+ x (- 5)))", &["47", "1"], 42),
    ];
    for (source, input, expected) in cases {
        let (value, left) = interpreted(source, input);
        assert_eq!(value, Some(expected), "{}", source);
        let function = compiled(source);
        assert!(check_runnable(&function.vars, &body(&function)), "{}", source);
        let end = entered(input).run(&function, 100).unwrap();
        assert_eq!(end.register(Reg::Rax), Some(expected), "{}", source);
        assert_eq!(end.register(Reg::Rsp), Some(STACK + 8), "{}", source);
        assert_eq!(end.register(Reg::Rbp), Some(BASE), "{}", source);
        assert_eq!(end.lines_left(), left, "{}", source);
    }
}

#[test]
fn machine_passes_over_lines_that_are_no_integer() {
    let function = compiled("(+ (read) (read))");
    let end = entered(&["three", "3", "", "4", "5"]).run(&function, 100).unwrap();
    assert_eq!(end.register(Reg::Rax), Some(7));
    assert_eq!(end.lines_left(), 1);
    assert!(entered(&["3", "four"]).run(&function, 100).is_none());
}

#[test]
fn machine_stops_where_the_steps_do_not_suffice() {
    let function = compiled("(+ (read) (- 1))");
    // a step for each instruction, the two jumps among them
    let steps: usize = function.blocks.iter().map(|b| b.block.instr.len()).sum();
    assert!(entered(&["3"]).run(&function, steps - 1).is_none());
    assert_eq!(entered(&["3"]).run(&function, steps).unwrap().register(Reg::Rax), Some(2));
    assert!(entered(&["3"]).run(&function, 0).is_none());
}

#[test]
fn machine_forgets_the_frame_when_it_returns() {
    let function = compiled("(+ (read) (read))");
    let end = entered(&["1", "2"]).run(&function, 100).unwrap();
    assert_eq!(end.register(Reg::Rax), Some(3));
    assert_eq!(end.word(STACK - 16), None);
    assert_eq!(end.word(STACK - 8), None);
    assert_eq!(end.word(STACK), None);
}

#[test]
fn machine_keeps_what_a_call_has_to_keep() {
    let vars = vec![home("x", 8)];
    let call = Instr::Call("read_int".to_owned(), 0);
    let set = |r: Reg, n: i64| Instr::Mov64(Arg::Reg(r), Arg::Imm(n));
    let mut machine = Machine::new(lines(&["7"]), STACK, STACK + 8, CALLER);
    for i in [set(Reg::Rax, 1), set(Reg::Rcx, 2), set(Reg::R15, 3), Instr::Mov64(var("x"), Arg::Imm(4))] {
        machine = machine.step(&vars, &i).unwrap();
    }
    // the cell lies at the stack pointer
    assert_eq!(machine.word(STACK), Some(4));
    let after = machine.step(&vars, &call).unwrap();
    assert_eq!(after.register(Reg::Rax), Some(7));
    assert_eq!(after.register(Reg::Rcx), None);
    assert_eq!(after.register(Reg::R15), Some(3));
    assert_eq!(after.register(Reg::Rsp), Some(STACK));
    assert_eq!(after.word(STACK), Some(4));
    assert_eq!(after.lines_left(), 0);
    assert!(after.step(&vars, &call).is_none());
}

#[test]
fn machine_has_no_instruction_with_two_operands_in_memory() {
    let vars = vec![home("x", 8), home("y", 16)];
    let rax = Arg::Reg(Reg::Rax);
    assert!(!check_encodable(&vars, &Instr::Mov64(var("x"), var("y"))));
    assert!(!check_encodable(&vars, &Instr::Add64(var("x"), var("y"))));
    assert!(!check_encodable(&vars, &Instr::Sub64(var("x"), var("y"))));
    assert!(check_encodable(&vars, &Instr::Mov64(var("x"), rax.clone())));
    assert!(check_encodable(&vars, &Instr::Add64(rax.clone(), var("y"))));
    assert!(check_encodable(&vars, &Instr::Neg64(var("x"))));
    // a variable without a home, and an operand that is no place to write to
    assert!(!check_encodable(&vars, &Instr::Neg64(var("z"))));
    assert!(!check_encodable(&vars, &Instr::Neg64(Arg::Imm(1))));
    assert!(!check_encodable(&vars, &Instr::Mov64(Arg::Imm(1), rax.clone())));
    // the runtime has one function that the machine knows
    assert!(check_encodable(&vars, &Instr::Call("read_int".to_owned(), 0)));
    assert!(!check_encodable(&vars, &Instr::Call("print_int".to_owned(), 1)));
    // jumps, returns, pushes and pops are no part of a straight line
    assert!(!check_encodable(&vars, &Instr::Ret));
    assert!(!check_encodable(&vars, &Instr::Jmp(".l1".to_owned())));
    assert!(!check_encodable(&vars, &Instr::Push(rax.clone())));
    assert!(!check_encodable(&vars, &Instr::Pop(rax)));
}

#[test]
fn machine_takes_wide_immediates_into_registers_only() {
    let vars = vec![home("x", 8)];
    let rax = Arg::Reg(Reg::Rax);
    let wide = Arg::Imm(0x8000_0000);
    let narrow = Arg::Imm(-0x8000_0000);
    assert!(check_encodable(&vars, &Instr::Mov64(rax.clone(), wide.clone())));
    assert!(!check_encodable(&vars, &Instr::Mov64(var("x"), wide.clone())));
    assert!(!check_encodable(&vars, &Instr::Add64(rax.clone(), wide)));
    assert!(check_encodable(&vars, &Instr::Mov64(var("x"), narrow.clone())));
    assert!(check_encodable(&vars, &Instr::Add64(rax, narrow)));
}

#[test]
fn machine_does_not_run_a_sum_of_two_variables_into_a_variable() {
    let source = "(let ([x (read)]) (let ([z (+ x x)]) (- z)))";
    assert_eq!(interpreted(source, &["21"]), (Some(-42), 0));
    let function = compiled(source);
    let sum = Instr::Add64(var("z.2"), var("x.1"));
    assert!(body(&function).contains(&sum));
    assert!(!check_runnable(&function.vars, &body(&function)));
    assert!(entered(&["21"]).run(&function, 100).is_none());
}

#[test]
fn machine_does_not_return_where_a_move_went_through_the_patch_register() {
    let source = "(let ([x (read)]) (let ([y x]) (+ y (read))))";
    assert_eq!(interpreted(source, &["40", "2"]), (Some(42), 0));
    let function = compiled(source);
    // the block itself is run, and leaves the value in `rax`
    let instr = body(&function);
    assert!(instr.contains(&Instr::Mov64(Arg::Reg(Reg::R15), var("x.1"))));
    assert!(check_runnable(&function.vars, &instr));
    let mut machine = Machine::new(lines(&["40", "2"]), STACK - 32, STACK - 8, CALLER);
    for i in &instr {
        machine = machine.step(&function.vars, i).unwrap();
    }
    assert_eq!(machine.register(Reg::Rax), Some(42));
    // but the conclusion takes the address to return to for the saved register
    assert!(entered(&["40", "2"]).run(&function, 100).is_none());
}
