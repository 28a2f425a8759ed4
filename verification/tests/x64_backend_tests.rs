use rlang::decomplify::decomplify_program;
use rlang::explicate::explicate_control;
use rlang::explicate::Atm;
use rlang::explicate::Exp;
use rlang::explicate::IRFunction;
use rlang::explicate::IRProgram;
use rlang::explicate::Stmt;
use rlang::explicate::Tail;
use rlang::lexer::Lexer;
use rlang::parser::Parser;
use rlang::uniquify::uniquify_program;
use rlang::x64_backend::check_tail_ok;
use rlang::x64_backend::check_transformable;
use rlang::x64_backend::ir_to_x64;
use rlang::x64_backend::IRToX64Transformer;
use rlang::x64_def::Arg;
use rlang::x64_def::Block;
use rlang::x64_def::Function;
use rlang::x64_def::Home;
use rlang::x64_def::Instr;
use rlang::x64_def::LabelBlockPair;
use rlang::x64_def::Reg;
use rlang::x64_def::VarLoc;

// the intermediate form of the source made unique, without folding
fn unfolded(source: &str) -> IRProgram {
    let ast = Parser::new(Lexer::new(source).lex()).parse();
    explicate_control(decomplify_program(uniquify_program(ast)))
}

fn transform(source: &str) -> Function {
    let ir = unfolded(source);
    let (name, function) = &ir.functions[0];
    assert!(check_transformable(function));
    IRToX64Transformer::new(name.clone(), function).transform()
}

fn block(label: &str, instr: Vec<Instr>) -> LabelBlockPair {
    LabelBlockPair { label: label.to_owned(), block: Block { info: (), instr } }
}

fn reg(r: Reg) -> Arg {
    Arg::Reg(r)
}

fn var(name: &str) -> Arg {
    Arg::Var(name.to_owned())
}

fn jmp(label: &str) -> Instr {
    Instr::Jmp(label.to_owned())
}

fn single(tail: Tail) -> IRFunction {
    IRFunction { locals: vec![], labels: vec![(".l1".to_owned(), tail)] }
}

fn assign(name: &str, rhs: Exp, rest: Tail) -> Tail {
    Tail::Sequence(Stmt::Assign(Atm::Var { name: name.to_owned() }, rhs), Box::new(rest))
}

fn prim(op: &str, args: Vec<Atm>) -> Exp {
    Exp::Prim { op: op.to_owned(), args }
}

fn atm(name: &str) -> Atm {
    Atm::Var { name: name.to_owned() }
}

#[test]
fn x64_constant() {
    let x64_asm = transform("(2)");

    let expected = Function {
        blocks: vec![
            block(
                "prelude",
                vec![
                    Instr::Push(Arg::Reg(Reg::Rbp)),
                    Instr::Mov64(Arg::Reg(Reg::Rbp), Arg::Reg(Reg::Rsp)),
                    jmp(".l1"),
                ],
            ),
            block(".l1", vec![Instr::Mov64(Arg::Reg(Reg::Rax), Arg::Imm(2)), jmp("conclusion")]),
            block(
                "conclusion",
                vec![
                    Instr::Mov64(Arg::Reg(Reg::Rsp), Arg::Reg(Reg::Rbp)),
                    Instr::Pop(Arg::Reg(Reg::Rbp)),
                    Instr::Ret,
                ],
            ),
        ],
        vars: vec![],
    };

    assert_eq!(x64_asm, expected);
    assert_eq!(unfolded("(2)").functions[0].0, "start");
}

#[test]
fn x64_add_negate() {
    let x64_asm = transform("(+ 2 (-1))");

    let temp_var = "tmp.0".to_owned();

    let expected = Function {
        blocks: vec![
            block(
                "prelude",
                vec![
                    Instr::Push(Arg::Reg(Reg::Rbp)),
                    Instr::Mov64(Arg::Reg(Reg::Rbp), Arg::Reg(Reg::Rsp)),
                    Instr::Sub64(Arg::Reg(Reg::Rsp), Arg::Imm(8)),
                    jmp(".l1"),
                ],
            ),
            block(
                ".l1",
                vec![
                    Instr::Mov64(Arg::Var(temp_var.clone()), Arg::Imm(1)),
                    Instr::Neg64(Arg::Var(temp_var.clone())),
                    Instr::Mov64(Arg::Reg(Reg::Rax), Arg::Imm(2)),
                    Instr::Add64(Arg::Reg(Reg::Rax), Arg::Var(temp_var.clone())),
                    jmp("conclusion"),
                ],
            ),
            block(
                "conclusion",
                vec![
                    Instr::Add64(Arg::Reg(Reg::Rsp), Arg::Imm(8)),
                    Instr::Mov64(Arg::Reg(Reg::Rsp), Arg::Reg(Reg::Rbp)),
                    Instr::Pop(Arg::Reg(Reg::Rbp)),
                    Instr::Ret,
                ],
            ),
        ],
        vars: vec![Home { name: temp_var, loc: VarLoc::Rbp(8) }],
    };

    assert_eq!(x64_asm, expected);
    assert_eq!(unfolded("(+ 2 (-1))").functions[0].0, "start");
}

#[test]
fn x64_let_nested() {
    // here the patch instruction phase comes into play
    // setting y to x will result in two memory operands
    let x64_asm = transform("(let ([x 42]) (let ([y x]) y))");

    let x_var = "x.1".to_owned();
    let y_var = "y.2".to_owned();

    let expected = Function {
        blocks: vec![
            block(
                "prelude",
                vec![
                    Instr::Push(Arg::Reg(Reg::Rbp)),
                    Instr::Mov64(Arg::Reg(Reg::Rbp), Arg::Reg(Reg::Rsp)),
                    Instr::Sub64(Arg::Reg(Reg::Rsp), Arg::Imm(16)),
                    jmp(".l1"),
                    Instr::Push(Arg::Reg(Reg::R15)),
                ],
            ),
            block(
                ".l1",
                vec![
                    Instr::Mov64(Arg::Var(x_var.clone()), Arg::Imm(42)),
                    Instr::Mov64(Arg::Reg(Reg::R15), Arg::Var(x_var.clone())),
                    Instr::Mov64(Arg::Var(y_var.clone()), Arg::Reg(Reg::R15)),
                    Instr::Mov64(Arg::Reg(Reg::Rax), Arg::Var(y_var.clone())),
                    jmp("conclusion"),
                ],
            ),
            block(
                "conclusion",
                vec![
                    Instr::Add64(Arg::Reg(Reg::Rsp), Arg::Imm(16)),
                    Instr::Mov64(Arg::Reg(Reg::Rsp), Arg::Reg(Reg::Rbp)),
                    Instr::Pop(Arg::Reg(Reg::Rbp)),
                    Instr::Pop(Arg::Reg(Reg::R15)),
                    Instr::Ret,
                ],
            ),
        ],
        vars: vec![
            Home { name: x_var, loc: VarLoc::Rbp(8) },
            Home { name: y_var, loc: VarLoc::Rbp(16) },
        ],
    };

    assert_eq!(x64_asm, expected);
    assert_eq!(unfolded("(let ([x 42]) (let ([y x]) y))").functions[0].0, "start");
}

#[test]
fn select_read_calls_the_runtime() {
    let function = single(assign("x", prim("read", vec![]), Tail::Return(prim("read", vec![]))));
    let mut transformer = IRToX64Transformer::new("start".to_owned(), &function);
    let mut block = Block { info: (), instr: vec![] };
    transformer.select_instruction(&function.labels[0].1, &mut block);
    assert_eq!(
        block.instr,
        vec![
            Instr::Call("read_int".to_owned(), 0),
            Instr::Mov64(var("x"), reg(Reg::Rax)),
            Instr::Call("read_int".to_owned(), 0),
        ]
    );
    assert_eq!(transformer.homes(), &vec![Home { name: "x".to_owned(), loc: VarLoc::Undefined }]);
    assert_eq!(transformer.get_externals(), vec!["read_int".to_owned()]);
}

#[test]
fn select_addition_into_its_own_left_operand_is_one_instruction() {
    let tail = assign(
        "x",
        Exp::Atm(Atm::Int(1)),
        assign(
            "x",
            prim("+", vec![atm("x"), Atm::Int(5)]),
            assign(
                "y",
                prim("+", vec![atm("x"), atm("x")]),
                Tail::Return(prim("+", vec![atm("y"), atm("y")])),
            ),
        ),
    );
    let function = single(tail);
    let mut transformer = IRToX64Transformer::new("start".to_owned(), &function);
    let mut block = Block { info: (), instr: vec![] };
    transformer.select_instruction(&function.labels[0].1, &mut block);
    assert_eq!(
        block.instr,
        vec![
            Instr::Mov64(var("x"), Arg::Imm(1)),
            Instr::Add64(var("x"), Arg::Imm(5)),
            Instr::Mov64(var("y"), var("x")),
            Instr::Add64(var("y"), var("x")),
            Instr::Mov64(reg(Reg::Rax), var("y")),
            Instr::Add64(reg(Reg::Rax), var("y")),
        ]
    );
    let names: Vec<String> = transformer.homes().iter().map(|h| h.name.clone()).collect();
    assert_eq!(names, vec!["x", "y"]);
    assert!(transformer.get_externals().is_empty());
}

#[test]
fn select_return_of_negation_goes_through_rax() {
    let function = single(Tail::Return(prim("-", vec![atm("a")])));
    let mut transformer = IRToX64Transformer::new("start".to_owned(), &function);
    let mut block = Block { info: (), instr: vec![Instr::Ret] };
    transformer.select_instruction(&function.labels[0].1, &mut block);
    assert_eq!(
        block.instr,
        vec![Instr::Ret, Instr::Mov64(reg(Reg::Rax), var("a")), Instr::Neg64(reg(Reg::Rax))]
    );
}

#[test]
fn assign_homes_goes_by_natural_order() {
    let tail = assign(
        "tmp.10",
        Exp::Atm(Atm::Int(1)),
        assign(
            "tmp.2",
            Exp::Atm(atm("tmp.10")),
            assign("a", Exp::Atm(atm("tmp.2")), Tail::Return(Exp::Atm(atm("a")))),
        ),
    );
    let function = single(tail);
    let mut transformer = IRToX64Transformer::new("start".to_owned(), &function);
    let mut block = Block { info: (), instr: vec![] };
    transformer.select_instruction(&function.labels[0].1, &mut block);
    transformer.assign_homes();
    assert_eq!(
        transformer.homes(),
        &vec![
            Home { name: "a".to_owned(), loc: VarLoc::Rbp(8) },
            Home { name: "tmp.2".to_owned(), loc: VarLoc::Rbp(16) },
            Home { name: "tmp.10".to_owned(), loc: VarLoc::Rbp(24) },
        ]
    );
    for home in transformer.homes() {
        assert_ne!(home.loc, VarLoc::Undefined);
    }
}

#[test]
fn transform_leaves_no_move_between_variables() {
    for source in ["(let ([x 42]) (let ([y x]) y))", "(let ([a (read)][b a][c b]) (+ c a))"] {
        let function = transform(source);
        for pair in &function.blocks {
            for instr in &pair.block.instr {
                assert!(!matches!(instr, Instr::Mov64(Arg::Var(_), Arg::Var(_))));
            }
        }
        for home in &function.vars {
            assert_ne!(home.loc, VarLoc::Undefined);
        }
    }
}

#[test]
fn transform_frames_the_blocks() {
    for source in ["(2)", "(+ (read) (read))", "(- (read))"] {
        let function = transform(source);
        let last = function.blocks.len() - 1;
        assert_eq!(function.blocks[0].label, "prelude");
        assert_eq!(function.blocks[last].label, "conclusion");
        assert_eq!(function.blocks[last].block.instr.last(), Some(&Instr::Ret));
        for pair in &function.blocks[..last] {
            assert!(matches!(pair.block.instr.last(), Some(Instr::Jmp(_)) | Some(Instr::Ret)));
        }
    }
}

#[test]
fn transform_orders_blocks_by_label() {
    let function = IRFunction {
        locals: vec![],
        labels: vec![
            (".l10".to_owned(), Tail::Return(Exp::Atm(Atm::Int(10)))),
            (".l2".to_owned(), Tail::Return(Exp::Atm(Atm::Int(2)))),
            (".l1".to_owned(), Tail::Return(Exp::Atm(Atm::Int(1)))),
        ],
    };
    let mut transformer = IRToX64Transformer::new("start".to_owned(), &function);
    let out = transformer.transform();
    let labels: Vec<&str> = out.blocks.iter().map(|b| b.label.as_str()).collect();
    assert_eq!(labels, vec!["prelude", ".l1", ".l2", ".l10", "conclusion"]);
    assert_eq!(out.blocks[3].block.instr, vec![Instr::Mov64(reg(Reg::Rax), Arg::Imm(10)), jmp("conclusion")]);
    assert_eq!(out.blocks[1].block.instr, vec![Instr::Mov64(reg(Reg::Rax), Arg::Imm(1))]);
    let live = transformer.liveness();
    assert_eq!(live.len(), 5);
    assert_eq!(live[0].0, "prelude");
}

#[test]
fn transform_refuses_what_cannot_be_selected() {
    let odd = single(Tail::Return(prim("*", vec![Atm::Int(1), Atm::Int(2)])));
    assert!(!check_tail_ok(&odd.labels[0].1));
    assert!(!check_transformable(&odd));
    let short = single(Tail::Return(prim("+", vec![Atm::Int(1)])));
    assert!(!check_transformable(&short));
    let empty = IRFunction { locals: vec![], labels: vec![] };
    assert!(!check_transformable(&empty));
    let fine = single(Tail::Return(prim("+", vec![Atm::Int(1), Atm::Int(2)])));
    assert!(check_transformable(&fine));
}

#[test]
fn program_lists_runtime_symbols_once() {
    let reads = || assign("x", prim("read", vec![]), Tail::Return(prim("read", vec![])));
    let program = IRProgram {
        functions: vec![
            ("start".to_owned(), single(reads())),
            ("other".to_owned(), single(reads())),
            ("plain".to_owned(), single(Tail::Return(Exp::Atm(Atm::Int(0))))),
        ],
    };
    let x64 = ir_to_x64(program);
    assert_eq!(x64.external, vec!["read_int".to_owned()]);
    let names: Vec<&str> = x64.functions.iter().map(|f| f.0.as_str()).collect();
    assert_eq!(names, vec!["start", "other", "plain"]);
    assert_eq!(x64.functions[2].1.vars, vec![]);
    assert_eq!(x64.functions[1].1.vars, vec![Home { name: "x".to_owned(), loc: VarLoc::Rbp(8) }]);
}

#[test]
fn transform_saves_the_patch_register_behind_the_jump() {
    let function = transform("(- (- (read)))");
    assert_eq!(function.blocks[0].label, "prelude");
    assert_eq!(function.blocks[0].block.instr.last(), Some(&Instr::Push(reg(Reg::R15))));
    let conclusion = &function.blocks[function.blocks.len() - 1];
    assert_eq!(conclusion.label, "conclusion");
    let n = conclusion.block.instr.len();
    assert_eq!(conclusion.block.instr[n - 2..], [Instr::Pop(reg(Reg::R15)), Instr::Ret]);
}
