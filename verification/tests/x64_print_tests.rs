use rlang::decomplify::decomplify_program;
use rlang::explicate::explicate_control;
use rlang::lexer::Lexer;
use rlang::parser::Parser;
use rlang::uniquify::uniquify_program;
use rlang::utility::test_x64_helper;
use rlang::x64_backend::ir_to_x64;
use rlang::x64_def::Arg;
use rlang::x64_def::Block;
use rlang::x64_def::Function;
use rlang::x64_def::Home;
use rlang::x64_def::Instr;
use rlang::x64_def::LabelBlockPair;
use rlang::x64_def::Reg;
use rlang::x64_def::VarLoc;
use rlang::x64_def::X64Program;
use rlang::x64_print::check_printable;
use rlang::x64_print::X64Printer;

fn helper(prog: &'static str) -> String {
    let program = test_x64_helper(prog).unwrap();
    assert!(check_printable(&program));
    X64Printer::new(program).print()
}

// the text of the source made unique, without folding
fn unfolded(prog: &'static str) -> String {
    let ast = Parser::new(Lexer::new(prog).lex()).parse();
    let program = ir_to_x64(explicate_control(decomplify_program(uniquify_program(ast))));
    assert!(check_printable(&program));
    X64Printer::new(program).print()
}

fn one_block(instr: Vec<Instr>, vars: Vec<Home>) -> X64Program {
    X64Program {
        external: vec![],
        functions: vec![(
            "start".to_owned(),
            Function {
                blocks: vec![LabelBlockPair {
                    label: "start".to_owned(),
                    block: Block { info: (), instr },
                }],
                vars,
            },
        )],
    }
}

#[test]
fn x64_print_tests_x64_print_constant() {
    let asm_text = helper("(2)");

    let expect_print = "global start

section .text

prelude:
    push rbp
    mov rbp, rsp
    jmp .l1

.l1:
    mov rax, 2
    jmp conclusion

conclusion:
    mov rsp, rbp
    pop rbp
    ret
"
    .to_owned();

    assert_eq!(asm_text, expect_print);
}

#[test]
fn x64_print_tests_x64_print_addition() {
    let asm_text = helper("(+ 2 2)");

    let expect_print = "global start

section .text

prelude:
    push rbp
    mov rbp, rsp
    jmp .l1

.l1:
    mov rax, 4
    jmp conclusion

conclusion:
    mov rsp, rbp
    pop rbp
    ret
"
    .to_owned();

    assert_eq!(asm_text, expect_print);
}

#[test]
fn x64_print_tests_x64_print_negate_then_add() {
    let asm_text = helper("(+ (- 10) 42)");

    let expect_print = "global start

section .text

prelude:
    push rbp
    mov rbp, rsp
    jmp .l1

.l1:
    mov rax, 32
    jmp conclusion

conclusion:
    mov rsp, rbp
    pop rbp
    ret
"
    .to_owned();

    assert_eq!(asm_text, expect_print);
}

#[test]
fn x64_print_add_two_read() {
    let asm_text = helper("(+ (read) (read))");

    let expect_print = "extern read_int

global start

section .text

prelude:
    push rbp
    mov rbp, rsp
    sub rsp, 16
    jmp .l1

.l1:
    call read_int
    mov qword [rbp-8], rax
    call read_int
    mov qword [rbp-16], rax
    mov rax, qword [rbp-8]
    add rax, qword [rbp-16]
    jmp conclusion

conclusion:
    add rsp, 16
    mov rsp, rbp
    pop rbp
    ret
"
    .to_owned();

    assert_eq!(asm_text, expect_print);
}

#[test]
fn x64_print_let_add() {
    // without its last parenthesis the text is no program
    assert!(test_x64_helper("(let ([x (read)]) (+ x x)").is_none());

    let asm_text = helper("(let ([x (read)]) (+ x x))");

    let expect_print = "extern read_int

global start

section .text

prelude:
    push rbp
    mov rbp, rsp
    sub rsp, 8
    jmp .l1

.l1:
    call read_int
    mov qword [rbp-8], rax
    mov rax, qword [rbp-8]
    add rax, qword [rbp-8]
    jmp conclusion

conclusion:
    add rsp, 8
    mov rsp, rbp
    pop rbp
    ret
"
    .to_owned();

    assert_eq!(asm_text, expect_print);
}

#[test]
fn x64_print_constant() {
    let asm_text = unfolded("(2)");

    let expect_print = "global start

section .text

prelude:
    push rbp
    mov rbp, rsp
    jmp .l1

.l1:
    mov rax, 2
    jmp conclusion

conclusion:
    mov rsp, rbp
    pop rbp
    ret
"
    .to_owned();

    assert_eq!(asm_text, expect_print);
}

#[test]
fn x64_print_addition() {
    let asm_text = unfolded("(+ 2 2)");

    let expect_print = "global start

section .text

prelude:
    push rbp
    mov rbp, rsp
    jmp .l1

.l1:
    mov rax, 2
    add rax, 2
    jmp conclusion

conclusion:
    mov rsp, rbp
    pop rbp
    ret
"
    .to_owned();

    assert_eq!(asm_text, expect_print);
}

#[test]
fn x64_print_negate_then_add() {
    let asm_text = unfolded("(+ (- 10) 42)");

    let expect_print = "global start

section .text

prelude:
    push rbp
    mov rbp, rsp
    sub rsp, 8
    jmp .l1

.l1:
    mov qword [rbp-8], 10
    neg qword [rbp-8]
    mov rax, qword [rbp-8]
    add rax, 42
    jmp conclusion

conclusion:
    add rsp, 8
    mov rsp, rbp
    pop rbp
    ret
"
    .to_owned();

    assert_eq!(asm_text, expect_print);
}

#[test]
fn print_every_mnemonic_and_register() {
    let regs = [
        (Reg::Rsp, "rsp"),
        (Reg::Rbp, "rbp"),
        (Reg::Rax, "rax"),
        (Reg::Rbx, "rbx"),
        (Reg::Rcx, "rcx"),
        (Reg::Rdx, "rdx"),
        (Reg::Rsi, "rsi"),
        (Reg::Rdi, "rdi"),
        (Reg::R8, "r8"),
        (Reg::R9, "r9"),
        (Reg::R10, "r10"),
        (Reg::R11, "r11"),
        (Reg::R12, "r12"),
        (Reg::R13, "r13"),
        (Reg::R14, "r14"),
        (Reg::R15, "r15"),
    ];
    for (reg, name) in regs {
        let text = X64Printer::new(one_block(vec![Instr::Push(Arg::Reg(reg))], vec![])).print();
        assert_eq!(text, format!("global start\n\nsection .text\n\nstart:\n    push {}\n", name));
    }
    let program = one_block(
        vec![
            Instr::Add64(Arg::Reg(Reg::Rax), Arg::Imm(-5)),
            Instr::Sub64(Arg::Reg(Reg::Rsp), Arg::Imm(i64::MIN)),
            Instr::Mov64(Arg::Var("v".to_owned()), Arg::Var("w".to_owned())),
            Instr::Neg64(Arg::Var("w".to_owned())),
            Instr::Call("print_int".to_owned(), 1),
            Instr::Pop(Arg::Reg(Reg::R15)),
            Instr::Jmp(".l7".to_owned()),
            Instr::Ret,
        ],
        vec![
            Home { name: "v".to_owned(), loc: VarLoc::Rbp(24) },
            Home { name: "w".to_owned(), loc: VarLoc::Reg(Reg::Rbx) },
        ],
    );
    assert!(check_printable(&program));
    let text = X64Printer::new(program).print();
    let expected = "global start

section .text

start:
    add rax, -5
    sub rsp, -9223372036854775808
    mov qword [rbp-24], rbx
    neg rbx
    call print_int
    pop r15
    jmp .l7
    ret
";
    assert_eq!(text, expected);
}

#[test]
fn print_externals_one_on_a_line() {
    let mut program = one_block(vec![Instr::Ret], vec![]);
    program.external = vec!["read_int".to_owned(), "print_int".to_owned()];
    let text = X64Printer::new(program).print();
    assert_eq!(
        text,
        "extern read_int\nextern print_int\n\nglobal start\n\nsection .text\n\nstart:\n    ret\n"
    );
}

#[test]
fn print_program_without_functions() {
    let program = X64Program { external: vec![], functions: vec![] };
    assert!(check_printable(&program));
    assert_eq!(X64Printer::new(program).print(), "global start\n\nsection .text\n\n");
}

#[test]
fn print_needs_a_home_for_every_variable() {
    let homeless = one_block(vec![Instr::Neg64(Arg::Var("v".to_owned()))], vec![]);
    assert!(!check_printable(&homeless));
    let undefined = one_block(
        vec![Instr::Neg64(Arg::Var("v".to_owned()))],
        vec![Home { name: "v".to_owned(), loc: VarLoc::Undefined }],
    );
    assert!(!check_printable(&undefined));
    let memory = one_block(vec![Instr::Push(Arg::Deref(Reg::Rbp, 8))], vec![]);
    assert!(!check_printable(&memory));
    let fine = one_block(
        vec![Instr::Neg64(Arg::Var("v".to_owned()))],
        vec![Home { name: "v".to_owned(), loc: VarLoc::Rbp(8) }],
    );
    assert!(check_printable(&fine));
}
