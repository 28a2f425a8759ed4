//! The text of a program in x86-64, for the NASM assembler.

use crate::text::push_signed_decimal;
use crate::text::signed_decimal;
use crate::x64_def::Arg;
use crate::x64_def::ArgView;
use crate::x64_def::BlockView;
use crate::x64_def::Function;
use crate::x64_def::FunctionView;
use crate::x64_def::Home;
use crate::x64_def::homes_view;
use crate::x64_def::HomeView;
use crate::x64_def::Instr;
use crate::x64_def::InstrView;
use crate::x64_def::LabelBlockPair;
use crate::x64_def::Reg;
use crate::x64_def::VarLoc;
use crate::x64_def::X64Program;
use crate::x64_def::X64ProgramView;
use vstd::prelude::*;

verus! {

/// A register's name.
pub open spec fn reg_text(r: Reg) -> Seq<char> {
    match r {
        Reg::Rsp => "rsp"@,
        Reg::Rbp => "rbp"@,
        Reg::Rax => "rax"@,
        Reg::Rbx => "rbx"@,
        Reg::Rcx => "rcx"@,
        Reg::Rdx => "rdx"@,
        Reg::Rsi => "rsi"@,
        Reg::Rdi => "rdi"@,
        Reg::R8 => "r8"@,
        Reg::R9 => "r9"@,
        Reg::R10 => "r10"@,
        Reg::R11 => "r11"@,
        Reg::R12 => "r12"@,
        Reg::R13 => "r13"@,
        Reg::R14 => "r14"@,
        Reg::R15 => "r15"@,
    }
}

/// The place of the first home of `name` among the first ones from `from` on.
pub open spec fn home_of(vars: Seq<HomeView>, name: Seq<char>, from: int) -> Option<VarLoc>
    decreases vars.len() - from,
{
    if from < 0 || from >= vars.len() {
        None
    } else if vars[from].name == name {
        Some(vars[from].loc)
    } else {
        home_of(vars, name, from + 1)
    }
}

/// The text of a place: a register's name, or the stack slot at `rbp` minus
/// the offset.
pub open spec fn loc_text(loc: VarLoc) -> Seq<char> {
    match loc {
        VarLoc::Reg(r) => reg_text(r),
        VarLoc::Rbp(offset) => "qword [rbp-"@ + signed_decimal(offset as int) + "]"@,
        VarLoc::Undefined => Seq::empty(),
    }
}

/// An operand that has a text: an immediate, a register, or a variable
/// that has a home with a place.
pub open spec fn arg_printable(vars: Seq<HomeView>, a: ArgView) -> bool {
    match a {
        ArgView::Imm(_) => true,
        ArgView::Reg(_) => true,
        ArgView::Var(name) => home_of(vars, name, 0) matches Some(loc) && loc != VarLoc::Undefined,
        ArgView::Deref(_, _) => false,
    }
}

/// The text of an operand: an immediate in decimal, a register's name, a
/// variable's place.
pub open spec fn arg_text(vars: Seq<HomeView>, a: ArgView) -> Seq<char> {
    match a {
        ArgView::Imm(n) => signed_decimal(n as int),
        ArgView::Reg(r) => reg_text(r),
        ArgView::Var(name) => match home_of(vars, name, 0) {
            Some(loc) => loc_text(loc),
            None => Seq::empty(),
        },
        ArgView::Deref(_, _) => Seq::empty(),
    }
}

/// An instruction whose operands all have a text.
pub open spec fn instr_printable(vars: Seq<HomeView>, i: InstrView) -> bool {
    match i {
        InstrView::Add64(a, b) => arg_printable(vars, a) && arg_printable(vars, b),
        InstrView::Sub64(a, b) => arg_printable(vars, a) && arg_printable(vars, b),
        InstrView::Mov64(a, b) => arg_printable(vars, a) && arg_printable(vars, b),
        InstrView::Neg64(a) => arg_printable(vars, a),
        InstrView::Push(a) => arg_printable(vars, a),
        InstrView::Pop(a) => arg_printable(vars, a),
        _ => true,
    }
}

/// The text of two operands behind a mnemonic.
pub open spec fn binary_text(mnemonic: Seq<char>, vars: Seq<HomeView>, a: ArgView, b: ArgView) -> Seq<
    char,
> {
    mnemonic + arg_text(vars, a) + ", "@ + arg_text(vars, b) + "\n"@
}

/// The text of one operand behind a mnemonic.
pub open spec fn unary_text(mnemonic: Seq<char>, operand: Seq<char>) -> Seq<char> {
    mnemonic + operand + "\n"@
}

/// The line of an instruction, without its indent.
pub open spec fn instr_text(vars: Seq<HomeView>, i: InstrView) -> Seq<char> {
    match i {
        InstrView::Add64(a, b) => binary_text("add "@, vars, a, b),
        InstrView::Sub64(a, b) => binary_text("sub "@, vars, a, b),
        InstrView::Mov64(a, b) => binary_text("mov "@, vars, a, b),
        InstrView::Neg64(a) => unary_text("neg "@, arg_text(vars, a)),
        InstrView::Call(f, _) => unary_text("call "@, f),
        InstrView::Ret => "ret\n"@,
        InstrView::Push(a) => unary_text("push "@, arg_text(vars, a)),
        InstrView::Pop(a) => unary_text("pop "@, arg_text(vars, a)),
        InstrView::Jmp(label) => unary_text("jmp "@, label),
    }
}

/// The lines of the first `n` instructions, each behind four spaces.
pub open spec fn instrs_text(vars: Seq<HomeView>, instr: Seq<InstrView>, n: nat) -> Seq<char>
    decreases n,
{
    if n == 0 || n > instr.len() {
        Seq::empty()
    } else {
        instrs_text(vars, instr, (n - 1) as nat) + "    "@ + instr_text(vars, instr[n - 1])
    }
}

/// The text of a block: its label, a colon, and its instructions' lines.
pub open spec fn block_text(vars: Seq<HomeView>, b: BlockView) -> Seq<char> {
    b.label + ":\n"@ + instrs_text(vars, b.instr, b.instr.len())
}

/// What stands between two blocks or two names: nothing before the first.
pub open spec fn separator(n: nat, text: Seq<char>) -> Seq<char> {
    if n > 1 {
        text
    } else {
        Seq::empty()
    }
}

/// The texts of the first `n` blocks, a blank line between two of them.
pub open spec fn blocks_text(vars: Seq<HomeView>, blocks: Seq<BlockView>, n: nat) -> Seq<char>
    decreases n,
{
    if n == 0 || n > blocks.len() {
        Seq::empty()
    } else {
        blocks_text(vars, blocks, (n - 1) as nat) + separator(n, "\n"@) + block_text(
            vars,
            blocks[n - 1],
        )
    }
}

/// The text of a function: that of its blocks.
pub open spec fn function_text(f: FunctionView) -> Seq<char> {
    blocks_text(f.vars, f.blocks, f.blocks.len())
}

/// The texts of the first `n` functions, a blank line between two of them.
pub open spec fn functions_text(fs: Seq<(Seq<char>, FunctionView)>, n: nat) -> Seq<char>
    decreases n,
{
    if n == 0 || n > fs.len() {
        Seq::empty()
    } else {
        functions_text(fs, (n - 1) as nat) + separator(n, "\n"@) + function_text(fs[n - 1].1)
    }
}

/// The declarations of the first `n` runtime symbols, one on a line.
pub open spec fn externs_text(external: Seq<Seq<char>>, n: nat) -> Seq<char>
    decreases n,
{
    if n == 0 || n > external.len() {
        Seq::empty()
    } else {
        externs_text(external, (n - 1) as nat) + separator(n, "\n"@) + "extern "@ + external[n
            - 1]
    }
}

/// The head of the text: the runtime symbols, where there are any, and a
/// blank line behind them.
pub open spec fn header_text(external: Seq<Seq<char>>) -> Seq<char> {
    if external.len() > 0 {
        externs_text(external, external.len()) + "\n\n"@
    } else {
        Seq::empty()
    }
}

/// The text of a program: the runtime symbols it calls, the entry point's
/// declaration, the section, and the functions.
pub open spec fn program_text(p: X64ProgramView) -> Seq<char> {
    header_text(p.external) + "global start\n\n"@ + "section .text\n\n"@ + functions_text(
        p.functions,
        p.functions.len(),
    )
}

/// A function whose instructions all have a text.
pub open spec fn function_printable(f: FunctionView) -> bool {
    forall|b: int, k: int|
        0 <= b < f.blocks.len() && 0 <= k < f.blocks[b].instr.len() ==> instr_printable(
            f.vars,
            #[trigger] f.blocks[b].instr[k],
        )
}

/// A program whose instructions all have a text.
pub open spec fn program_printable(p: X64ProgramView) -> bool {
    forall|i: int| 0 <= i < p.functions.len() ==> function_printable((#[trigger] p.functions[i]).1)
}

/// The printer of a program.
pub struct X64Printer {
    program: X64Program,
}

impl View for X64Printer {
    type V = X64ProgramView;

    closed spec fn view(&self) -> X64ProgramView {
        self.program@
    }
}

/// The place of the variable `name`.
pub(crate) fn get_var<'b>(vars: &'b Vec<Home>, name: &String) -> (r: Option<&'b Home>)
    ensures
        r is Some <==> home_of(homes_view(vars@), name@, 0) is Some,
        r matches Some(h) ==> Some(h.loc) == home_of(homes_view(vars@), name@, 0),
{
    let mut i: usize = 0;
    while i < vars.len()
        invariant
            i <= vars@.len(),
            home_of(homes_view(vars@), name@, 0) == home_of(homes_view(vars@), name@, i as int),
        decreases vars.len() - i,
    {
        if vars[i].name == *name {
            return Some(&vars[i]);
        }
        i += 1;
    }
    None
}

fn reg_to_string(reg: &Reg) -> (r: String)
    ensures
        r@ == reg_text(*reg),
{
    match reg {
        Reg::Rsp => String::from_str("rsp"),
        Reg::Rbp => String::from_str("rbp"),
        Reg::Rax => String::from_str("rax"),
        Reg::Rbx => String::from_str("rbx"),
        Reg::Rcx => String::from_str("rcx"),
        Reg::Rdx => String::from_str("rdx"),
        Reg::Rsi => String::from_str("rsi"),
        Reg::Rdi => String::from_str("rdi"),
        Reg::R8 => String::from_str("r8"),
        Reg::R9 => String::from_str("r9"),
        Reg::R10 => String::from_str("r10"),
        Reg::R11 => String::from_str("r11"),
        Reg::R12 => String::from_str("r12"),
        Reg::R13 => String::from_str("r13"),
        Reg::R14 => String::from_str("r14"),
        Reg::R15 => String::from_str("r15"),
    }
}

fn arg_to_string(vars: &Vec<Home>, arg: &Arg) -> (r: String)
    requires
        arg_printable(homes_view(vars@), arg@),
    ensures
        r@ == arg_text(homes_view(vars@), arg@),
{
    match arg {
        Arg::Var(name) => {
            match get_var(vars, name) {
                Some(the_var) => match &the_var.loc {
                    VarLoc::Reg(reg) => reg_to_string(reg),
                    VarLoc::Rbp(offset) => {
                        let mut s = String::from_str("qword [rbp-");
                        push_signed_decimal(&mut s, *offset);
                        s.append("]");
                        s
                    },
                    VarLoc::Undefined => String::new(),
                },
                None => String::new(),
            }
        },
        Arg::Imm(int64) => {
            let mut s = String::new();
            push_signed_decimal(&mut s, *int64);
            assert(s@ =~= signed_decimal(*int64 as int));
            s
        },
        Arg::Reg(reg) => reg_to_string(reg),
        Arg::Deref(_, _) => String::new(),
    }
}

fn binary_to_text(mnemonic: &str, vars: &Vec<Home>, a: &Arg, b: &Arg) -> (r: String)
    requires
        arg_printable(homes_view(vars@), a@),
        arg_printable(homes_view(vars@), b@),
    ensures
        r@ == binary_text(mnemonic@, homes_view(vars@), a@, b@),
{
    let mut s = String::from_str(mnemonic);
    s.append(arg_to_string(vars, a).as_str());
    s.append(", ");
    s.append(arg_to_string(vars, b).as_str());
    s.append("\n");
    s
}

fn unary_to_text(mnemonic: &str, operand: &str) -> (r: String)
    ensures
        r@ == unary_text(mnemonic@, operand@),
{
    let mut s = String::from_str(mnemonic);
    s.append(operand);
    s.append("\n");
    s
}

fn instr_to_text(vars: &Vec<Home>, instr: &Instr) -> (r: String)
    requires
        instr_printable(homes_view(vars@), instr@),
    ensures
        r@ == instr_text(homes_view(vars@), instr@),
{
    match instr {
        Instr::Add64(arg1, arg2) => binary_to_text("add ", vars, arg1, arg2),
        Instr::Sub64(arg1, arg2) => binary_to_text("sub ", vars, arg1, arg2),
        Instr::Mov64(arg1, arg2) => binary_to_text("mov ", vars, arg1, arg2),
        Instr::Neg64(arg) => unary_to_text("neg ", arg_to_string(vars, arg).as_str()),
        Instr::Call(func, _) => unary_to_text("call ", func.as_str()),
        Instr::Ret => String::from_str("ret\n"),
        Instr::Push(arg) => unary_to_text("push ", arg_to_string(vars, arg).as_str()),
        Instr::Pop(arg) => unary_to_text("pop ", arg_to_string(vars, arg).as_str()),
        Instr::Jmp(label) => unary_to_text("jmp ", label.as_str()),
    }
}

fn block_to_text(vars: &Vec<Home>, lbp: &LabelBlockPair) -> (r: String)
    requires
        forall|k: int|
            0 <= k < lbp@.instr.len() ==> instr_printable(homes_view(vars@), #[trigger] lbp@.instr[k]),
    ensures
        r@ == block_text(homes_view(vars@), lbp@),
{
    let mut lines = String::new();
    let mut k: usize = 0;
    while k < lbp.block.instr.len()
        invariant
            k <= lbp.block.instr@.len(),
            forall|k: int|
                0 <= k < lbp@.instr.len() ==> instr_printable(
                    homes_view(vars@),
                    #[trigger] lbp@.instr[k],
                ),
            lines@ == instrs_text(homes_view(vars@), lbp@.instr, k as nat),
        decreases lbp.block.instr.len() - k,
    {
        assert(lbp@.instr[k as int] == lbp.block.instr@[k as int]@);
        lines.append("    ");
        lines.append(instr_to_text(vars, &lbp.block.instr[k]).as_str());
        k += 1;
    }
    let mut text = lbp.label.clone();
    text.append(":\n");
    text.append(lines.as_str());
    text
}

fn function_to_text(func: &Function) -> (r: String)
    requires
        function_printable(func@),
    ensures
        r@ == function_text(func@),
{
    let mut text = String::new();
    let mut b: usize = 0;
    while b < func.blocks.len()
        invariant
            b <= func.blocks@.len(),
            function_printable(func@),
            text@ == blocks_text(func@.vars, func@.blocks, b as nat),
        decreases func.blocks.len() - b,
    {
        assert(func@.blocks[b as int] == func.blocks@[b as int]@);
        assert forall|k: int| 0 <= k < func.blocks@[b as int]@.instr.len() implies instr_printable(
            homes_view(func.vars@),
            #[trigger] func.blocks@[b as int]@.instr[k],
        ) by {
            assert(instr_printable(func@.vars, func@.blocks[b as int].instr[k]));
        }
        if b > 0 {
            text.append("\n");
        }
        assert(text@ =~= blocks_text(func@.vars, func@.blocks, b as nat) + separator(
            (b + 1) as nat,
            "\n"@,
        ));
        text.append(block_to_text(&func.vars, &func.blocks[b]).as_str());
        b += 1;
    }
    text
}

impl X64Printer {
    pub fn new(program: X64Program) -> (r: Self)
        ensures
            r@ == program@,
    {
        Self { program }
    }

    /// The text of the program.
    pub fn print(&self) -> (text: String)
        requires
            program_printable(self@),
        ensures
            text@ == program_text(self@),
    {
        let ghost p = self.program@;
        let mut header = String::new();
        let mut i: usize = 0;
        while i < self.program.external.len()
            invariant
                i <= self.program.external@.len(),
                p == self.program@,
                header@ == externs_text(p.external, i as nat),
            decreases self.program.external.len() - i,
        {
            if i > 0 {
                header.append("\n");
            }
            assert(header@ =~= externs_text(p.external, i as nat) + separator(
                (i + 1) as nat,
                "\n"@,
            ));
            header.append("extern ");
            header.append(self.program.external[i].as_str());
            i += 1;
        }
        if self.program.external.len() > 0 {
            header.append("\n\n");
        }
        let mut body = String::new();
        let mut i: usize = 0;
        while i < self.program.functions.len()
            invariant
                i <= self.program.functions@.len(),
                p == self.program@,
                program_printable(p),
                body@ == functions_text(p.functions, i as nat),
            decreases self.program.functions.len() - i,
        {
            assert(p.functions[i as int].1 == self.program.functions@[i as int].1@);
            assert(function_printable(p.functions[i as int].1));
            if i > 0 {
                body.append("\n");
            }
            assert(body@ =~= functions_text(p.functions, i as nat) + separator(
                (i + 1) as nat,
                "\n"@,
            ));
            body.append(function_to_text(&self.program.functions[i].1).as_str());
            i += 1;
        }
        let mut text = header;
        text.append("global start\n\n");
        text.append("section .text\n\n");
        text.append(body.as_str());
        text
    }
}

/// Whether the operand has a text.
fn check_arg_printable(vars: &Vec<Home>, arg: &Arg) -> (r: bool)
    ensures
        r == arg_printable(homes_view(vars@), arg@),
{
    match arg {
        Arg::Imm(_) => true,
        Arg::Reg(_) => true,
        Arg::Var(name) => match get_var(vars, name) {
            Some(home) => match home.loc {
                VarLoc::Undefined => false,
                _ => true,
            },
            None => false,
        },
        Arg::Deref(_, _) => false,
    }
}

/// Whether every instruction of the program has a text.
pub fn check_printable(program: &X64Program) -> (r: bool)
    ensures
        r == program_printable(program@),
{
    let ghost p = program@;
    let mut i: usize = 0;
    while i < program.functions.len()
        invariant
            i <= program.functions@.len(),
            p == program@,
            forall|j: int| 0 <= j < i ==> function_printable((#[trigger] p.functions[j]).1),
        decreases program.functions.len() - i,
    {
        let func = &program.functions[i].1;
        assert(p.functions[i as int].1 == func@);
        let mut b: usize = 0;
        while b < func.blocks.len()
            invariant
                b <= func.blocks@.len(),
                i < program.functions@.len(),
                p == program@,
                p.functions[i as int].1 == func@,
                forall|c: int, k: int|
                    0 <= c < b && 0 <= k < func@.blocks[c].instr.len() ==> instr_printable(
                        func@.vars,
                        #[trigger] func@.blocks[c].instr[k],
                    ),
            decreases func.blocks.len() - b,
        {
            let instrs = &func.blocks[b].block.instr;
            let mut k: usize = 0;
            while k < instrs.len()
                invariant
                    b < func.blocks@.len(),
                    i < program.functions@.len(),
                    p == program@,
                    p.functions[i as int].1 == func@,
                    instrs == &func.blocks@[b as int].block.instr,
                    k <= instrs@.len(),
                    forall|j: int|
                        0 <= j < k ==> instr_printable(
                            func@.vars,
                            #[trigger] func@.blocks[b as int].instr[j],
                        ),
                decreases instrs.len() - k,
            {
                assert(func@.blocks[b as int].instr[k as int] == instrs@[k as int]@);
                let ok = match &instrs[k] {
                    Instr::Add64(a, c) => check_arg_printable(&func.vars, a) && check_arg_printable(
                        &func.vars,
                        c,
                    ),
                    Instr::Sub64(a, c) => check_arg_printable(&func.vars, a) && check_arg_printable(
                        &func.vars,
                        c,
                    ),
                    Instr::Mov64(a, c) => check_arg_printable(&func.vars, a) && check_arg_printable(
                        &func.vars,
                        c,
                    ),
                    Instr::Neg64(a) => check_arg_printable(&func.vars, a),
                    Instr::Push(a) => check_arg_printable(&func.vars, a),
                    Instr::Pop(a) => check_arg_printable(&func.vars, a),
                    _ => true,
                };
                if !ok {
                    assert(!instr_printable(func@.vars, func@.blocks[b as int].instr[k as int]));
                    assert(!function_printable(func@));
                    assert(!function_printable(p.functions[i as int].1));
                    return false;
                }
                k += 1;
            }
            b += 1;
        }
        i += 1;
    }
    true
}

} // verus!
