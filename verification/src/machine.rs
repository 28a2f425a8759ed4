//! An x86-64 machine, as far as the instructions of this compiler go.
//!
//! The machine knows moves, sums, differences, negations, pushes, pops,
//! jumps, returns and the call of the runtime's `read_int`. It is strict:
//! an instruction with two operands in memory, or with an immediate that
//! does not fit where the machine takes 32 bits only, is none that it
//! runs; a register or a word of memory whose content is not known cannot
//! be read; and what lies below the stack pointer is known to nobody. Of
//! the runtime's `read_int` it takes that the function passes over the
//! lines that are no integer, returns the first that is one in `rax`,
//! leaves alone what lies at its caller's stack pointer and above, and
//! gives back the registers that a called function has to keep; of the
//! other registers nothing is known once it has returned. The machine does
//! not know how the stack has to be aligned.
//!
//! [`crate::compiled`] proves what the back end's instructions compute on
//! this machine, and [`crate::simulator`] runs it.

use crate::text::parse_i64_spec;
use crate::text::same_text;
use crate::x64_backend::runtime_read;
use crate::x64_def::Arg;
use crate::x64_def::ArgView;
use crate::x64_def::BlockView;
use crate::x64_def::Home;
use crate::x64_def::homes_view;
use crate::x64_def::HomeView;
use crate::x64_def::Instr;
use crate::x64_def::instrs_view;
use crate::x64_def::InstrView;
use crate::x64_def::Reg;
use crate::x64_def::VarLoc;
use crate::x64_print::get_var;
use crate::x64_print::home_of;
use vstd::prelude::*;

verus! {

/// Where an operand is: in the instruction itself, in a register, or in
/// the cell of the frame that lies so many bytes below where `rbp` points.
pub enum Place {
    Imm(i64),
    Register(Reg),
    Cell(int),
}

/// What is known of a machine at a point of a run: the registers and the
/// words of memory whose content is known, each word under its address,
/// and the lines of input that nobody has read yet.
pub struct MachineState {
    pub regs: Map<Reg, i64>,
    pub mem: Map<int, i64>,
    pub input: Seq<Seq<char>>,
}

/// The words that lie at `floor` and above. What lies below the stack
/// pointer is nobody's: the machine forgets it.
pub open spec fn words_from(mem: Map<int, i64>, floor: int) -> Map<int, i64> {
    mem.restrict(Set::new(|a: int| a >= floor))
}

/// The place of an operand, a variable's being that of its home.
pub open spec fn place_of(homes: Seq<HomeView>, a: ArgView) -> Option<Place> {
    match a {
        ArgView::Imm(n) => Some(Place::Imm(n)),
        ArgView::Reg(r) => Some(Place::Register(r)),
        ArgView::Var(name) => match home_of(homes, name, 0) {
            Some(VarLoc::Reg(r)) => Some(Place::Register(r)),
            Some(VarLoc::Rbp(offset)) => Some(Place::Cell(offset as int)),
            _ => None,
        },
        ArgView::Deref(_, _) => None,
    }
}

/// An immediate that fits in 32 bits with its sign.
pub open spec fn small(n: i64) -> bool {
    -0x8000_0000 <= n < 0x8000_0000
}

/// A place that an instruction can write to.
pub open spec fn target_ok(p: Place) -> bool {
    !(p is Imm)
}

/// Two operands that one instruction can have: it writes to the first,
/// at most one of them is in memory, and an immediate fits in 32 bits,
/// unless the instruction takes a `wide` one into a register.
pub open spec fn pair_ok(to: Place, from: Place, wide: bool) -> bool {
    &&& target_ok(to)
    &&& !(to is Cell && from is Cell)
    &&& (from matches Place::Imm(n) ==> small(n) || (wide && to is Register))
}

/// An instruction that the machine runs.
pub open spec fn encodable(homes: Seq<HomeView>, i: InstrView) -> bool {
    match i {
        InstrView::Mov64(a, b) => match (place_of(homes, a), place_of(homes, b)) {
            (Some(to), Some(from)) => pair_ok(to, from, true),
            _ => false,
        },
        InstrView::Add64(a, b) => match (place_of(homes, a), place_of(homes, b)) {
            (Some(to), Some(from)) => pair_ok(to, from, false),
            _ => false,
        },
        InstrView::Sub64(a, b) => match (place_of(homes, a), place_of(homes, b)) {
            (Some(to), Some(from)) => pair_ok(to, from, false),
            _ => false,
        },
        InstrView::Neg64(a) => match place_of(homes, a) {
            Some(to) => target_ok(to),
            None => false,
        },
        InstrView::Call(name, _) => name == runtime_read(),
        _ => false,
    }
}

/// Every one of the instructions is one that the machine runs.
pub open spec fn runnable(homes: Seq<HomeView>, instr: Seq<InstrView>) -> bool {
    forall|k: int| 0 <= k < instr.len() ==> encodable(homes, #[trigger] instr[k])
}

/// Where an operand is, as a program can hold it.
pub enum Operand {
    Imm(i64),
    Register(Reg),
    Cell(i64),
}

impl View for Operand {
    type V = Place;

    open spec fn view(&self) -> Place {
        match self {
            Operand::Imm(n) => Place::Imm(*n),
            Operand::Register(r) => Place::Register(*r),
            Operand::Cell(c) => Place::Cell(*c as int),
        }
    }
}

/// The place of an operand, where it has one.
pub fn operand_of(vars: &Vec<Home>, a: &Arg) -> (r: Option<Operand>)
    ensures
        match r {
            Some(o) => place_of(homes_view(vars@), a@) == Some(o@),
            None => place_of(homes_view(vars@), a@) is None,
        },
{
    match a {
        Arg::Imm(n) => Some(Operand::Imm(*n)),
        Arg::Reg(r) => Some(Operand::Register(*r)),
        Arg::Var(name) => match get_var(vars, name) {
            Some(home) => match home.loc {
                VarLoc::Reg(r) => Some(Operand::Register(r)),
                VarLoc::Rbp(offset) => Some(Operand::Cell(offset)),
                VarLoc::Undefined => None,
            },
            None => None,
        },
        Arg::Deref(_, _) => None,
    }
}

/// Whether one instruction can have the two operands.
fn pair_fits(to: &Operand, from: &Operand, wide: bool) -> (r: bool)
    ensures
        r == pair_ok(to@, from@, wide),
{
    match (to, from) {
        (Operand::Imm(_), _) => false,
        (Operand::Cell(_), Operand::Cell(_)) => false,
        (Operand::Register(_), Operand::Imm(n)) => wide || (-0x8000_0000i64 <= *n && *n < 0x8000_0000i64),
        (Operand::Cell(_), Operand::Imm(n)) => -0x8000_0000i64 <= *n && *n < 0x8000_0000i64,
        _ => true,
    }
}

/// Whether two operands are places that one instruction can have.
fn operands_fit(vars: &Vec<Home>, a: &Arg, b: &Arg, wide: bool) -> (r: bool)
    ensures
        r == match (place_of(homes_view(vars@), a@), place_of(homes_view(vars@), b@)) {
            (Some(to), Some(from)) => pair_ok(to, from, wide),
            _ => false,
        },
{
    match (operand_of(vars, a), operand_of(vars, b)) {
        (Some(to), Some(from)) => pair_fits(&to, &from, wide),
        _ => false,
    }
}

/// Whether the machine runs the instruction.
pub fn check_encodable(vars: &Vec<Home>, i: &Instr) -> (r: bool)
    ensures
        r == encodable(homes_view(vars@), i@),
{
    match i {
        Instr::Mov64(a, b) => operands_fit(vars, a, b, true),
        Instr::Add64(a, b) => operands_fit(vars, a, b, false),
        Instr::Sub64(a, b) => operands_fit(vars, a, b, false),
        Instr::Neg64(a) => match operand_of(vars, a) {
            Some(Operand::Imm(_)) => false,
            Some(_) => true,
            None => false,
        },
        Instr::Call(name, _) => {
            proof {
                reveal_strlit("read_int");
            }
            same_text(name, "read_int")
        },
        _ => false,
    }
}

/// Whether the machine runs every one of the instructions.
pub fn check_runnable(vars: &Vec<Home>, instr: &Vec<Instr>) -> (r: bool)
    ensures
        r == runnable(homes_view(vars@), instrs_view(instr@)),
{
    let mut k: usize = 0;
    while k < instr.len()
        invariant
            k <= instr@.len(),
            forall|j: int| 0 <= j < k ==> encodable(homes_view(vars@), #[trigger] instrs_view(instr@)[j]),
        decreases instr.len() - k,
    {
        if !check_encodable(vars, &instr[k]) {
            assert(!encodable(homes_view(vars@), instrs_view(instr@)[k as int]));
            return false;
        }
        k += 1;
    }
    true
}

/// What a place holds, where that is known.
pub open spec fn fetch(m: MachineState, p: Place) -> Option<i64> {
    match p {
        Place::Imm(n) => Some(n),
        Place::Register(r) => if m.regs.contains_key(r) {
            Some(m.regs[r])
        } else {
            None
        },
        Place::Cell(c) => if m.regs.contains_key(Reg::Rbp) && m.mem.contains_key(m.regs[Reg::Rbp] - c) {
            Some(m.mem[m.regs[Reg::Rbp] - c])
        } else {
            None
        },
    }
}

/// A place that the machine can find: any but a cell while it is not
/// known where `rbp` points, or one whose address is none of 64 bits.
pub open spec fn ready(m: MachineState, p: Place) -> bool {
    p matches Place::Cell(c) ==> m.regs.contains_key(Reg::Rbp) && i64::MIN <= m.regs[Reg::Rbp] - c <= i64::MAX
}

/// The machine with `v` in a place. With a new stack pointer the machine
/// forgets what then lies below it.
pub open spec fn put(m: MachineState, p: Place, v: i64) -> MachineState {
    match p {
        Place::Imm(_) => m,
        Place::Register(r) => MachineState {
            regs: m.regs.insert(r, v),
            mem: if r == Reg::Rsp {
                words_from(m.mem, v as int)
            } else {
                m.mem
            },
            input: m.input,
        },
        Place::Cell(c) => MachineState {
            regs: m.regs,
            mem: m.mem.insert(m.regs[Reg::Rbp] - c, v),
            input: m.input,
        },
    }
}

/// A register that a called function gives back as it found it, under
/// either of the calling conventions of x86-64.
pub open spec fn kept_by_call(r: Reg) -> bool {
    match r {
        Reg::Rbx | Reg::Rbp | Reg::Rsp => true,
        Reg::R12 | Reg::R13 | Reg::R14 | Reg::R15 => true,
        _ => false,
    }
}

/// What the runtime's `read_int` returns and the lines that it leaves: it
/// passes over the lines that are no integer and takes the first that is
/// one. Where no such line comes it does not return.
pub open spec fn runtime_read_spec(input: Seq<Seq<char>>) -> Option<(i64, Seq<Seq<char>>)>
    decreases input.len(),
{
    if input.len() == 0 {
        None
    } else {
        match parse_i64_spec(input[0]) {
            Some(n) => Some((n, input.drop_first())),
            None => runtime_read_spec(input.drop_first()),
        }
    }
}

/// The machine behind a sum, or else a difference, of two operands: the
/// result stands where the first operand stood.
pub open spec fn binary_step(
    homes: Seq<HomeView>,
    a: ArgView,
    b: ArgView,
    m: MachineState,
    sum: bool,
) -> Option<MachineState> {
    match (place_of(homes, a), place_of(homes, b)) {
        (Some(to), Some(from)) => match (fetch(m, to), fetch(m, from)) {
            (Some(x), Some(y)) => if ready(m, to) {
                Some(
                    put(
                        m,
                        to,
                        if sum {
                            x.wrapping_add(y)
                        } else {
                            x.wrapping_sub(y)
                        },
                    ),
                )
            } else {
                None
            },
            _ => None,
        },
        _ => None,
    }
}

/// The machine behind one instruction; nothing where the machine does not
/// run the instruction, where it uses a content that is not known, or
/// where the runtime does not return.
pub open spec fn step(homes: Seq<HomeView>, i: InstrView, m: MachineState) -> Option<MachineState> {
    if !encodable(homes, i) {
        None
    } else {
        match i {
            InstrView::Mov64(a, b) => match (place_of(homes, a), place_of(homes, b)) {
                (Some(to), Some(from)) => match fetch(m, from) {
                    Some(v) => if ready(m, to) {
                        Some(put(m, to, v))
                    } else {
                        None
                    },
                    None => None,
                },
                _ => None,
            },
            InstrView::Add64(a, b) => binary_step(homes, a, b, m, true),
            InstrView::Sub64(a, b) => binary_step(homes, a, b, m, false),
            InstrView::Neg64(a) => match place_of(homes, a) {
                Some(to) => match fetch(m, to) {
                    Some(v) => if ready(m, to) {
                        Some(put(m, to, 0i64.wrapping_sub(v)))
                    } else {
                        None
                    },
                    None => None,
                },
                None => None,
            },
            InstrView::Call(_, _) => match runtime_read_spec(m.input) {
                Some((n, rest)) => if m.regs.contains_key(Reg::Rsp) {
                    Some(
                        MachineState {
                            regs: m.regs.restrict(Set::new(|r: Reg| kept_by_call(r))).insert(Reg::Rax, n),
                            mem: words_from(m.mem, m.regs[Reg::Rsp] as int),
                            input: rest,
                        },
                    )
                } else {
                    None
                },
                None => None,
            },
            _ => None,
        }
    }
}

/// The machine behind the first `n` of the instructions, run in order.
pub open spec fn run(homes: Seq<HomeView>, instr: Seq<InstrView>, n: nat, m: MachineState) -> Option<
    MachineState,
>
    decreases n,
{
    if n == 0 || n > instr.len() {
        Some(m)
    } else {
        match run(homes, instr, (n - 1) as nat, m) {
            Some(mid) => step(homes, instr[n - 1], mid),
            None => None,
        }
    }
}

/// The machine behind all of the instructions.
pub open spec fn run_all(homes: Seq<HomeView>, instr: Seq<InstrView>, m: MachineState) -> Option<
    MachineState,
> {
    run(homes, instr, instr.len(), m)
}

/// Where the first block with the label stands, looking from `from` on.
pub open spec fn block_at(blocks: Seq<BlockView>, label: Seq<char>, from: int) -> Option<int>
    decreases blocks.len() - from,
{
    if from < 0 || from >= blocks.len() {
        None
    } else if blocks[from].label == label {
        Some(from)
    } else {
        block_at(blocks, label, from + 1)
    }
}

/// The machine behind a push: the stack pointer goes down by a word, and
/// the operand's value lies where it then points.
pub open spec fn push_step(homes: Seq<HomeView>, a: ArgView, m: MachineState) -> Option<MachineState> {
    match place_of(homes, a) {
        Some(from) => match fetch(m, from) {
            Some(v) => if m.regs.contains_key(Reg::Rsp) && m.regs[Reg::Rsp] - 8 >= i64::MIN && (from matches Place::Imm(
                n,
            ) ==> small(n)) {
                let top = (m.regs[Reg::Rsp] - 8) as i64;
                Some(
                    MachineState {
                        regs: m.regs.insert(Reg::Rsp, top),
                        mem: m.mem.insert(top as int, v),
                        input: m.input,
                    },
                )
            } else {
                None
            },
            None => None,
        },
        None => None,
    }
}

/// The word that the stack pointer points to, and the machine with the
/// stack pointer a word further up.
pub open spec fn popped(m: MachineState) -> Option<(i64, MachineState)> {
    if m.regs.contains_key(Reg::Rsp) && m.mem.contains_key(m.regs[Reg::Rsp] as int) && m.regs[Reg::Rsp] + 8
        <= i64::MAX {
        Some(
            (
                m.mem[m.regs[Reg::Rsp] as int],
                put(m, Place::Register(Reg::Rsp), (m.regs[Reg::Rsp] + 8) as i64),
            ),
        )
    } else {
        None
    }
}

/// The machine behind a pop: the word that the stack pointer points to
/// goes to the operand's place.
pub open spec fn pop_step(homes: Seq<HomeView>, a: ArgView, m: MachineState) -> Option<MachineState> {
    match (place_of(homes, a), popped(m)) {
        (Some(to), Some((v, up))) => if target_ok(to) && ready(up, to) {
            Some(put(up, to, v))
        } else {
            None
        },
        _ => None,
    }
}

/// The machine as a run of at most `fuel` steps leaves it when it returns
/// from the blocks, begun at the `k`-th instruction of the `b`-th block. A
/// jump goes on with the first instruction of the block under its label,
/// the end of a block with the next block, and a return takes the address
/// to return to off the stack and ends the run. Nothing where the machine
/// does not run an instruction, or where the steps do not suffice.
pub open spec fn run_blocks(
    homes: Seq<HomeView>,
    blocks: Seq<BlockView>,
    b: int,
    k: int,
    fuel: nat,
    m: MachineState,
) -> Option<MachineState>
    decreases fuel,
{
    if fuel == 0 || b < 0 || b >= blocks.len() || k < 0 {
        None
    } else if k >= blocks[b].instr.len() {
        run_blocks(homes, blocks, b + 1, 0, (fuel - 1) as nat, m)
    } else {
        match blocks[b].instr[k] {
            InstrView::Jmp(label) => match block_at(blocks, label, 0) {
                Some(t) => run_blocks(homes, blocks, t, 0, (fuel - 1) as nat, m),
                None => None,
            },
            InstrView::Ret => match popped(m) {
                Some((_, up)) => Some(up),
                None => None,
            },
            InstrView::Push(a) => match push_step(homes, a, m) {
                Some(next) => run_blocks(homes, blocks, b, k + 1, (fuel - 1) as nat, next),
                None => None,
            },
            InstrView::Pop(a) => match pop_step(homes, a, m) {
                Some(next) => run_blocks(homes, blocks, b, k + 1, (fuel - 1) as nat, next),
                None => None,
            },
            other => match step(homes, other, m) {
                Some(next) => run_blocks(homes, blocks, b, k + 1, (fuel - 1) as nat, next),
                None => None,
            },
        }
    }
}

} // verus!
