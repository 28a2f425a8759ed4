//! The machine as a program can run it: what the back end makes of a
//! program can be tried without an assembler. Every step of it is the step
//! of the machine that the laws on the back end speak of.

use crate::machine::block_at;
use crate::machine::check_encodable;
use crate::machine::run_blocks;
use crate::machine::fetch;
use crate::machine::kept_by_call;
use crate::machine::MachineState;
use crate::machine::Operand;
use crate::machine::operand_of;
use crate::machine::Place;
use crate::machine::pop_step;
use crate::machine::popped;
use crate::machine::push_step;
use crate::machine::put;
use crate::machine::ready;
use crate::machine::runtime_read_spec;
use crate::machine::step;
use crate::machine::words_from;
use crate::natural::names_view;
use crate::text::parse_i64;
use crate::x64_backend::runtime_read;
use crate::x64_def::Arg;
use crate::x64_def::blocks_view;
use crate::x64_def::Function;
use crate::x64_def::Home;
use crate::x64_def::homes_view;
use crate::x64_def::Instr;
use crate::x64_def::InstrView;
use crate::x64_def::LabelBlockPair;
use crate::x64_def::Reg;
use vstd::prelude::*;

verus! {

/// The registers that a list of writes leaves known: each with what was
/// written to it last.
pub open spec fn regs_of(v: Seq<(Reg, i64)>) -> Map<Reg, i64>
    decreases v.len(),
{
    if v.len() == 0 {
        Map::empty()
    } else {
        regs_of(v.drop_last()).insert(v.last().0, v.last().1)
    }
}

/// The words of memory that a list of writes leaves known: each address
/// with what was written there last.
pub open spec fn words_of(v: Seq<(i64, i64)>) -> Map<int, i64>
    decreases v.len(),
{
    if v.len() == 0 {
        Map::empty()
    } else {
        words_of(v.drop_last()).insert(v.last().0 as int, v.last().1)
    }
}

/// The lines in the order in which they will be read: the last one first.
pub open spec fn left_of(v: Seq<String>) -> Seq<Seq<char>> {
    Seq::new(v.len(), |i: int| v[v.len() - 1 - i]@)
}

/// Every address that a list of writes knows is one of 64 bits.
pub proof fn lemma_words_in_range(v: Seq<(i64, i64)>)
    ensures
        forall|a: int| #[trigger] words_of(v).contains_key(a) ==> i64::MIN <= a <= i64::MAX,
    decreases v.len(),
{
    if v.len() > 0 {
        lemma_words_in_range(v.drop_last());
        assert forall|a: int| #[trigger] words_of(v).contains_key(a) implies i64::MIN <= a <= i64::MAX by {
            if a != v.last().0 as int {
                assert(words_of(v.drop_last()).contains_key(a));
            }
        }
    }
}

/// What the first `n` writes to registers leave in `r`.
fn reg_from(v: &Vec<(Reg, i64)>, n: usize, r: Reg) -> (out: Option<i64>)
    requires
        n <= v@.len(),
    ensures
        out == (if regs_of(v@.take(n as int)).contains_key(r) {
            Some(regs_of(v@.take(n as int))[r])
        } else {
            None
        }),
    decreases n,
{
    if n == 0 {
        None
    } else {
        assert(v@.take(n as int).drop_last() =~= v@.take(n - 1));
        if v[n - 1].0 == r {
            Some(v[n - 1].1)
        } else {
            reg_from(v, n - 1, r)
        }
    }
}

/// What the first `n` writes to memory leave at the address `a`.
fn word_from(v: &Vec<(i64, i64)>, n: usize, a: i64) -> (out: Option<i64>)
    requires
        n <= v@.len(),
    ensures
        out == (if words_of(v@.take(n as int)).contains_key(a as int) {
            Some(words_of(v@.take(n as int))[a as int])
        } else {
            None
        }),
    decreases n,
{
    if n == 0 {
        None
    } else {
        assert(v@.take(n as int).drop_last() =~= v@.take(n - 1));
        if v[n - 1].0 == a {
            Some(v[n - 1].1)
        } else {
            word_from(v, n - 1, a)
        }
    }
}

/// Whether a called function gives the register back as it found it.
fn is_kept_by_call(r: Reg) -> (out: bool)
    ensures
        out == kept_by_call(r),
{
    match r {
        Reg::Rbx | Reg::Rbp | Reg::Rsp => true,
        Reg::R12 | Reg::R13 | Reg::R14 | Reg::R15 => true,
        _ => false,
    }
}

/// The writes to the registers that a called function gives back.
fn kept_regs(v: &Vec<(Reg, i64)>) -> (out: Vec<(Reg, i64)>)
    ensures
        regs_of(out@) == regs_of(v@).restrict(Set::new(|r: Reg| kept_by_call(r))),
{
    let mut out: Vec<(Reg, i64)> = Vec::new();
    let mut i: usize = 0;
    assert(regs_of(out@) =~= regs_of(v@.take(0)).restrict(Set::new(|r: Reg| kept_by_call(r))));
    while i < v.len()
        invariant
            i <= v@.len(),
            regs_of(out@) == regs_of(v@.take(i as int)).restrict(Set::new(|r: Reg| kept_by_call(r))),
        decreases v.len() - i,
    {
        let ghost before = out@;
        assert(v@.take(i + 1).drop_last() =~= v@.take(i as int));
        if is_kept_by_call(v[i].0) {
            out.push(v[i]);
            assert(out@.drop_last() =~= before);
        }
        assert(regs_of(out@) =~= regs_of(v@.take(i + 1)).restrict(Set::new(|r: Reg| kept_by_call(r))));
        i += 1;
    }
    assert(v@.take(i as int) =~= v@);
    out
}

/// The writes to the words that lie at `floor` and above.
fn words_above(v: &Vec<(i64, i64)>, floor: i64) -> (out: Vec<(i64, i64)>)
    ensures
        words_of(out@) == words_from(words_of(v@), floor as int),
{
    let mut out: Vec<(i64, i64)> = Vec::new();
    let mut i: usize = 0;
    assert(words_of(out@) =~= words_from(words_of(v@.take(0)), floor as int));
    while i < v.len()
        invariant
            i <= v@.len(),
            words_of(out@) == words_from(words_of(v@.take(i as int)), floor as int),
        decreases v.len() - i,
    {
        let ghost before = out@;
        assert(v@.take(i + 1).drop_last() =~= v@.take(i as int));
        if v[i].0 >= floor {
            out.push(v[i]);
            assert(out@.drop_last() =~= before);
        }
        assert(words_of(out@) =~= words_from(words_of(v@.take(i + 1)), floor as int));
        i += 1;
    }
    assert(v@.take(i as int) =~= v@);
    out
}

/// A machine that can be run: the writes to its registers and to its
/// memory, and the lines of input that nobody has read yet.
pub struct Machine {
    regs: Vec<(Reg, i64)>,
    words: Vec<(i64, i64)>,
    lines: Vec<String>,
}

impl View for Machine {
    type V = MachineState;

    closed spec fn view(&self) -> MachineState {
        MachineState { regs: regs_of(self.regs@), mem: words_of(self.words@), input: left_of(self.lines@) }
    }
}

/// A result of the machine that can be run is the result of the machine.
pub open spec fn same_machine(r: Option<Machine>, m: Option<MachineState>) -> bool {
    match (r, m) {
        (Some(a), Some(b)) => a@ == b,
        (None, None) => true,
        _ => false,
    }
}

/// The lines, the last one first.
fn reversed(lines: Vec<String>) -> (out: Vec<String>)
    ensures
        left_of(out@) == names_view(lines@),
{
    let mut rest = lines;
    let ghost all = rest@;
    let mut out: Vec<String> = Vec::new();
    while rest.len() > 0
        invariant
            rest@.len() <= all.len(),
            out@.len() == all.len() - rest@.len(),
            forall|i: int| 0 <= i < rest@.len() ==> rest@[i] == all[i],
            forall|i: int| 0 <= i < out@.len() ==> out@[i] == all[all.len() - 1 - i],
        decreases rest.len(),
    {
        let line = rest.pop().unwrap();
        out.push(line);
    }
    assert(left_of(out@) =~= names_view(all));
    out
}

impl Machine {
    /// A machine at the entry of a function: `rsp` and `rbp` point where
    /// they are said to, the word that `rsp` points to is the address to
    /// return to, and the lines of input are before it.
    pub fn new(input: Vec<String>, rsp: i64, rbp: i64, return_address: i64) -> (r: Machine)
        ensures
            r@ == (MachineState {
                regs: Map::<Reg, i64>::empty().insert(Reg::Rsp, rsp).insert(Reg::Rbp, rbp),
                mem: Map::<int, i64>::empty().insert(rsp as int, return_address),
                input: names_view(input@),
            }),
    {
        let mut regs: Vec<(Reg, i64)> = Vec::new();
        regs.push((Reg::Rsp, rsp));
        regs.push((Reg::Rbp, rbp));
        let mut words: Vec<(i64, i64)> = Vec::new();
        words.push((rsp, return_address));
        proof {
            reveal_with_fuel(regs_of, 3);
            reveal_with_fuel(words_of, 2);
            assert(regs@.drop_last() =~= seq![(Reg::Rsp, rsp)]);
            assert(regs@.drop_last().drop_last() =~= Seq::empty());
            assert(words@.drop_last() =~= Seq::empty());
        }
        Machine { regs, words, lines: reversed(input) }
    }

    /// What a register holds, where that is known.
    pub fn register(&self, r: Reg) -> (out: Option<i64>)
        ensures
            out == fetch(self@, Place::Register(r)),
    {
        assert(self.regs@.take(self.regs@.len() as int) =~= self.regs@);
        reg_from(&self.regs, self.regs.len(), r)
    }

    /// What the word at an address holds, where that is known.
    pub fn word(&self, a: i64) -> (out: Option<i64>)
        ensures
            out == (if self@.mem.contains_key(a as int) {
                Some(self@.mem[a as int])
            } else {
                None
            }),
    {
        assert(self.words@.take(self.words@.len() as int) =~= self.words@);
        word_from(&self.words, self.words.len(), a)
    }

    /// How many lines of input nobody has read yet.
    pub fn lines_left(&self) -> (out: usize)
        ensures
            out == self@.input.len(),
    {
        self.lines.len()
    }

    /// The address of the cell that lies `c` bytes below where `rbp`
    /// points, where the machine can find it.
    fn cell(&self, c: i64) -> (out: Option<i64>)
        ensures
            out is Some == ready(self@, Place::Cell(c as int)),
            out matches Some(a) ==> a == self@.regs[Reg::Rbp] - c,
    {
        match self.register(Reg::Rbp) {
            Some(base) => base.checked_sub(c),
            None => None,
        }
    }

    /// What an operand's place holds, where that is known.
    fn fetch(&self, o: &Operand) -> (out: Option<i64>)
        ensures
            out == fetch(self@, o@),
    {
        match o {
            Operand::Imm(n) => Some(*n),
            Operand::Register(r) => self.register(*r),
            Operand::Cell(c) => {
                proof {
                    lemma_words_in_range(self.words@);
                }
                match self.cell(*c) {
                    Some(a) => self.word(a),
                    None => None,
                }
            },
        }
    }

    /// Whether the machine can find the place.
    fn is_ready(&self, o: &Operand) -> (out: bool)
        ensures
            out == ready(self@, o@),
    {
        match o {
            Operand::Cell(c) => self.cell(*c).is_some(),
            _ => true,
        }
    }

    /// The machine with `v` in a place.
    fn put(self, o: &Operand, v: i64) -> (out: Machine)
        requires
            ready(self@, o@),
        ensures
            out@ == put(self@, o@, v),
    {
        match o {
            Operand::Imm(_) => self,
            Operand::Register(r) => {
                let mut regs = self.regs;
                let ghost before = regs@;
                regs.push((*r, v));
                assert(regs@.drop_last() =~= before);
                let words = if *r == Reg::Rsp {
                    words_above(&self.words, v)
                } else {
                    self.words
                };
                Machine { regs, words, lines: self.lines }
            },
            Operand::Cell(c) => {
                let a = self.cell(*c).unwrap();
                let mut words = self.words;
                let ghost before = words@;
                words.push((a, v));
                assert(words@.drop_last() =~= before);
                Machine { regs: self.regs, words, lines: self.lines }
            },
        }
    }
}

/// The integer that the runtime's `read_int` returns on the lines, and
/// the lines that it leaves.
fn next_integer(lines: Vec<String>) -> (out: (Option<i64>, Vec<String>))
    ensures
        match runtime_read_spec(left_of(lines@)) {
            Some((n, rest)) => out.0 == Some(n) && left_of(out.1@) == rest,
            None => out.0 is None,
        },
{
    let mut rest = lines;
    while rest.len() > 0
        invariant
            runtime_read_spec(left_of(lines@)) == runtime_read_spec(left_of(rest@)),
        decreases rest.len(),
    {
        let ghost before = rest@;
        let line = rest.pop().unwrap();
        assert(left_of(before)[0] == line@);
        assert(left_of(before).drop_first() =~= left_of(rest@));
        match parse_i64(line.as_str()) {
            Some(n) => {
                return (Some(n), rest);
            },
            None => {},
        }
    }
    (None, rest)
}

/// Where the first block with the label stands.
fn find_block(blocks: &Vec<LabelBlockPair>, label: &String) -> (out: Option<usize>)
    ensures
        match out {
            Some(t) => block_at(blocks_view(blocks@), label@, 0) == Some(t as int) && t < blocks@.len(),
            None => block_at(blocks_view(blocks@), label@, 0) is None,
        },
{
    let mut i: usize = 0;
    while i < blocks.len()
        invariant
            i <= blocks@.len(),
            block_at(blocks_view(blocks@), label@, 0) == block_at(blocks_view(blocks@), label@, i as int),
        decreases blocks.len() - i,
    {
        assert(blocks_view(blocks@)[i as int].label == blocks@[i as int].label@);
        if blocks[i].label == *label {
            return Some(i);
        }
        i += 1;
    }
    None
}

impl Machine {
    /// The machine behind the call of the runtime's `read_int`.
    fn read(self) -> (out: Option<Machine>)
        ensures
            same_machine(out, step(Seq::empty(), InstrView::Call(runtime_read(), 0), self@)),
    {
        match self.register(Reg::Rsp) {
            Some(top) => {
                let (value, lines) = next_integer(self.lines);
                match value {
                    Some(n) => {
                        let mut regs = kept_regs(&self.regs);
                        let ghost before = regs@;
                        regs.push((Reg::Rax, n));
                        assert(regs@.drop_last() =~= before);
                        Some(Machine { regs, words: words_above(&self.words, top), lines })
                    },
                    None => None,
                }
            },
            None => {
                None
            },
        }
    }

    /// The machine behind a sum, or else a difference, of two operands.
    fn binary(self, to: &Operand, from: &Operand, sum: bool) -> (out: Option<Machine>)
        ensures
            same_machine(
                out,
                match (fetch(self@, to@), fetch(self@, from@)) {
                    (Some(x), Some(y)) => if ready(self@, to@) {
                        Some(
                            put(
                                self@,
                                to@,
                                if sum {
                                    x.wrapping_add(y)
                                } else {
                                    x.wrapping_sub(y)
                                },
                            ),
                        )
                    } else {
                        None
                    },
                    _ => None,
                },
            ),
    {
        match (self.fetch(to), self.fetch(from)) {
            (Some(x), Some(y)) => {
                if self.is_ready(to) {
                    let v = if sum {
                        x.wrapping_add(y)
                    } else {
                        x.wrapping_sub(y)
                    };
                    Some(self.put(to, v))
                } else {
                    None
                }
            },
            _ => None,
        }
    }

    /// The machine behind one instruction of a straight line.
    pub fn step(self, vars: &Vec<Home>, i: &Instr) -> (out: Option<Machine>)
        ensures
            same_machine(out, step(homes_view(vars@), i@, self@)),
    {
        if !check_encodable(vars, i) {
            return None;
        }
        match i {
            Instr::Mov64(a, b) => {
                let to = operand_of(vars, a).unwrap();
                let from = operand_of(vars, b).unwrap();
                match self.fetch(&from) {
                    Some(v) => {
                        if self.is_ready(&to) {
                            Some(self.put(&to, v))
                        } else {
                            None
                        }
                    },
                    None => None,
                }
            },
            Instr::Add64(a, b) => {
                let to = operand_of(vars, a).unwrap();
                let from = operand_of(vars, b).unwrap();
                self.binary(&to, &from, true)
            },
            Instr::Sub64(a, b) => {
                let to = operand_of(vars, a).unwrap();
                let from = operand_of(vars, b).unwrap();
                self.binary(&to, &from, false)
            },
            Instr::Neg64(a) => {
                let to = operand_of(vars, a).unwrap();
                match self.fetch(&to) {
                    Some(v) => {
                        if self.is_ready(&to) {
                            Some(self.put(&to, 0i64.wrapping_sub(v)))
                        } else {
                            None
                        }
                    },
                    None => None,
                }
            },
            Instr::Call(_, _) => self.read(),
            _ => None,
        }
    }

    /// The machine behind a push.
    fn push(self, vars: &Vec<Home>, a: &Arg) -> (out: Option<Machine>)
        ensures
            same_machine(out, push_step(homes_view(vars@), a@, self@)),
    {
        let from = match operand_of(vars, a) {
            Some(from) => from,
            None => {
                return None;
            },
        };
        let fits = match from {
            Operand::Imm(n) => -0x8000_0000i64 <= n && n < 0x8000_0000i64,
            _ => true,
        };
        match (self.fetch(&from), self.register(Reg::Rsp)) {
            (Some(v), Some(top)) => match top.checked_sub(8) {
                Some(lower) => {
                    if fits {
                        let mut regs = self.regs;
                        let ghost regs_before = regs@;
                        regs.push((Reg::Rsp, lower));
                        assert(regs@.drop_last() =~= regs_before);
                        let mut words = self.words;
                        let ghost words_before = words@;
                        words.push((lower, v));
                        assert(words@.drop_last() =~= words_before);
                        Some(Machine { regs, words, lines: self.lines })
                    } else {
                        None
                    }
                },
                None => None,
            },
            _ => None,
        }
    }

    /// The word that the stack pointer points to, and the machine with the
    /// stack pointer a word further up.
    fn popped(self) -> (out: Option<(i64, Machine)>)
        ensures
            match out {
                Some((v, up)) => popped(self@) == Some((v, up@)),
                None => popped(self@) is None,
            },
    {
        match self.register(Reg::Rsp) {
            Some(top) => match (self.word(top), top.checked_add(8)) {
                (Some(v), Some(higher)) => Some((v, self.put(&Operand::Register(Reg::Rsp), higher))),
                _ => None,
            },
            None => None,
        }
    }

    /// The machine behind a pop.
    fn pop(self, vars: &Vec<Home>, a: &Arg) -> (out: Option<Machine>)
        ensures
            same_machine(out, pop_step(homes_view(vars@), a@, self@)),
    {
        match (operand_of(vars, a), self.popped()) {
            (Some(to), Some((v, up))) => {
                let writes = match to {
                    Operand::Imm(_) => false,
                    _ => true,
                };
                if writes && up.is_ready(&to) {
                    Some(up.put(&to, v))
                } else {
                    None
                }
            },
            _ => None,
        }
    }

    /// Runs the function from its entry to its return, in at most `fuel`
    /// steps. Nothing where the machine does not run an instruction, or
    /// where the steps do not suffice.
    pub fn run(self, function: &Function, fuel: usize) -> (out: Option<Machine>)
        ensures
            same_machine(out, run_blocks(function@.vars, function@.blocks, 0, 0, fuel as nat, self@)),
    {
        let ghost homes = function@.vars;
        let ghost blocks = function@.blocks;
        let ghost start = self@;
        let mut cur = self;
        let mut b: usize = 0;
        let mut k: usize = 0;
        let mut left: usize = fuel;
        while left > 0 && b < function.blocks.len()
            invariant
                start == self@,
                homes == function@.vars,
                blocks == function@.blocks,
                run_blocks(homes, blocks, 0, 0, fuel as nat, start) == run_blocks(homes, blocks, b as int, k as int, left as nat, cur@),
            decreases left,
        {
            let block = &function.blocks[b];
            assert(blocks[b as int] == block@);
            if k >= block.block.instr.len() {
                b = b + 1;
                k = 0;
            } else {
                let i = &block.block.instr[k];
                assert(blocks[b as int].instr[k as int] == i@);
                match i {
                    Instr::Jmp(label) => match find_block(&function.blocks, label) {
                        Some(t) => {
                            b = t;
                            k = 0;
                        },
                        None => {
                            return None;
                        },
                    },
                    Instr::Ret => {
                        return match cur.popped() {
                            Some((_, up)) => Some(up),
                            None => None,
                        };
                    },
                    Instr::Push(a) => match cur.push(&function.vars, a) {
                        Some(next) => {
                            cur = next;
                            k = k + 1;
                        },
                        None => {
                            return None;
                        },
                    },
                    Instr::Pop(a) => match cur.pop(&function.vars, a) {
                        Some(next) => {
                            cur = next;
                            k = k + 1;
                        },
                        None => {
                            return None;
                        },
                    },
                    _ => match cur.step(&function.vars, i) {
                        Some(next) => {
                            cur = next;
                            k = k + 1;
                        },
                        None => {
                            return None;
                        },
                    },
                }
            }
            left = left - 1;
        }
        None
    }
}

} // verus!
