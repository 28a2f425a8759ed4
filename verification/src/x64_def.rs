//! The abstract syntax of the x86-64 subset that the compiler emits.

use crate::natural::clone_names;
use crate::natural::names_view;
use vstd::prelude::*;

verus! {

#[derive(Clone, Copy, Debug, Hash, PartialEq, Eq, Structural)]
pub enum Reg {
    Rsp,
    Rbp,
    Rax,
    Rbx,
    Rcx,
    Rdx,
    Rsi,
    Rdi,
    R8,
    R9,
    R10,
    R11,
    R12,
    R13,
    R14,
    R15,
}

/// An operand: a variable that has no home yet, an immediate, a register,
/// or the memory at a register plus an offset.
#[derive(Debug, PartialEq, Eq, Hash)]
pub enum Arg {
    Var(String),
    Imm(i64),
    Reg(Reg),
    Deref(Reg, i64),
}

/// Where a variable lives: in a register, on the stack at `rbp` minus an
/// offset, or nowhere yet.
#[derive(Clone, Copy, Debug, Hash, PartialEq, Eq, Structural)]
pub enum VarLoc {
    Reg(Reg),
    Rbp(i64),
    Undefined,
}

#[derive(Debug, Hash, PartialEq, Eq)]
pub struct Home {
    pub name: String,
    pub loc: VarLoc,
}

#[derive(Debug, PartialEq)]
pub enum Instr {
    Add64(Arg, Arg),
    Sub64(Arg, Arg),
    Mov64(Arg, Arg),
    Neg64(Arg),
    Call(String, i64),
    Ret,
    Push(Arg),
    Pop(Arg),
    Jmp(String),
}

#[derive(Debug, PartialEq)]
pub struct Block {
    pub info: (),
    pub instr: Vec<Instr>,
}

#[derive(Debug, PartialEq)]
pub struct LabelBlockPair {
    pub label: String,
    pub block: Block,
}

/// One function: its blocks in the order in which they are laid out, and
/// the homes of its variables.
#[derive(Debug, PartialEq)]
pub struct Function {
    pub blocks: Vec<LabelBlockPair>,
    pub vars: Vec<Home>,
}

/// A program: the runtime symbols that it calls, and its functions, each
/// under its name.
#[derive(Debug, PartialEq)]
pub struct X64Program {
    pub external: Vec<String>,
    pub functions: Vec<(String, Function)>,
}

pub enum ArgView {
    Var(Seq<char>),
    Imm(i64),
    Reg(Reg),
    Deref(Reg, i64),
}

pub struct HomeView {
    pub name: Seq<char>,
    pub loc: VarLoc,
}

pub enum InstrView {
    Add64(ArgView, ArgView),
    Sub64(ArgView, ArgView),
    Mov64(ArgView, ArgView),
    Neg64(ArgView),
    Call(Seq<char>, i64),
    Ret,
    Push(ArgView),
    Pop(ArgView),
    Jmp(Seq<char>),
}

pub struct BlockView {
    pub label: Seq<char>,
    pub instr: Seq<InstrView>,
}

pub struct FunctionView {
    pub blocks: Seq<BlockView>,
    pub vars: Seq<HomeView>,
}

pub struct X64ProgramView {
    pub external: Seq<Seq<char>>,
    pub functions: Seq<(Seq<char>, FunctionView)>,
}

impl View for Arg {
    type V = ArgView;

    open spec fn view(&self) -> ArgView {
        match self {
            Arg::Var(name) => ArgView::Var(name@),
            Arg::Imm(n) => ArgView::Imm(*n),
            Arg::Reg(r) => ArgView::Reg(*r),
            Arg::Deref(r, n) => ArgView::Deref(*r, *n),
        }
    }
}

impl View for Home {
    type V = HomeView;

    open spec fn view(&self) -> HomeView {
        HomeView { name: self.name@, loc: self.loc }
    }
}

impl View for Instr {
    type V = InstrView;

    open spec fn view(&self) -> InstrView {
        match self {
            Instr::Add64(a, b) => InstrView::Add64(a@, b@),
            Instr::Sub64(a, b) => InstrView::Sub64(a@, b@),
            Instr::Mov64(a, b) => InstrView::Mov64(a@, b@),
            Instr::Neg64(a) => InstrView::Neg64(a@),
            Instr::Call(name, n) => InstrView::Call(name@, *n),
            Instr::Ret => InstrView::Ret,
            Instr::Push(a) => InstrView::Push(a@),
            Instr::Pop(a) => InstrView::Pop(a@),
            Instr::Jmp(label) => InstrView::Jmp(label@),
        }
    }
}

/// The models of a sequence of instructions, in order.
pub open spec fn instrs_view(v: Seq<Instr>) -> Seq<InstrView> {
    Seq::new(v.len(), |i: int| v[i]@)
}

/// The models of a sequence of homes, in order.
pub open spec fn homes_view(v: Seq<Home>) -> Seq<HomeView> {
    Seq::new(v.len(), |i: int| v[i]@)
}

/// The models of a sequence of labelled blocks, in order.
pub open spec fn blocks_view(v: Seq<LabelBlockPair>) -> Seq<BlockView> {
    Seq::new(v.len(), |i: int| v[i]@)
}

impl View for Block {
    type V = Seq<InstrView>;

    open spec fn view(&self) -> Seq<InstrView> {
        instrs_view(self.instr@)
    }
}

impl View for LabelBlockPair {
    type V = BlockView;

    open spec fn view(&self) -> BlockView {
        BlockView { label: self.label@, instr: self.block@ }
    }
}

impl View for Function {
    type V = FunctionView;

    open spec fn view(&self) -> FunctionView {
        FunctionView { blocks: blocks_view(self.blocks@), vars: homes_view(self.vars@) }
    }
}

impl View for X64Program {
    type V = X64ProgramView;

    open spec fn view(&self) -> X64ProgramView {
        X64ProgramView {
            external: names_view(self.external@),
            functions: Seq::new(
                self.functions@.len(),
                |i: int| (self.functions@[i].0@, self.functions@[i].1@),
            ),
        }
    }
}

impl LabelBlockPair {
    pub fn new(label: String, block: Block) -> (r: LabelBlockPair)
        ensures
            r@ == (BlockView { label: label@, instr: block@ }),
    {
        LabelBlockPair { label, block }
    }
}

impl Clone for Arg {
    fn clone(&self) -> (r: Self)
        ensures
            r@ == self@,
    {
        match self {
            Arg::Var(name) => Arg::Var(name.clone()),
            Arg::Imm(n) => Arg::Imm(*n),
            Arg::Reg(r) => Arg::Reg(*r),
            Arg::Deref(r, n) => Arg::Deref(*r, *n),
        }
    }
}

impl Clone for Home {
    fn clone(&self) -> (r: Self)
        ensures
            r@ == self@,
    {
        Home { name: self.name.clone(), loc: self.loc }
    }
}

impl Clone for Instr {
    fn clone(&self) -> (r: Self)
        ensures
            r@ == self@,
    {
        match self {
            Instr::Add64(a, b) => Instr::Add64(a.clone(), b.clone()),
            Instr::Sub64(a, b) => Instr::Sub64(a.clone(), b.clone()),
            Instr::Mov64(a, b) => Instr::Mov64(a.clone(), b.clone()),
            Instr::Neg64(a) => Instr::Neg64(a.clone()),
            Instr::Call(name, n) => Instr::Call(name.clone(), *n),
            Instr::Ret => Instr::Ret,
            Instr::Push(a) => Instr::Push(a.clone()),
            Instr::Pop(a) => Instr::Pop(a.clone()),
            Instr::Jmp(label) => Instr::Jmp(label.clone()),
        }
    }
}

/// Whether two operands are the same.
pub fn arg_eq(a: &Arg, b: &Arg) -> (r: bool)
    ensures
        r == (a@ == b@),
{
    match (a, b) {
        (Arg::Var(x), Arg::Var(y)) => *x == *y,
        (Arg::Imm(x), Arg::Imm(y)) => *x == *y,
        (Arg::Reg(x), Arg::Reg(y)) => *x == *y,
        (Arg::Deref(x, m), Arg::Deref(y, n)) => *x == *y && *m == *n,
        _ => false,
    }
}

/// A copy of a list of instructions.
pub fn clone_instrs(v: &Vec<Instr>) -> (r: Vec<Instr>)
    ensures
        instrs_view(r@) == instrs_view(v@),
{
    let mut out: Vec<Instr> = Vec::new();
    let mut i: usize = 0;
    while i < v.len()
        invariant
            i <= v.len(),
            out@.len() == i,
            forall|j: int| 0 <= j < i ==> out@[j]@ == v@[j]@,
        decreases v.len() - i,
    {
        out.push(v[i].clone());
        i += 1;
    }
    assert(instrs_view(out@) =~= instrs_view(v@));
    out
}

/// A copy of a list of labelled blocks.
pub fn clone_blocks(v: &Vec<LabelBlockPair>) -> (r: Vec<LabelBlockPair>)
    ensures
        blocks_view(r@) == blocks_view(v@),
{
    let mut out: Vec<LabelBlockPair> = Vec::new();
    let mut i: usize = 0;
    while i < v.len()
        invariant
            i <= v.len(),
            out@.len() == i,
            forall|j: int| 0 <= j < i ==> out@[j]@ == v@[j]@,
        decreases v.len() - i,
    {
        out.push(
            LabelBlockPair {
                label: v[i].label.clone(),
                block: Block { info: (), instr: clone_instrs(&v[i].block.instr) },
            },
        );
        i += 1;
    }
    assert(blocks_view(out@) =~= blocks_view(v@));
    out
}

/// A copy of a list of homes.
pub fn clone_homes(v: &Vec<Home>) -> (r: Vec<Home>)
    ensures
        homes_view(r@) == homes_view(v@),
{
    let mut out: Vec<Home> = Vec::new();
    let mut i: usize = 0;
    while i < v.len()
        invariant
            i <= v.len(),
            out@.len() == i,
            forall|j: int| 0 <= j < i ==> out@[j]@ == v@[j]@,
        decreases v.len() - i,
    {
        out.push(v[i].clone());
        i += 1;
    }
    assert(homes_view(out@) =~= homes_view(v@));
    out
}

impl Clone for Block {
    fn clone(&self) -> (r: Self)
        ensures
            r@ == self@,
    {
        Block { info: (), instr: clone_instrs(&self.instr) }
    }
}

impl Clone for LabelBlockPair {
    fn clone(&self) -> (r: Self)
        ensures
            r@ == self@,
    {
        LabelBlockPair { label: self.label.clone(), block: self.block.clone() }
    }
}

impl Clone for Function {
    fn clone(&self) -> (r: Self)
        ensures
            r@ == self@,
    {
        Function { blocks: clone_blocks(&self.blocks), vars: clone_homes(&self.vars) }
    }
}

impl Clone for X64Program {
    fn clone(&self) -> (r: Self)
        ensures
            r@ == self@,
    {
        let mut functions: Vec<(String, Function)> = Vec::new();
        let mut i: usize = 0;
        while i < self.functions.len()
            invariant
                i <= self.functions.len(),
                functions@.len() == i,
                forall|j: int|
                    0 <= j < i ==> functions@[j].0@ == self.functions@[j].0@ && functions@[j].1@
                        == self.functions@[j].1@,
            decreases self.functions.len() - i,
        {
            functions.push((self.functions[i].0.clone(), self.functions[i].1.clone()));
            i += 1;
        }
        let r = X64Program { external: clone_names(&self.external), functions };
        assert(r@.functions =~= self@.functions);
        r
    }
}

} // verus!
