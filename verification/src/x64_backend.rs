//! From the intermediate form to x86-64: instruction selection, homes for
//! the variables, legal moves, and the frame around the function's blocks.

use crate::ast::known_op;
use crate::ast::lemma_ops_differ;
use crate::ast::op_add;
use crate::ast::op_neg;
use crate::ast::op_read;
use crate::explicate::Atm;
use crate::explicate::AtmView;
use crate::explicate::atoms_view;
use crate::explicate::Exp;
use crate::explicate::ExpView;
use crate::explicate::first_label;
use crate::explicate::IRFunction;
use crate::explicate::IRFunctionView;
use crate::explicate::IRProgram;
use crate::explicate::Stmt;
use crate::explicate::StmtView;
use crate::explicate::Tail;
use crate::explicate::TailView;
use crate::interp_ir::find_label;
use crate::interp_ir::label_names;
use crate::liveness::all_live;
use crate::liveness::AllBlockLiveSet;
use crate::liveness::build_liveness_set;
use crate::liveness::check_jumps_resolve;
use crate::liveness::jumps_resolve;
use crate::liveness::live_sets_view;
use crate::natural::find_name;
use crate::natural::has_name;
use crate::natural::lemma_find_name;
use crate::natural::lemma_natural_sort;
use crate::natural::names_view;
use crate::natural::natural_sort;
use crate::natural::natural_sort_spec;
use crate::text::same_text;
use crate::x64_def::Arg;
use crate::x64_def::ArgView;
use crate::x64_def::Block;
use crate::x64_def::blocks_view;
use crate::x64_def::BlockView;
use crate::x64_def::clone_blocks;
use crate::x64_def::clone_homes;
use crate::x64_def::clone_instrs;
use crate::x64_def::Function;
use crate::x64_def::FunctionView;
use crate::x64_def::Home;
use crate::x64_def::homes_view;
use crate::x64_def::HomeView;
use crate::x64_def::Instr;
use crate::x64_def::instrs_view;
use crate::x64_def::InstrView;
use crate::x64_def::LabelBlockPair;
use crate::x64_def::Reg;
use crate::x64_def::VarLoc;
use crate::x64_def::X64Program;
use crate::x64_def::X64ProgramView;
use vstd::prelude::*;

verus! {

/// The operand that an atom is.
pub open spec fn arg_of(a: AtmView) -> ArgView {
    match a {
        AtmView::Int(n) => ArgView::Imm(n),
        AtmView::Var { name } => ArgView::Var(name),
    }
}

/// The register that holds what a function returns.
pub open spec fn rax() -> ArgView {
    ArgView::Reg(Reg::Rax)
}

/// The runtime's name for `read`.
pub open spec fn runtime_read() -> Seq<char> {
    "read_int"@
}

/// An expression that instructions can be selected for: an atom, or one of
/// the three operators with its own number of arguments.
pub open spec fn exp_ok(e: ExpView) -> bool {
    match e {
        ExpView::Atm(_) => true,
        ExpView::Prim { op, args } => known_op(op, args.len()),
    }
}

/// A block that instructions can be selected for: every expression is one
/// that they can be selected for.
pub open spec fn tail_ok(t: TailView) -> bool
    decreases t,
{
    match t {
        TailView::Return(e) => exp_ok(e),
        TailView::Sequence(StmtView::Assign(_, e), rest) => exp_ok(e) && tail_ok(*rest),
    }
}

/// The instructions that leave the value of `e` in `target`. A `read`
/// calls the runtime, which leaves the value in `rax`. An addition whose
/// left operand is the target itself is one instruction.
pub open spec fn select_exp(target: ArgView, e: ExpView) -> Seq<InstrView> {
    match e {
        ExpView::Atm(a) => seq![InstrView::Mov64(target, arg_of(a))],
        ExpView::Prim { op, args } => {
            if op == op_read() && args.len() == 0 {
                if target == rax() {
                    seq![InstrView::Call(runtime_read(), 0)]
                } else {
                    seq![InstrView::Call(runtime_read(), 0), InstrView::Mov64(target, rax())]
                }
            } else if op == op_neg() && args.len() == 1 {
                seq![InstrView::Mov64(target, arg_of(args[0])), InstrView::Neg64(target)]
            } else if op == op_add() && args.len() == 2 {
                if arg_of(args[0]) == target {
                    seq![InstrView::Add64(target, arg_of(args[1]))]
                } else {
                    seq![
                        InstrView::Mov64(target, arg_of(args[0])),
                        InstrView::Add64(target, arg_of(args[1])),
                    ]
                }
            } else {
                Seq::empty()
            }
        },
    }
}

/// The instructions of a statement: those that leave the value of its
/// expression in its variable.
pub open spec fn select_stmt(st: StmtView) -> Seq<InstrView> {
    match st {
        StmtView::Assign(lhs, rhs) => select_exp(arg_of(lhs), rhs),
    }
}

/// The instructions of a block: those of its statements, in order, then
/// those that leave the returned value in `rax`.
pub open spec fn select_tail(t: TailView) -> Seq<InstrView>
    decreases t,
{
    match t {
        TailView::Return(e) => select_exp(rax(), e),
        TailView::Sequence(st, rest) => select_stmt(st) + select_tail(*rest),
    }
}

/// Whether `name` has a home among `vars`.
pub open spec fn has_home(vars: Seq<HomeView>, name: Seq<char>) -> bool {
    exists|i: int| 0 <= i < vars.len() && (#[trigger] vars[i]).name == name
}

/// The homes with one for the atom, where it is a variable that has none
/// yet: a home without a place.
pub open spec fn note_atom(vars: Seq<HomeView>, a: AtmView) -> Seq<HomeView> {
    match a {
        AtmView::Var { name } => if has_home(vars, name) {
            vars
        } else {
            vars.push(HomeView { name, loc: VarLoc::Undefined })
        },
        AtmView::Int(_) => vars,
    }
}

/// The homes after the first `n` of the atoms were noted, in order.
pub open spec fn note_atoms(vars: Seq<HomeView>, atoms: Seq<AtmView>, n: nat) -> Seq<HomeView>
    decreases n,
{
    if n == 0 || n > atoms.len() {
        vars
    } else {
        note_atom(note_atoms(vars, atoms, (n - 1) as nat), atoms[n - 1])
    }
}

/// The homes after an expression's operands were noted.
pub open spec fn note_exp(vars: Seq<HomeView>, e: ExpView) -> Seq<HomeView> {
    match e {
        ExpView::Atm(a) => note_atom(vars, a),
        ExpView::Prim { op, args } => note_atoms(vars, args, args.len()),
    }
}

/// The homes after a block's operands were noted: for each statement its
/// variable, then the operands of its expression.
pub open spec fn note_tail(vars: Seq<HomeView>, t: TailView) -> Seq<HomeView>
    decreases t,
{
    match t {
        TailView::Return(e) => note_exp(vars, e),
        TailView::Sequence(StmtView::Assign(lhs, rhs), rest) => note_tail(
            note_exp(note_atom(vars, lhs), rhs),
            *rest,
        ),
    }
}

/// Whether the expression is a `read`.
pub open spec fn is_read(e: ExpView) -> bool {
    e matches ExpView::Prim { op, args } && op == op_read() && args.len() == 0
}

/// Whether the block holds a `read`.
pub open spec fn uses_read(t: TailView) -> bool
    decreases t,
{
    match t {
        TailView::Return(e) => is_read(e),
        TailView::Sequence(StmtView::Assign(_, e), rest) => is_read(e) || uses_read(*rest),
    }
}

/// The names with `name` among them, at the end where it is new.
pub open spec fn note_name(names: Seq<Seq<char>>, name: Seq<char>) -> Seq<Seq<char>> {
    if names.contains(name) {
        names
    } else {
        names.push(name)
    }
}

/// The runtime symbols after a block was selected.
pub open spec fn note_externals(names: Seq<Seq<char>>, t: TailView) -> Seq<Seq<char>> {
    if uses_read(t) {
        note_name(names, runtime_read())
    } else {
        names
    }
}

/// A move from one variable to another, which no instruction can do.
pub open spec fn is_memory_move(i: InstrView) -> bool {
    i matches InstrView::Mov64(ArgView::Var(_), ArgView::Var(_))
}

/// Whether any of the instructions is a move between variables.
pub open spec fn needs_patch(instr: Seq<InstrView>) -> bool {
    exists|k: int| 0 <= k < instr.len() && is_memory_move(#[trigger] instr[k])
}

/// The first `n` instructions with each move between variables replaced
/// by two moves through `r15`.
pub open spec fn patch_spec(instr: Seq<InstrView>, n: nat) -> Seq<InstrView>
    decreases n,
{
    if n == 0 || n > instr.len() {
        Seq::empty()
    } else {
        match instr[n - 1] {
            InstrView::Mov64(ArgView::Var(x), ArgView::Var(y)) => patch_spec(
                instr,
                (n - 1) as nat,
            ) + seq![
                InstrView::Mov64(ArgView::Reg(Reg::R15), ArgView::Var(y)),
                InstrView::Mov64(ArgView::Var(x), ArgView::Reg(Reg::R15)),
            ],
            other => patch_spec(instr, (n - 1) as nat).push(other),
        }
    }
}

/// After patching no move between variables is left.
pub proof fn lemma_patch_legal(instr: Seq<InstrView>, n: nat)
    requires
        n <= instr.len(),
    ensures
        !needs_patch(patch_spec(instr, n)),
    decreases n,
{
    if n > 0 {
        lemma_patch_legal(instr, (n - 1) as nat);
        let front = patch_spec(instr, (n - 1) as nat);
        let all = patch_spec(instr, n);
        assert forall|k: int| 0 <= k < all.len() implies !is_memory_move(#[trigger] all[k]) by {
            if k < front.len() {
                assert(all[k] == front[k]);
            }
        }
    }
}

/// Where nothing needs patching, patching changes nothing.
pub proof fn lemma_patch_same(instr: Seq<InstrView>, n: nat)
    requires
        n <= instr.len(),
        !needs_patch(instr),
    ensures
        patch_spec(instr, n) == instr.take(n as int),
    decreases n,
{
    if n > 0 {
        lemma_patch_same(instr, (n - 1) as nat);
        assert(!is_memory_move(instr[n - 1]));
        assert(instr.take(n as int) =~= instr.take(n - 1).push(instr[n - 1]));
    } else {
        assert(instr.take(0) =~= Seq::empty());
    }
}

/// The blocks with every block patched.
pub open spec fn patch_blocks(blocks: Seq<BlockView>) -> Seq<BlockView> {
    Seq::new(
        blocks.len(),
        |i: int|
            BlockView {
                label: blocks[i].label,
                instr: patch_spec(blocks[i].instr, blocks[i].instr.len()),
            },
    )
}

/// Whether any block needs patching.
pub open spec fn any_needs_patch(blocks: Seq<BlockView>) -> bool {
    exists|i: int| 0 <= i < blocks.len() && needs_patch((#[trigger] blocks[i]).instr)
}

/// The names of the homes, in order.
pub open spec fn home_names(vars: Seq<HomeView>) -> Seq<Seq<char>> {
    Seq::new(vars.len(), |i: int| vars[i].name)
}

/// The homes on the stack: the names in natural order, the first at `rbp`
/// minus `offset + 8`, each next one 8 further down.
pub open spec fn assigned_homes(vars: Seq<HomeView>, offset: int) -> Seq<HomeView> {
    let names = natural_sort_spec(home_names(vars));
    Seq::new(
        names.len(),
        |i: int| HomeView { name: names[i], loc: VarLoc::Rbp((offset + 8 * (i + 1)) as i64) },
    )
}

/// The label of the block that opens the frame.
pub open spec fn prelude_label() -> Seq<char> {
    "prelude"@
}

/// The label of the block that closes the frame.
pub open spec fn conclusion_label() -> Seq<char> {
    "conclusion"@
}

/// The block that opens the frame and jumps to the function's first block.
pub open spec fn prelude_block() -> BlockView {
    BlockView {
        label: prelude_label(),
        instr: seq![
            InstrView::Push(ArgView::Reg(Reg::Rbp)),
            InstrView::Mov64(ArgView::Reg(Reg::Rbp), ArgView::Reg(Reg::Rsp)),
            InstrView::Jmp(first_label()),
        ],
    }
}

/// The block that closes the frame.
pub open spec fn conclusion_block() -> BlockView {
    BlockView {
        label: conclusion_label(),
        instr: seq![
            InstrView::Mov64(ArgView::Reg(Reg::Rsp), ArgView::Reg(Reg::Rbp)),
            InstrView::Pop(ArgView::Reg(Reg::Rbp)),
        ],
    }
}

/// The blocks between the prelude and the conclusion; the last of them
/// jumps to the conclusion.
pub open spec fn with_frame(blocks: Seq<BlockView>) -> Seq<BlockView> {
    seq![prelude_block()] + blocks.drop_last().push(
        BlockView {
            label: blocks.last().label,
            instr: blocks.last().instr.push(InstrView::Jmp(conclusion_label())),
        },
    ) + seq![conclusion_block()]
}

/// The prelude of a function with `frame` bytes of variables: it makes room
/// for them right behind setting `rbp`, and saves `r15` at its end where
/// the patch register is used.
pub open spec fn finish_prelude(instr: Seq<InstrView>, frame: int, prologue: bool, mp_used: bool) -> Seq<
    InstrView,
> {
    let roomy = if prologue && frame > 0 {
        instr.insert(2, InstrView::Sub64(ArgView::Reg(Reg::Rsp), ArgView::Imm(frame as i64)))
    } else {
        instr
    };
    if prologue && mp_used {
        roomy.push(InstrView::Push(ArgView::Reg(Reg::R15)))
    } else {
        roomy
    }
}

/// The conclusion of a function with `frame` bytes of variables: it starts
/// by giving their room back, restores `r15` where the patch register is
/// used, and returns.
pub open spec fn finish_conclusion(
    instr: Seq<InstrView>,
    frame: int,
    prologue: bool,
    mp_used: bool,
) -> Seq<InstrView> {
    let roomy = if prologue && frame > 0 {
        instr.insert(0, InstrView::Add64(ArgView::Reg(Reg::Rsp), ArgView::Imm(frame as i64)))
    } else {
        instr
    };
    let restored = if prologue && mp_used {
        roomy.push(InstrView::Pop(ArgView::Reg(Reg::R15)))
    } else {
        roomy
    };
    restored.push(InstrView::Ret)
}

/// The framed blocks with the first and the last one finished.
pub open spec fn finish_frame(blocks: Seq<BlockView>, frame: int, prologue: bool, mp_used: bool) -> Seq<
    BlockView,
> {
    let last = blocks.len() - 1;
    blocks.update(
        0,
        BlockView {
            label: blocks[0].label,
            instr: finish_prelude(blocks[0].instr, frame, prologue, mp_used),
        },
    ).update(
        last,
        BlockView {
            label: blocks[last].label,
            instr: finish_conclusion(blocks[last].instr, frame, prologue, mp_used),
        },
    )
}

/// The labels of a function in natural order.
pub open spec fn sorted_labels(f: IRFunctionView) -> Seq<Seq<char>> {
    natural_sort_spec(label_names(f))
}

/// The block of `f` under `label`.
pub open spec fn tail_under(f: IRFunctionView, label: Seq<char>) -> TailView {
    f.labels[find_name(label_names(f), label, 0).unwrap()].1
}

/// The selected instructions of the first `n` blocks of `f` in the
/// natural order of their labels.
pub open spec fn selected_blocks(f: IRFunctionView, n: nat) -> Seq<BlockView> {
    Seq::new(
        n,
        |i: int|
            BlockView {
                label: sorted_labels(f)[i],
                instr: select_tail(tail_under(f, sorted_labels(f)[i])),
            },
    )
}

/// The variables of the first `n` blocks of `f` in the natural order of
/// their labels: each once, where it is first used.
pub open spec fn selected_vars(f: IRFunctionView, n: nat) -> Seq<HomeView>
    decreases n,
{
    if n == 0 {
        Seq::empty()
    } else {
        note_tail(selected_vars(f, (n - 1) as nat), tail_under(f, sorted_labels(f)[n - 1]))
    }
}

/// The runtime symbols that the first `n` blocks of `f` call.
pub open spec fn selected_externals(f: IRFunctionView, n: nat) -> Seq<Seq<char>>
    decreases n,
{
    if n == 0 {
        Seq::empty()
    } else {
        note_externals(
            selected_externals(f, (n - 1) as nat),
            tail_under(f, sorted_labels(f)[n - 1]),
        )
    }
}

/// A function that can be transformed: it has a block, and instructions
/// can be selected for every block.
pub open spec fn function_ok(f: IRFunctionView) -> bool {
    f.labels.len() > 0 && forall|i: int| 0 <= i < f.labels.len() ==> tail_ok((#[trigger] f.labels[i]).1)
}

/// The function in x86-64: its blocks selected in the natural order of
/// their labels, framed by prelude and conclusion, patched, and finished
/// for the stack room that its variables take; every variable with its home.
pub open spec fn transform_spec(f: IRFunctionView) -> FunctionView {
    let n = f.labels.len();
    let vars = selected_vars(f, n);
    let framed = with_frame(selected_blocks(f, n));
    FunctionView {
        blocks: finish_frame(
            patch_blocks(framed),
            (8 * vars.len()) as int,
            vars.len() > 0,
            any_needs_patch(framed),
        ),
        vars: assigned_homes(vars, 0),
    }
}

/// The blocks whose live sets `transform` computes: the framed and
/// patched ones, before the frame is finished.
pub open spec fn live_blocks(f: IRFunctionView) -> Seq<BlockView> {
    patch_blocks(with_frame(selected_blocks(f, f.labels.len())))
}

/// A block ends with a jump or a return.
pub open spec fn ends_block(instr: Seq<InstrView>) -> bool {
    instr.len() > 0 && (instr.last() is Jmp || instr.last() is Ret)
}

/// What the transformer holds: the runtime symbols used, the blocks and
/// homes made so far, the lowest stack offset given out, and whether the
/// function needs a frame and the patch register.
pub struct TransformerView {
    pub externals: Seq<Seq<char>>,
    pub blocks: Seq<BlockView>,
    pub vars: Seq<HomeView>,
    pub rbp_offset: i64,
    pub prologue_necessary: bool,
    pub mp_used: bool,
}

/// The transformer of one function of the intermediate form.
pub struct IRToX64Transformer<'a> {
    externals: Vec<String>,
    name: String,
    cfunc: &'a IRFunction,
    lbps: Vec<LabelBlockPair>,
    liveness_set: AllBlockLiveSet,
    vars: Vec<Home>,
    rbp_offset: i64,
    prologue_necessary: bool,
    mp_used: bool,
}

impl<'a> View for IRToX64Transformer<'a> {
    type V = TransformerView;

    closed spec fn view(&self) -> TransformerView {
        TransformerView {
            externals: names_view(self.externals@),
            blocks: blocks_view(self.lbps@),
            vars: homes_view(self.vars@),
            rbp_offset: self.rbp_offset,
            prologue_necessary: self.prologue_necessary,
            mp_used: self.mp_used,
        }
    }
}

/// The transformer's state before anything was done.
pub open spec fn fresh_transformer() -> TransformerView {
    TransformerView {
        externals: Seq::empty(),
        blocks: Seq::empty(),
        vars: Seq::empty(),
        rbp_offset: 0,
        prologue_necessary: false,
        mp_used: false,
    }
}

/// The instructions with each move between variables replaced by two moves
/// through `r15`, and whether there was such a move.
fn patch(instr: Vec<Instr>) -> (r: (bool, Vec<Instr>))
    ensures
        r.0 == needs_patch(instrs_view(instr@)),
        instrs_view(r.1@) == patch_spec(instrs_view(instr@), instr@.len()),
{
    let ghost all = instrs_view(instr@);
    let mut patched_instructions: Vec<Instr> = Vec::new();
    let mut patched = false;
    let mut k: usize = 0;
    assert(instrs_view(patched_instructions@) =~= patch_spec(all, 0));
    while k < instr.len()
        invariant
            k <= instr@.len(),
            all == instrs_view(instr@),
            instrs_view(patched_instructions@) == patch_spec(all, k as nat),
            patched == exists|j: int| 0 <= j < k && is_memory_move(#[trigger] all[j]),
        decreases instr.len() - k,
    {
        let ghost before = instrs_view(patched_instructions@);
        assert(all[k as int] == instr@[k as int]@);
        match &instr[k] {
            Instr::Mov64(Arg::Var(x), Arg::Var(y)) => {
                patched_instructions.push(Instr::Mov64(Arg::Reg(Reg::R15), Arg::Var(y.clone())));
                patched_instructions.push(Instr::Mov64(Arg::Var(x.clone()), Arg::Reg(Reg::R15)));
                patched = true;
                assert(instrs_view(patched_instructions@) =~= before + seq![
                    InstrView::Mov64(ArgView::Reg(Reg::R15), ArgView::Var(y@)),
                    InstrView::Mov64(ArgView::Var(x@), ArgView::Reg(Reg::R15)),
                ]);
                assert(is_memory_move(all[k as int]));
            },
            other => {
                patched_instructions.push(other.clone());
                assert(instrs_view(patched_instructions@) =~= before.push(all[k as int]));
                assert(!is_memory_move(all[k as int]));
            },
        }
        k += 1;
    }
    (patched, patched_instructions)
}

impl<'a> IRToX64Transformer<'a> {
    /// The function that is transformed.
    pub closed spec fn function(&self) -> &IRFunction {
        self.cfunc
    }

    pub fn new(name: String, cfunc: &'a IRFunction) -> (r: Self)
        ensures
            r@ == fresh_transformer(),
            r.function() == cfunc,
            r.named() == name@,
            r.live_sets() == Seq::<(Seq<char>, Seq<Set<ArgView>>)>::empty(),
    {
        let r = IRToX64Transformer {
            externals: Vec::new(),
            name,
            cfunc,
            lbps: Vec::new(),
            liveness_set: Vec::new(),
            vars: Vec::new(),
            rbp_offset: 0,
            prologue_necessary: false,
            mp_used: false,
        };
        assert(r@.externals =~= Seq::empty());
        assert(r@.blocks =~= Seq::empty());
        assert(r@.vars =~= Seq::empty());
        assert(r.live_sets() =~= Seq::empty());
        r
    }

    /// The name of the function that is transformed.
    pub fn name(&self) -> (r: &String)
        ensures
            r@ == self.named(),
    {
        &self.name
    }

    /// The name of the function that is transformed.
    pub closed spec fn named(&self) -> Seq<char> {
        self.name@
    }

    /// The blocks made so far.
    pub fn blocks(&self) -> (r: &Vec<LabelBlockPair>)
        ensures
            blocks_view(r@) == self@.blocks,
    {
        &self.lbps
    }

    /// The variables and their homes, as they stand.
    pub fn homes(&self) -> (r: &Vec<Home>)
        ensures
            homes_view(r@) == self@.vars,
    {
        &self.vars
    }

    /// The live sets that `transform` computed.
    pub closed spec fn live_sets(&self) -> Seq<(Seq<char>, Seq<Set<ArgView>>)> {
        live_sets_view(self.liveness_set@)
    }

    /// The live sets that `transform` computed.
    pub fn liveness(&self) -> (r: &AllBlockLiveSet)
        ensures
            live_sets_view(r@) == self.live_sets(),
    {
        &self.liveness_set
    }

    fn note_home(&mut self, name: &String)
        ensures
            final(self)@ == (TransformerView {
                vars: note_atom(old(self)@.vars, AtmView::Var { name: name@ }),
                ..old(self)@
            }),
            final(self).function() == old(self).function(),
            final(self).live_sets() == old(self).live_sets(),
    {
        let mut i: usize = 0;
        while i < self.vars.len()
            invariant
                i <= self.vars@.len(),
                *self == *old(self),
                forall|j: int| 0 <= j < i ==> (#[trigger] self@.vars[j]).name != name@,
            decreases self.vars.len() - i,
        {
            if self.vars[i].name == *name {
                assert(self@.vars[i as int].name == name@);
                return ;
            }
            i += 1;
        }
        self.vars.push(Home { name: name.clone(), loc: VarLoc::Undefined });
        assert(final(self)@.vars =~= old(self)@.vars.push(
            HomeView { name: name@, loc: VarLoc::Undefined },
        ));
    }

    fn note_external(&mut self, name: String)
        ensures
            final(self)@ == (TransformerView {
                externals: note_name(old(self)@.externals, name@),
                ..old(self)@
            }),
            final(self).function() == old(self).function(),
            final(self).live_sets() == old(self).live_sets(),
    {
        if !has_name(&self.externals, &name) {
            self.externals.push(name);
            assert(final(self)@.externals =~= old(self)@.externals.push(name@));
        }
    }

    /// The operand that an atom is; a variable gets a home without a place.
    fn handle_atom(&mut self, atm: &Atm) -> (r: Arg)
        ensures
            r@ == arg_of(atm@),
            final(self)@ == (TransformerView {
                vars: note_atom(old(self)@.vars, atm@),
                ..old(self)@
            }),
            final(self).function() == old(self).function(),
            final(self).live_sets() == old(self).live_sets(),
    {
        match atm {
            Atm::Int(n) => Arg::Imm(*n),
            Atm::Var { name } => {
                self.note_home(name);
                Arg::Var(name.clone())
            },
        }
    }

    /// Appends the instructions that leave the value of `expr` in `target`.
    fn handle_exp(&mut self, target: Arg, expr: &Exp, blk_data: &mut Block)
        requires
            exp_ok(expr@),
        ensures
            final(blk_data)@ == old(blk_data)@ + select_exp(target@, expr@),
            final(self)@ == (TransformerView {
                vars: note_exp(old(self)@.vars, expr@),
                externals: if is_read(expr@) {
                    note_name(old(self)@.externals, runtime_read())
                } else {
                    old(self)@.externals
                },
                ..old(self)@
            }),
            final(self).function() == old(self).function(),
            final(self).live_sets() == old(self).live_sets(),
    {
        proof {
            lemma_ops_differ();
        }
        let ghost before = blk_data@;
        match expr {
            Exp::Atm(atm) => {
                let assigned = self.handle_atom(atm);
                blk_data.instr.push(Instr::Mov64(target, assigned));
                assert(blk_data@ =~= before + select_exp(target@, expr@));
            },
            Exp::Prim { op, args } => {
                let ghost atoms = atoms_view(args@);
                if same_text(op, "read") {
                    let runtime_name = String::from_str("read_int");
                    self.note_external(runtime_name.clone());
                    blk_data.instr.push(Instr::Call(runtime_name, 0));
                    let to_rax = match &target {
                        Arg::Reg(Reg::Rax) => true,
                        _ => false,
                    };
                    if !to_rax {
                        blk_data.instr.push(Instr::Mov64(target, Arg::Reg(Reg::Rax)));
                    }
                    assert(blk_data@ =~= before + select_exp(target@, expr@));
                } else if same_text(op, "-") {
                    let assigned = self.handle_atom(&args[0]);
                    assert(note_atoms(old(self)@.vars, atoms, 0) == old(self)@.vars);
                    blk_data.instr.push(Instr::Mov64(target.clone(), assigned));
                    blk_data.instr.push(Instr::Neg64(target));
                    assert(blk_data@ =~= before + select_exp(target@, expr@));
                } else {
                    let latm = self.handle_atom(&args[0]);
                    let ratm = self.handle_atom(&args[1]);
                    assert(note_atoms(old(self)@.vars, atoms, 0) == old(self)@.vars);
                    assert(note_atoms(old(self)@.vars, atoms, 1) == note_atom(
                        old(self)@.vars,
                        atoms[0],
                    ));
                    if crate::x64_def::arg_eq(&latm, &target) {
                        blk_data.instr.push(Instr::Add64(target, ratm));
                    } else {
                        blk_data.instr.push(Instr::Mov64(target.clone(), latm));
                        blk_data.instr.push(Instr::Add64(target, ratm));
                    }
                    assert(blk_data@ =~= before + select_exp(target@, expr@));
                }
            },
        }
    }

    /// Appends the instructions of a statement.
    fn handle_stmt(&mut self, stmt: &Stmt, blk_data: &mut Block)
        requires
            stmt@ matches StmtView::Assign(_, e) && exp_ok(e),
        ensures
            final(blk_data)@ == old(blk_data)@ + select_stmt(stmt@),
            stmt@ matches StmtView::Assign(lhs, rhs) && final(self)@ == (TransformerView {
                vars: note_exp(note_atom(old(self)@.vars, lhs), rhs),
                externals: if is_read(rhs) {
                    note_name(old(self)@.externals, runtime_read())
                } else {
                    old(self)@.externals
                },
                ..old(self)@
            }),
            final(self).function() == old(self).function(),
            final(self).live_sets() == old(self).live_sets(),
    {
        match stmt {
            Stmt::Assign(atm, expr) => {
                let assignee = self.handle_atom(atm);
                self.handle_exp(assignee, expr, blk_data);
            },
        }
    }

    /// The runtime symbols that the function calls.
    pub fn get_externals(self) -> (r: Vec<String>)
        ensures
            names_view(r@) == self@.externals,
    {
        self.externals
    }

    /// Appends the instructions of a block to `blk_data`, and notes the
    /// block's variables and the runtime symbols it calls.
    pub fn select_instruction(&mut self, tail: &Tail, blk_data: &mut Block)
        requires
            tail_ok(tail@),
        ensures
            final(blk_data)@ == old(blk_data)@ + select_tail(tail@),
            final(self)@ == (TransformerView {
                vars: note_tail(old(self)@.vars, tail@),
                externals: note_externals(old(self)@.externals, tail@),
                ..old(self)@
            }),
            final(self).function() == old(self).function(),
            final(self).live_sets() == old(self).live_sets(),
        decreases tail,
    {
        let ghost before = blk_data@;
        match tail {
            Tail::Sequence(stmt, rest) => {
                self.handle_stmt(stmt, blk_data);
                self.select_instruction(rest, blk_data);
                assert(blk_data@ =~= before + select_tail(tail@));
                proof {
                    let noted = note_name(old(self)@.externals, runtime_read());
                    if !old(self)@.externals.contains(runtime_read()) {
                        assert(noted[noted.len() - 1] == runtime_read());
                    }
                    assert(noted.contains(runtime_read()));
                }
            },
            Tail::Return(exp) => {
                self.handle_exp(Arg::Reg(Reg::Rax), exp, blk_data);
            },
        }
    }

    fn next_rbp_offset(&mut self) -> (r: i64)
        requires
            old(self)@.rbp_offset + 8 <= i64::MAX,
        ensures
            r == old(self)@.rbp_offset + 8,
            final(self)@ == (TransformerView { rbp_offset: r, ..old(self)@ }),
            final(self).function() == old(self).function(),
            final(self).live_sets() == old(self).live_sets(),
    {
        self.rbp_offset += 8;
        self.rbp_offset
    }

    /// Gives every variable a home on the stack; after it no variable is
    /// without a place. With any variable the function needs a frame.
    pub fn assign_homes(&mut self)
        requires
            0 <= old(self)@.rbp_offset,
            old(self)@.rbp_offset + 8 * old(self)@.vars.len() <= i64::MAX,
        ensures
            final(self)@ == (TransformerView {
                vars: assigned_homes(old(self)@.vars, old(self)@.rbp_offset as int),
                rbp_offset: (old(self)@.rbp_offset + 8 * old(self)@.vars.len()) as i64,
                prologue_necessary: old(self)@.prologue_necessary || old(self)@.vars.len() > 0,
                ..old(self)@
            }),
            forall|i: int| 0 <= i < final(self)@.vars.len() ==> final(self)@.vars[i].loc
                != VarLoc::Undefined,
            final(self)@.vars.len() == old(self)@.vars.len(),
            final(self).function() == old(self).function(),
            final(self).live_sets() == old(self).live_sets(),
    {
        let ghost start = self@;
        let mut names: Vec<String> = Vec::new();
        let mut i: usize = 0;
        while i < self.vars.len()
            invariant
                i <= self.vars@.len(),
                *self == *old(self),
                names@.len() == i,
                forall|j: int| 0 <= j < i ==> names@[j]@ == self@.vars[j].name,
            decreases self.vars.len() - i,
        {
            names.push(self.vars[i].name.clone());
            i += 1;
        }
        assert(names_view(names@) =~= home_names(start.vars));
        let sorted = natural_sort(&names);
        proof {
            crate::natural::lemma_natural_sort(home_names(start.vars));
        }
        let mut found_homes: Vec<Home> = Vec::new();
        let mut i: usize = 0;
        while i < sorted.len()
            invariant
                i <= sorted@.len(),
                sorted@.len() == start.vars.len(),
                names_view(sorted@) == natural_sort_spec(home_names(start.vars)),
                0 <= start.rbp_offset,
                start.rbp_offset + 8 * start.vars.len() <= i64::MAX,
                self@ == (TransformerView {
                    rbp_offset: (start.rbp_offset + 8 * i) as i64,
                    ..start
                }),
                self.function() == old(self).function(),
                self.live_sets() == old(self).live_sets(),
                found_homes@.len() == i,
                forall|j: int|
                    0 <= j < i ==> (#[trigger] found_homes@[j])@ == assigned_homes(
                        start.vars,
                        start.rbp_offset as int,
                    )[j],
            decreases sorted.len() - i,
        {
            let next_rbp_offset = self.next_rbp_offset();
            found_homes.push(Home { name: sorted[i].clone(), loc: VarLoc::Rbp(next_rbp_offset) });
            i += 1;
        }
        if found_homes.len() > 0 {
            self.prologue_necessary = true;
        }
        self.vars = found_homes;
        assert(final(self)@.vars =~= assigned_homes(start.vars, start.rbp_offset as int));
    }

    /// Replaces, in every block, each move between variables by two moves
    /// through `r15`; after it no such move is left.
    pub fn patch_instructions(&mut self)
        ensures
            final(self)@ == (TransformerView {
                blocks: patch_blocks(old(self)@.blocks),
                mp_used: old(self)@.mp_used || any_needs_patch(old(self)@.blocks),
                ..old(self)@
            }),
            forall|b: int|
                0 <= b < final(self)@.blocks.len() ==> !needs_patch(
                    (#[trigger] final(self)@.blocks[b]).instr,
                ),
            final(self).function() == old(self).function(),
            final(self).live_sets() == old(self).live_sets(),
    {
        let ghost start = self@;
        let mut i: usize = 0;
        while i < self.lbps.len()
            invariant
                i <= self.lbps@.len(),
                self.lbps@.len() == start.blocks.len(),
                self.function() == old(self).function(),
                self.live_sets() == old(self).live_sets(),
                start == old(self)@,
                self@.externals == start.externals,
                self@.vars == start.vars,
                self@.rbp_offset == start.rbp_offset,
                self@.prologue_necessary == start.prologue_necessary,
                self@.mp_used == (start.mp_used || exists|j: int|
                    0 <= j < i && needs_patch((#[trigger] start.blocks[j]).instr)),
                forall|j: int| 0 <= j < i ==> (#[trigger] self@.blocks[j]) == patch_blocks(start.blocks)[j],
                forall|j: int| i <= j < self.lbps@.len() ==> (#[trigger] self@.blocks[j]) == start.blocks[j],
            decreases self.lbps.len() - i,
        {
            let ghost now = self@;
            let instructions = clone_instrs(&self.lbps[i].block.instr);
            assert(instrs_view(instructions@) == start.blocks[i as int].instr) by {
                assert(self@.blocks[i as int] == start.blocks[i as int]);
            }
            let (patched, instructions) = patch(instructions);
            proof {
                if !patched {
                    lemma_patch_same(start.blocks[i as int].instr, start.blocks[i as int].instr.len());
                    assert(start.blocks[i as int].instr.take(
                        start.blocks[i as int].instr.len() as int,
                    ) =~= start.blocks[i as int].instr);
                }
            }
            if patched {
                self.mp_used = true;
                self.lbps[i].block.instr = instructions;
            }
            assert forall|j: int| 0 <= j < self.lbps@.len() && j != i implies (
            #[trigger] self@.blocks[j]) == now.blocks[j] by {}
            assert(now.blocks[i as int] == start.blocks[i as int]);
            assert(self@.blocks[i as int].label == start.blocks[i as int].label);
            assert(self@.blocks[i as int].instr == patch_spec(
                start.blocks[i as int].instr,
                start.blocks[i as int].instr.len(),
            ));
            assert(self@.blocks[i as int] == patch_blocks(start.blocks)[i as int]);
            i += 1;
        }
        assert(self@.blocks =~= patch_blocks(start.blocks));
        assert forall|b: int| 0 <= b < self@.blocks.len() implies !needs_patch(
            (#[trigger] self@.blocks[b]).instr,
        ) by {
            lemma_patch_legal(start.blocks[b].instr, start.blocks[b].instr.len());
        }
    }

    /// Puts the blocks between a prelude and a conclusion; the last block
    /// gets a jump to the conclusion.
    pub fn add_prelude_and_conclusion(&mut self)
        requires
            old(self)@.blocks.len() > 0,
        ensures
            final(self)@ == (TransformerView {
                blocks: with_frame(old(self)@.blocks),
                ..old(self)@
            }),
            final(self).function() == old(self).function(),
            final(self).live_sets() == old(self).live_sets(),
    {
        let ghost start = self@;
        let mut pre_instr: Vec<Instr> = Vec::new();
        pre_instr.push(Instr::Push(Arg::Reg(Reg::Rbp)));
        pre_instr.push(Instr::Mov64(Arg::Reg(Reg::Rbp), Arg::Reg(Reg::Rsp)));
        pre_instr.push(Instr::Jmp(String::from_str(".l1")));
        let prelude = LabelBlockPair {
            label: String::from_str("prelude"),
            block: Block { info: (), instr: pre_instr },
        };
        assert(prelude@.instr =~= prelude_block().instr);
        let mut con_instr: Vec<Instr> = Vec::new();
        con_instr.push(Instr::Mov64(Arg::Reg(Reg::Rsp), Arg::Reg(Reg::Rbp)));
        con_instr.push(Instr::Pop(Arg::Reg(Reg::Rbp)));
        let conclusion = LabelBlockPair {
            label: String::from_str("conclusion"),
            block: Block { info: (), instr: con_instr },
        };
        assert(conclusion@.instr =~= conclusion_block().instr);
        let last_label_before_conclusion = self.lbps.len() - 1;
        self.lbps[last_label_before_conclusion].block.instr.push(
            Instr::Jmp(String::from_str("conclusion")),
        );
        let ghost jumped = self@.blocks;
        assert(jumped[start.blocks.len() - 1].instr =~= start.blocks.last().instr.push(
            InstrView::Jmp(conclusion_label()),
        ));
        assert(jumped =~= start.blocks.drop_last().push(
            BlockView {
                label: start.blocks.last().label,
                instr: start.blocks.last().instr.push(InstrView::Jmp(conclusion_label())),
            },
        )) by {
            assert forall|j: int| 0 <= j < start.blocks.len() - 1 implies jumped[j]
                == start.blocks[j] by {}
        }
        self.lbps.insert(0, prelude);
        self.lbps.push(conclusion);
        assert(self@.blocks =~= with_frame(start.blocks));
    }

    /// Selects the instructions of every block of the function, in the
    /// natural order of the labels.
    fn select_all(&mut self)
        requires
            old(self)@ == fresh_transformer(),
            function_ok(old(self).function()@),
        ensures
            final(self)@ == (TransformerView {
                blocks: selected_blocks(
                    old(self).function()@,
                    old(self).function()@.labels.len(),
                ),
                vars: selected_vars(old(self).function()@, old(self).function()@.labels.len()),
                externals: selected_externals(
                    old(self).function()@,
                    old(self).function()@.labels.len(),
                ),
                ..fresh_transformer()
            }),
            final(self).function() == old(self).function(),
            final(self).live_sets() == old(self).live_sets(),
    {
        let cfunc = self.cfunc;
        let ghost f = cfunc@;
        let mut names: Vec<String> = Vec::new();
        let mut i: usize = 0;
        while i < cfunc.labels.len()
            invariant
                i <= cfunc.labels@.len(),
                names@.len() == i,
                forall|j: int| 0 <= j < i ==> names@[j]@ == cfunc.labels@[j].0@,
            decreases cfunc.labels.len() - i,
        {
            names.push(cfunc.labels[i].0.clone());
            i += 1;
        }
        assert(names_view(names@) =~= label_names(f));
        let sorted = natural_sort(&names);
        proof {
            lemma_natural_sort(label_names(f));
        }
        assert(self@.blocks =~= selected_blocks(f, 0));
        let mut i: usize = 0;
        while i < sorted.len()
            invariant
                i <= sorted@.len(),
                sorted@.len() == f.labels.len(),
                names_view(sorted@) == sorted_labels(f),
                cfunc == self.function(),
                self.function() == old(self).function(),
                self.live_sets() == old(self).live_sets(),
                f == cfunc@,
                function_ok(f),
                forall|y: Seq<char>|
                    #![trigger sorted_labels(f).contains(y)]
                    sorted_labels(f).contains(y) <==> label_names(f).contains(y),
                self@ == (TransformerView {
                    blocks: selected_blocks(f, i as nat),
                    vars: selected_vars(f, i as nat),
                    externals: selected_externals(f, i as nat),
                    ..fresh_transformer()
                }),
            decreases sorted.len() - i,
        {
            let ghost label = sorted_labels(f)[i as int];
            proof {
                assert(sorted_labels(f).contains(label));
                assert(label_names(f).contains(label));
                lemma_find_name(label_names(f), label, 0);
            }
            match find_label(cfunc, sorted[i].as_str()) {
                Some(idx) => {
                    let mut block = Block { info: (), instr: Vec::new() };
                    assert(block@ =~= Seq::empty());
                    assert(f.labels[idx as int].1 == cfunc.labels@[idx as int].1@);
                    self.select_instruction(&cfunc.labels[idx].1, &mut block);
                    assert(block@ =~= select_tail(tail_under(f, label)));
                    let ghost before = self@.blocks;
                    self.lbps.push(LabelBlockPair::new(sorted[i].clone(), block));
                    assert(self@.blocks =~= selected_blocks(f, (i + 1) as nat)) by {
                        assert(self@.blocks =~= before.push(
                            BlockView { label, instr: select_tail(tail_under(f, label)) },
                        ));
                    }
                },
                None => {
                    assert(false);
                },
            }
            i += 1;
        }
    }

    /// Makes room for the variables and saves the patch register, in the
    /// prelude and the conclusion, and ends the conclusion with a return.
    fn finish(&mut self, frame: i64)
        requires
            old(self)@.blocks.len() >= 2,
            old(self)@.blocks[0].instr.len() >= 2,
        ensures
            final(self)@ == (TransformerView {
                blocks: finish_frame(
                    old(self)@.blocks,
                    frame as int,
                    old(self)@.prologue_necessary,
                    old(self)@.mp_used,
                ),
                ..old(self)@
            }),
            final(self).function() == old(self).function(),
            final(self).live_sets() == old(self).live_sets(),
    {
        let ghost start = self@;
        let prologue_index: usize = 0;
        let conclusion_index: usize = self.lbps.len() - 1;
        let mut pre = clone_instrs(&self.lbps[prologue_index].block.instr);
        let mut con = clone_instrs(&self.lbps[conclusion_index].block.instr);
        let ghost pre0 = instrs_view(pre@);
        let ghost con0 = instrs_view(con@);
        assert(pre0 == start.blocks[0].instr);
        assert(con0 == start.blocks[conclusion_index as int].instr);
        if self.prologue_necessary {
            if frame > 0 {
                let rsp_sub_index: usize = 2;
                pre.insert(rsp_sub_index, Instr::Sub64(Arg::Reg(Reg::Rsp), Arg::Imm(frame)));
                con.insert(0, Instr::Add64(Arg::Reg(Reg::Rsp), Arg::Imm(frame)));
                assert(instrs_view(pre@) =~= pre0.insert(
                    2,
                    InstrView::Sub64(ArgView::Reg(Reg::Rsp), ArgView::Imm(frame)),
                ));
                assert(instrs_view(con@) =~= con0.insert(
                    0,
                    InstrView::Add64(ArgView::Reg(Reg::Rsp), ArgView::Imm(frame)),
                ));
            }
            let ghost pre1 = instrs_view(pre@);
            let ghost con1 = instrs_view(con@);
            if self.mp_used {
                pre.push(Instr::Push(Arg::Reg(Reg::R15)));
                con.push(Instr::Pop(Arg::Reg(Reg::R15)));
                assert(instrs_view(pre@) =~= pre1.push(InstrView::Push(ArgView::Reg(Reg::R15))));
                assert(instrs_view(con@) =~= con1.push(InstrView::Pop(ArgView::Reg(Reg::R15))));
            }
        }
        let ghost con2 = instrs_view(con@);
        con.push(Instr::Ret);
        assert(instrs_view(con@) =~= con2.push(InstrView::Ret));
        assert(instrs_view(pre@) == finish_prelude(
            pre0,
            frame as int,
            start.prologue_necessary,
            start.mp_used,
        ));
        assert(instrs_view(con@) == finish_conclusion(
            con0,
            frame as int,
            start.prologue_necessary,
            start.mp_used,
        ));
        self.lbps[prologue_index].block.instr = pre;
        self.lbps[conclusion_index].block.instr = con;
        proof {
            let target = finish_frame(
                start.blocks,
                frame as int,
                start.prologue_necessary,
                start.mp_used,
            );
            assert(self@.blocks.len() == target.len());
            assert(self@.blocks =~= target);
        }
    }

    /// The function in x86-64.
    pub fn transform(&mut self) -> (r: Function)
        requires
            old(self)@ == fresh_transformer(),
            function_ok(old(self).function()@),
            8 * selected_vars(
                old(self).function()@,
                old(self).function()@.labels.len(),
            ).len() <= i64::MAX,
        ensures
            r@ == transform_spec(old(self).function()@),
            final(self)@.externals == selected_externals(
                old(self).function()@,
                old(self).function()@.labels.len(),
            ),
            final(self).function() == old(self).function(),
            forall|i: int| 0 <= i < r@.vars.len() ==> (#[trigger] r@.vars[i]).loc != VarLoc::Undefined,
            final(self).live_sets() == (if jumps_resolve(live_blocks(old(self).function()@)) {
                all_live(live_blocks(old(self).function()@))
            } else {
                old(self).live_sets()
            }),
            crate::x64_print::function_printable(r@),
            forall|b: int| 0 <= b < r@.blocks.len() ==> !needs_patch((#[trigger] r@.blocks[b]).instr),
    {
        let ghost f = self.function()@;
        proof {
            crate::emission::lemma_transform_printable(f);
            lemma_transform_legal(f);
        }
        self.select_all();
        self.add_prelude_and_conclusion();
        // this might set mp_used
        self.patch_instructions();
        if check_jumps_resolve(&self.lbps) {
            self.liveness_set = build_liveness_set(&self.lbps);
        }
        // this tells whether the function needs a frame
        self.assign_homes();
        let frame = self.rbp_offset;
        proof {
            let framed = with_frame(selected_blocks(f, f.labels.len()));
            assert(framed[0] == prelude_block());
            assert(patch_blocks(framed)[0].instr.len() >= 2) by {
                lemma_patch_length(framed[0].instr, framed[0].instr.len());
            }
        }
        self.finish(frame);
        Function { blocks: clone_blocks(&self.lbps), vars: clone_homes(&self.vars) }
    }
}

/// Patching does not shorten a block.
pub proof fn lemma_patch_length(instr: Seq<InstrView>, n: nat)
    requires
        n <= instr.len(),
    ensures
        patch_spec(instr, n).len() >= n,
    decreases n,
{
    if n > 0 {
        lemma_patch_length(instr, (n - 1) as nat);
    }
}

/// The names with the first `n` of `more` noted, in order.
pub open spec fn merge_names(names: Seq<Seq<char>>, more: Seq<Seq<char>>, n: nat) -> Seq<Seq<char>>
    decreases n,
{
    if n == 0 || n > more.len() {
        names
    } else {
        note_name(merge_names(names, more, (n - 1) as nat), more[n - 1])
    }
}

/// The runtime symbols that the first `n` functions of a program call.
pub open spec fn program_externals(p: Seq<(Seq<char>, IRFunctionView)>, n: nat) -> Seq<Seq<char>>
    decreases n,
{
    if n == 0 || n > p.len() {
        Seq::empty()
    } else {
        let of_function = selected_externals(p[n - 1].1, p[n - 1].1.labels.len());
        merge_names(program_externals(p, (n - 1) as nat), of_function, of_function.len())
    }
}

/// A function that `transform` takes: one that can be transformed, whose
/// variables' stack offsets fit in 64 bits.
pub open spec fn transformable(f: IRFunctionView) -> bool {
    function_ok(f) && 8 * selected_vars(f, f.labels.len()).len() <= i64::MAX
}

/// The program in x86-64: every function transformed, under its name, and
/// the runtime symbols that they call.
pub open spec fn ir_to_x64_spec(p: Seq<(Seq<char>, IRFunctionView)>) -> X64ProgramView {
    X64ProgramView {
        external: program_externals(p, p.len()),
        functions: Seq::new(p.len(), |i: int| (p[i].0, transform_spec(p[i].1))),
    }
}

/// Whether instructions can be selected for the expression.
fn check_exp_ok(e: &Exp) -> (r: bool)
    ensures
        r == exp_ok(e@),
{
    match e {
        Exp::Atm(_) => true,
        Exp::Prim { op, args } => crate::ast::check_known_op(op, args.len()),
    }
}

/// Whether instructions can be selected for the block.
pub fn check_tail_ok(tail: &Tail) -> (r: bool)
    ensures
        r == tail_ok(tail@),
    decreases tail,
{
    match tail {
        Tail::Return(e) => check_exp_ok(e),
        Tail::Sequence(Stmt::Assign(_, e), rest) => check_exp_ok(e) && check_tail_ok(rest),
    }
}

/// Whether `transform` takes the function.
pub fn check_transformable(cfunc: &IRFunction) -> (r: bool)
    ensures
        r == transformable(cfunc@),
{
    if cfunc.labels.len() == 0 {
        return false;
    }
    let mut i: usize = 0;
    while i < cfunc.labels.len()
        invariant
            i <= cfunc.labels@.len(),
            forall|j: int| 0 <= j < i ==> tail_ok((#[trigger] cfunc@.labels[j]).1),
        decreases cfunc.labels.len() - i,
    {
        assert(cfunc@.labels[i as int].1 == cfunc.labels@[i as int].1@);
        if !check_tail_ok(&cfunc.labels[i].1) {
            return false;
        }
        i += 1;
    }
    let mut scratch = IRToX64Transformer::new(String::new(), cfunc);
    scratch.select_all();
    (scratch.vars.len() as u64) <= 0x0fff_ffff_ffff_ffffu64
}

/// The program in x86-64.
pub fn ir_to_x64(cprog: IRProgram) -> (r: X64Program)
    requires
        forall|i: int| 0 <= i < cprog@.len() ==> transformable((#[trigger] cprog@[i]).1),
    ensures
        r@ == ir_to_x64_spec(cprog@),
        crate::x64_print::program_printable(r@),
        forall|i: int, j: int|
            0 <= i < r@.functions.len() && 0 <= j < r@.functions[i].1.vars.len() ==> (
            #[trigger] r@.functions[i].1.vars[j]).loc != VarLoc::Undefined,
        forall|i: int, b: int|
            0 <= i < r@.functions.len() && 0 <= b < r@.functions[i].1.blocks.len() ==> !needs_patch(
                (#[trigger] r@.functions[i].1.blocks[b]).instr,
            ),
{
    let ghost p = cprog@;
    let mut externals: Vec<String> = Vec::new();
    let mut x64_fns: Vec<(String, Function)> = Vec::new();
    let mut i: usize = 0;
    assert(names_view(externals@) =~= program_externals(p, 0));
    while i < cprog.functions.len()
        invariant
            i <= cprog.functions@.len(),
            p == cprog@,
            forall|j: int| 0 <= j < p.len() ==> transformable((#[trigger] p[j]).1),
            names_view(externals@) == program_externals(p, i as nat),
            x64_fns@.len() == i,
            forall|j: int|
                0 <= j < i ==> (#[trigger] x64_fns@[j]).0@ == p[j].0 && x64_fns@[j].1@
                    == transform_spec(p[j].1),
        decreases cprog.functions.len() - i,
    {
        assert(p[i as int].1 == cprog.functions@[i as int].1@);
        assert(transformable(p[i as int].1));
        let name = cprog.functions[i].0.clone();
        let mut transformer = IRToX64Transformer::new(name.clone(), &cprog.functions[i].1);
        let func = transformer.transform();
        let used = transformer.get_externals();
        let ghost of_function = names_view(used@);
        let ghost before = names_view(externals@);
        let mut k: usize = 0;
        while k < used.len()
            invariant
                k <= used@.len(),
                of_function == names_view(used@),
                names_view(externals@) == merge_names(before, of_function, k as nat),
            decreases used.len() - k,
        {
            if !has_name(&externals, &used[k]) {
                let ghost now = names_view(externals@);
                externals.push(used[k].clone());
                assert(names_view(externals@) =~= now.push(used@[k as int]@));
            }
            k += 1;
        }
        x64_fns.push((name, func));
        i += 1;
    }
    let r = X64Program { external: externals, functions: x64_fns };
    assert(r@.functions =~= ir_to_x64_spec(p).functions);
    assert forall|i: int| 0 <= i < r@.functions.len() implies crate::x64_print::function_printable(
        (#[trigger] r@.functions[i]).1,
    ) by {
        assert(transformable(p[i].1));
        crate::emission::lemma_transform_printable(p[i].1);
    }
    assert forall|i: int, b: int|
        0 <= i < r@.functions.len() && 0 <= b < r@.functions[i].1.blocks.len() implies !needs_patch(
        (#[trigger] r@.functions[i].1.blocks[b]).instr,
    ) by {
        assert(transformable(p[i].1));
        lemma_transform_legal(p[i].1);
    }
    r
}

/// After frame finalization the prelude is first and the conclusion is
/// last, and the conclusion ends with a return. Where the function has one
/// block and no move needed the patch register, every block before the
/// conclusion ends with a jump.
pub proof fn lemma_frame_shape(f: IRFunctionView)
    requires
        function_ok(f),
    ensures
        transform_spec(f).blocks.len() == f.labels.len() + 2,
        transform_spec(f).blocks.first().label == prelude_label(),
        transform_spec(f).blocks.last().label == conclusion_label(),
        ends_block(transform_spec(f).blocks.last().instr),
        f.labels.len() == 1 && !any_needs_patch(
            with_frame(selected_blocks(f, f.labels.len())),
        ) ==> forall|b: int|
            0 <= b < transform_spec(f).blocks.len() - 1 ==> ends_block(
                (#[trigger] transform_spec(f).blocks[b]).instr,
            ),
{
    let n = f.labels.len();
    let vars = selected_vars(f, n);
    let selected = selected_blocks(f, n);
    let framed = with_frame(selected);
    let patched = patch_blocks(framed);
    let mp = any_needs_patch(framed);
    let out = transform_spec(f).blocks;
    assert(framed.len() == n + 2);
    assert(framed[0] == prelude_block());
    assert(framed[n as int + 1] == conclusion_block());
    if n == 1 && !mp {
        assert forall|b: int| 0 <= b < out.len() - 1 implies ends_block(
            (#[trigger] out[b]).instr,
        ) by {
            assert(!needs_patch(framed[b].instr));
            lemma_patch_same(framed[b].instr, framed[b].instr.len());
            assert(framed[b].instr.take(framed[b].instr.len() as int) =~= framed[b].instr);
            if b == 0 {
                assert(out[0].instr == finish_prelude(
                    prelude_block().instr,
                    (8 * vars.len()) as int,
                    vars.len() > 0,
                    mp,
                ));
            } else {
                assert(b == 1);
                assert(framed[1].instr == selected.last().instr.push(
                    InstrView::Jmp(conclusion_label()),
                ));
            }
        }
    }
}

/// After the transformation no move between variables is left in any block.
pub proof fn lemma_transform_legal(f: IRFunctionView)
    requires
        function_ok(f),
    ensures
        forall|b: int|
            0 <= b < transform_spec(f).blocks.len() ==> !needs_patch(
                (#[trigger] transform_spec(f).blocks[b]).instr,
            ),
{
    let n = f.labels.len();
    let vars = selected_vars(f, n);
    let framed = with_frame(selected_blocks(f, n));
    let patched = patch_blocks(framed);
    let mp = any_needs_patch(framed);
    let out = transform_spec(f).blocks;
    let frame = (8 * vars.len()) as int;
    assert(framed.len() == n + 2);
    assert forall|b: int| 0 <= b < out.len() implies !needs_patch((#[trigger] out[b]).instr) by {
        lemma_patch_legal(framed[b].instr, framed[b].instr.len());
        let base = patched[b].instr;
        assert(!needs_patch(base));
        assert forall|k: int| 0 <= k < out[b].instr.len() implies !is_memory_move(
            #[trigger] out[b].instr[k],
        ) by {
            if is_memory_move(out[b].instr[k]) {
                if b == 0 && b == out.len() - 1 {
                } else if b == 0 {
                    lemma_patch_length(framed[0].instr, framed[0].instr.len());
                    lemma_finished_moves(base, frame, vars.len() > 0, mp, k);
                } else if b == out.len() - 1 {
                    lemma_finished_moves(base, frame, vars.len() > 0, mp, k);
                } else {
                    assert(is_memory_move(base[k]));
                }
            }
        }
    }
}

/// Finishing the prelude or the conclusion adds no move between variables.
proof fn lemma_finished_moves(base: Seq<InstrView>, frame: int, prologue: bool, mp: bool, k: int)
    requires
        !needs_patch(base),
    ensures
        2 <= base.len() && 0 <= k < finish_prelude(base, frame, prologue, mp).len()
            ==> !is_memory_move(finish_prelude(base, frame, prologue, mp)[k]),
        0 <= k < finish_conclusion(base, frame, prologue, mp).len() ==> !is_memory_move(
            finish_conclusion(base, frame, prologue, mp)[k],
        ),
{
    let pre = finish_prelude(base, frame, prologue, mp);
    if 2 <= base.len() && 0 <= k < pre.len() && is_memory_move(pre[k]) {
        if prologue && frame > 0 {
            if k < 2 {
                assert(is_memory_move(base[k]));
            } else if k > 2 && k <= base.len() {
                assert(is_memory_move(base[k - 1]));
            }
        } else {
            if k < base.len() {
                assert(is_memory_move(base[k]));
            }
        }
    }
    let con = finish_conclusion(base, frame, prologue, mp);
    if 0 <= k < con.len() && is_memory_move(con[k]) {
        if prologue && frame > 0 {
            if 1 <= k <= base.len() {
                assert(is_memory_move(base[k - 1]));
            }
        } else {
            if k < base.len() {
                assert(is_memory_move(base[k]));
            }
        }
    }
}

} // verus!
