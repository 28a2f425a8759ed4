//! What the instructions of a program compute on the machine.
//!
//! The laws of this module speak of what the back end makes of a program
//! of one block, wherever every instruction that it puts between prelude
//! and conclusion is one that the machine runs. These instructions leave
//! in `rax` the value that the interpreter of the intermediate form gives
//! the program ([`lemma_compiled_computes`]), which is the value that the
//! tree interpreter gives it on the same lines of input
//! ([`lemma_compiled_agrees`]), before as after the removal of complex
//! operands ([`lemma_compiled_keeps`]). And where no move goes through the
//! patch register, the whole function, from its entry to its return,
//! comes back with that value ([`lemma_function_computes`],
//! [`lemma_function_agrees`]).

use crate::agreement::all_ints;
use crate::agreement::all_reads;
use crate::agreement::lemma_interpreters_agree;
use crate::agreement::lemma_write_bindings;
use crate::agreement::lemma_write_run;
use crate::ast::anf;
use crate::ast::Expr;
use crate::ast::lemma_ops_differ;
use crate::ast::op_add;
use crate::ast::op_neg;
use crate::ast::op_read;
use crate::ast::well_formed;
use crate::decomplify::lemma_rco_anf;
use crate::decomplify::rco_expr_spec;
use crate::explicate::AtmView;
use crate::explicate::entry_name;
use crate::explicate::explicate_control_spec;
use crate::explicate::ExpView;
use crate::explicate::first_label;
use crate::explicate::IRFunctionView;
use crate::explicate::StmtView;
use crate::explicate::TailView;
use crate::interp_ast::ast_run_spec;
use crate::interp_ast::AstState;
use crate::interp_ast::interp_bindings;
use crate::interp_ast::interp_spec;
use crate::interp_ir::atm_spec;
use crate::interp_ir::exp_spec;
use crate::interp_ir::function_names;
use crate::interp_ir::ir_run_spec;
use crate::interp_ir::IrState;
use crate::interp_ir::label_names;
use crate::interp_ir::stmt_spec;
use crate::interp_ir::tail_spec;
use crate::interp_ir::var_lookup;
use crate::interpreter::CacheView;
use crate::interpreter::find_cached;
use crate::interpreter::read_name;
use crate::interpreter::read_step;
use crate::machine::block_at;
use crate::machine::encodable;
use crate::machine::run_blocks;
use crate::machine::fetch;
use crate::machine::MachineState;
use crate::machine::Place;
use crate::machine::place_of;
use crate::machine::pop_step;
use crate::machine::popped;
use crate::machine::push_step;
use crate::machine::put;
use crate::machine::ready;
use crate::machine::run;
use crate::machine::run_all;
use crate::machine::runnable;
use crate::machine::runtime_read_spec;
use crate::machine::step;
use crate::natural::find_name;
use crate::natural::insert_sorted;
use crate::natural::lemma_natural_sort;
use crate::natural::natural_sort_spec;
use crate::preservation::lemma_decomplify_keeps;
use crate::preservation::tidy;
use crate::text::parse_i64_spec;
use crate::x64_backend::any_needs_patch;
use crate::x64_backend::arg_of;
use crate::x64_backend::assigned_homes;
use crate::x64_backend::conclusion_block;
use crate::x64_backend::conclusion_label;
use crate::x64_backend::home_names;
use crate::x64_backend::ir_to_x64_spec;
use crate::x64_backend::lemma_patch_same;
use crate::x64_backend::needs_patch;
use crate::x64_backend::patch_blocks;
use crate::x64_backend::patch_spec;
use crate::x64_backend::prelude_block;
use crate::x64_backend::prelude_label;
use crate::x64_backend::rax;
use crate::x64_backend::runtime_read;
use crate::x64_backend::select_exp;
use crate::x64_backend::select_stmt;
use crate::x64_backend::select_tail;
use crate::x64_backend::selected_blocks;
use crate::x64_backend::selected_vars;
use crate::x64_backend::sorted_labels;
use crate::x64_backend::tail_under;
use crate::x64_backend::with_frame;
use crate::x64_def::ArgView;
use crate::x64_def::BlockView;
use crate::x64_def::HomeView;
use crate::x64_def::InstrView;
use crate::x64_def::Reg;
use crate::x64_print::home_of;
use vstd::prelude::*;

verus! {

/// What patching makes of one instruction: of a move between variables the
/// two moves through `r15`, of any other the instruction itself.
pub open spec fn patched_instr(i: InstrView) -> Seq<InstrView> {
    match i {
        InstrView::Mov64(ArgView::Var(x), ArgView::Var(y)) => seq![
            InstrView::Mov64(ArgView::Reg(Reg::R15), ArgView::Var(y)),
            InstrView::Mov64(ArgView::Var(x), ArgView::Reg(Reg::R15)),
        ],
        other => seq![other],
    }
}

/// All of the instructions, patched.
pub open spec fn patched(instr: Seq<InstrView>) -> Seq<InstrView> {
    patch_spec(instr, instr.len())
}

/// Patching goes instruction by instruction.
pub proof fn lemma_patched_push(instr: Seq<InstrView>, i: InstrView)
    ensures
        patched(instr.push(i)) == patched(instr) + patched_instr(i),
{
    let all = instr.push(i);
    lemma_patch_prefix(all, instr, instr.len());
    assert(all[all.len() - 1] == i);
    match i {
        InstrView::Mov64(ArgView::Var(x), ArgView::Var(y)) => {},
        _ => {
            assert(patch_spec(all, instr.len()).push(i) =~= patch_spec(all, instr.len()) + seq![i]);
        },
    }
}

/// What patching makes of the first instructions depends on them alone.
pub proof fn lemma_patch_prefix(a: Seq<InstrView>, b: Seq<InstrView>, n: nat)
    requires
        n <= a.len(),
        n <= b.len(),
        forall|k: int| 0 <= k < n ==> a[k] == b[k],
    ensures
        patch_spec(a, n) == patch_spec(b, n),
    decreases n,
{
    if n > 0 {
        lemma_patch_prefix(a, b, (n - 1) as nat);
    }
}

/// Patching two runs of instructions is patching each.
pub proof fn lemma_patched_concat(a: Seq<InstrView>, b: Seq<InstrView>)
    ensures
        patched(a + b) == patched(a) + patched(b),
    decreases b.len(),
{
    if b.len() == 0 {
        assert(a + b =~= a);
        assert(patched(b) =~= Seq::empty());
        assert(patched(a) + patched(b) =~= patched(a));
    } else {
        let front = b.drop_last();
        lemma_patched_concat(a, front);
        lemma_patched_push(a + front, b.last());
        lemma_patched_push(front, b.last());
        assert((a + front).push(b.last()) =~= a + b);
        assert(front.push(b.last()) =~= b);
        assert((patched(a) + patched(front)) + patched_instr(b.last()) =~= patched(a) + (patched(front)
            + patched_instr(b.last())));
    }
}

/// What patching makes of one instruction alone.
pub proof fn lemma_patched_one(i: InstrView)
    ensures
        patched(seq![i]) == patched_instr(i),
{
    lemma_patched_push(Seq::empty(), i);
    assert(Seq::<InstrView>::empty().push(i) =~= seq![i]);
    assert(patched(Seq::<InstrView>::empty()) =~= Seq::empty());
    assert(Seq::<InstrView>::empty() + patched_instr(i) =~= patched_instr(i));
}

/// Running the first instructions depends on them alone.
pub proof fn lemma_run_prefix(homes: Seq<HomeView>, a: Seq<InstrView>, b: Seq<InstrView>, n: nat, m: MachineState)
    requires
        n <= a.len(),
        n <= b.len(),
        forall|k: int| 0 <= k < n ==> a[k] == b[k],
    ensures
        run(homes, a, n, m) == run(homes, b, n, m),
    decreases n,
{
    if n > 0 {
        lemma_run_prefix(homes, a, b, (n - 1) as nat, m);
    }
}

/// Running two runs of instructions is running the second where the first
/// has left the machine.
pub proof fn lemma_run_concat(homes: Seq<HomeView>, a: Seq<InstrView>, b: Seq<InstrView>, m: MachineState)
    ensures
        run_all(homes, a + b, m) == match run_all(homes, a, m) {
            Some(mid) => run_all(homes, b, mid),
            None => None,
        },
    decreases b.len(),
{
    if b.len() == 0 {
        assert(a + b =~= a);
    } else {
        let front = b.drop_last();
        lemma_run_concat(homes, a, front, m);
        lemma_run_prefix(homes, a + b, a + front, (a + front).len(), m);
        assert((a + b)[(a + b).len() - 1] == b.last());
        match run_all(homes, a, m) {
            Some(mid) => {
                lemma_run_prefix(homes, b, front, front.len(), mid);
            },
            None => {},
        }
    }
}

/// Running one instruction alone is its step.
pub proof fn lemma_run_one(homes: Seq<HomeView>, i: InstrView, m: MachineState)
    ensures
        run_all(homes, seq![i], m) == step(homes, i, m),
{
    reveal_with_fuel(run, 2);
}

/// Where the machine runs every instruction of two runs, it runs every
/// instruction of each.
pub proof fn lemma_runnable_split(homes: Seq<HomeView>, a: Seq<InstrView>, b: Seq<InstrView>)
    requires
        runnable(homes, a + b),
    ensures
        runnable(homes, a),
        runnable(homes, b),
{
    assert forall|k: int| 0 <= k < a.len() implies encodable(homes, #[trigger] a[k]) by {
        assert((a + b)[k] == a[k]);
    }
    assert forall|k: int| 0 <= k < b.len() implies encodable(homes, #[trigger] b[k]) by {
        assert((a + b)[a.len() + k] == b[k]);
    }
}

/// Homes that make a frame: every one is a cell below where `rbp` points,
/// and no two names share a cell.
pub open spec fn stack_homes(homes: Seq<HomeView>) -> bool {
    forall|i: int, j: int|
        0 <= i < homes.len() && 0 <= j < homes.len() ==> (#[trigger] homes[i]).loc is Rbp && homes[i].loc->Rbp_0
            > 0 && (homes[i].loc == (#[trigger] homes[j]).loc ==> homes[i].name == homes[j].name)
}

/// The machine has a frame for the homes: it is known where `rsp` and
/// `rbp` point, every cell lies at the stack pointer or above, and nothing
/// is known of what lies below the stack pointer.
pub open spec fn framed(m: MachineState, homes: Seq<HomeView>) -> bool {
    &&& m.regs.contains_key(Reg::Rsp)
    &&& m.regs.contains_key(Reg::Rbp)
    &&& forall|i: int|
        0 <= i < homes.len() && (#[trigger] homes[i]).loc is Rbp ==> m.regs[Reg::Rbp] - homes[i].loc->Rbp_0
            >= m.regs[Reg::Rsp]
    &&& forall|a: int| #[trigger] m.mem.contains_key(a) ==> a >= m.regs[Reg::Rsp]
}

/// The lines of input that are left to a machine are those that the
/// calls of `read` through a cache stand for. A cache in write mode passes
/// the lines of its own input on: they are the machine's. A cache in read
/// mode holds results of `read` only; these are the integers that the
/// machine's next lines are, line by line, and behind those lines the
/// machine has the cache's own input.
pub open spec fn feeds(input: Seq<Seq<char>>, c: CacheView) -> bool {
    if c.write {
        input == c.input
    } else {
        &&& all_reads(c.log)
        &&& c.log.len() <= input.len()
        &&& forall|i: int| 0 <= i < c.log.len() ==> parse_i64_spec(#[trigger] input[i]) == Some(c.log[i].1)
        &&& input.skip(c.log.len() as int) == c.input
    }
}

/// The machine is where the interpreter is: the lines of input that are
/// left to the machine are those that the interpreter's reads stand for,
/// the machine has a frame for the homes, and every variable that has a
/// value has it in its cell.
pub open spec fn holds(m: MachineState, homes: Seq<HomeView>, s: IrState) -> bool {
    &&& feeds(m.input, s.cache)
    &&& framed(m, homes)
    &&& forall|name: Seq<char>|
        (#[trigger] var_lookup(s.vars, name)) is Some ==> in_cell(
            m,
            homes,
            name,
            var_lookup(s.vars, name)->0,
        )
}

/// Where a `read` through the cache has a value, the runtime's `read_int`
/// returns that value on the machine's lines, and what is left of the
/// lines is what the reads through the cache then stand for.
pub proof fn lemma_read_feeds(input: Seq<Seq<char>>, c: CacheView)
    requires
        feeds(input, c),
        read_step(c).0 is Ok,
    ensures
        runtime_read_spec(input) == Some((read_step(c).0->Ok_0, input.drop_first())),
        feeds(input.drop_first(), read_step(c).1),
        read_step(c).1.write == c.write,
{
    if !c.write {
        if c.log.len() > 0 {
            assert(c.log[0].0 == read_name());
            assert(find_cached(c.log, read_name(), 0) == Some(0int));
            let rest = c.log.remove(0);
            assert(parse_i64_spec(input[0]) == Some(c.log[0].1));
            assert forall|i: int| 0 <= i < rest.len() implies parse_i64_spec(
                #[trigger] input.drop_first()[i],
            ) == Some(rest[i].1) && rest[i].0 == read_name() by {
                assert(input.drop_first()[i] == input[i + 1]);
                assert(rest[i] == c.log[i + 1]);
            }
            assert(input.drop_first().skip(rest.len() as int) =~= input.skip(c.log.len() as int));
        } else {
            assert(find_cached(c.log, read_name(), 0) is None);
        }
    }
}

/// The variable's home is a cell, and the cell holds `v`.
pub open spec fn in_cell(m: MachineState, homes: Seq<HomeView>, name: Seq<char>, v: i64) -> bool {
    place_of(homes, ArgView::Var(name)) matches Some(p) && p is Cell && fetch(m, p) == Some(v)
}

/// The machine `end` is the machine `m` with `v` put in `p`, but for the
/// registers that were used on the way; `rsp` and `rbp` were not.
pub open spec fn lands(m: MachineState, end: MachineState, p: Place, v: i64) -> bool {
    &&& fetch(end, p) == Some(v)
    &&& end.mem == match p {
        Place::Cell(c) => m.mem.insert(m.regs[Reg::Rbp] - c, v),
        _ => m.mem,
    }
    &&& end.regs.contains_key(Reg::Rsp) && end.regs[Reg::Rsp] == m.regs[Reg::Rsp]
    &&& end.regs.contains_key(Reg::Rbp) && end.regs[Reg::Rbp] == m.regs[Reg::Rbp]
}

/// A home that is found is one of the homes.
pub proof fn lemma_home_found(homes: Seq<HomeView>, name: Seq<char>, from: int)
    requires
        0 <= from,
        home_of(homes, name, from) is Some,
    ensures
        exists|i: int|
            from <= i < homes.len() && (#[trigger] homes[i]).name == name && homes[i].loc == home_of(
                homes,
                name,
                from,
            )->0,
    decreases homes.len() - from,
{
    if from < homes.len() && homes[from].name != name {
        lemma_home_found(homes, name, from + 1);
    }
}

/// In a frame a variable that has a place has a cell, and another
/// variable has another.
pub proof fn lemma_frame_cells(homes: Seq<HomeView>, x: Seq<char>, y: Seq<char>)
    requires
        stack_homes(homes),
        place_of(homes, ArgView::Var(x)) is Some,
    ensures
        place_of(homes, ArgView::Var(x))->0 is Cell,
        x != y ==> place_of(homes, ArgView::Var(y)) != place_of(homes, ArgView::Var(x)),
{
    lemma_home_found(homes, x, 0);
    let i = choose|i: int|
        0 <= i < homes.len() && (#[trigger] homes[i]).name == x && homes[i].loc == home_of(homes, x, 0)->0;
    assert(homes[i].loc is Rbp);
    if x != y && place_of(homes, ArgView::Var(y)) == place_of(homes, ArgView::Var(x)) {
        lemma_home_found(homes, y, 0);
        let j = choose|j: int|
            0 <= j < homes.len() && (#[trigger] homes[j]).name == y && homes[j].loc == home_of(homes, y, 0)->0;
        assert(homes[j].loc is Rbp);
        assert(homes[i].loc == homes[j].loc);
    }
}

/// In a machine that has a frame for the homes, the cell of a variable
/// that has a place can be found.
pub proof fn lemma_cell_ready(homes: Seq<HomeView>, m: MachineState, x: Seq<char>)
    requires
        stack_homes(homes),
        framed(m, homes),
        place_of(homes, ArgView::Var(x)) is Some,
    ensures
        place_of(homes, ArgView::Var(x))->0 is Cell,
        ready(m, place_of(homes, ArgView::Var(x))->0),
{
    lemma_home_found(homes, x, 0);
    let i = choose|i: int|
        0 <= i < homes.len() && (#[trigger] homes[i]).name == x && homes[i].loc == home_of(homes, x, 0)->0;
    assert(homes[i].loc is Rbp && homes[i].loc->Rbp_0 > 0);
}

/// An atom that has a value has it where the machine finds its operand.
pub proof fn lemma_atom_fetch(homes: Seq<HomeView>, a: AtmView, s: IrState, m: MachineState)
    requires
        holds(m, homes, s),
        atm_spec(a, s).0 is Some,
    ensures
        atm_spec(a, s).1 == s,
        place_of(homes, arg_of(a)) matches Some(p) && (p is Imm || p is Cell) && fetch(m, p) == atm_spec(
            a,
            s,
        ).0,
{
    match a {
        AtmView::Int(_) => {},
        AtmView::Var { name } => {
            assert(var_lookup(s.vars, name) is Some);
            assert(in_cell(m, homes, name, var_lookup(s.vars, name)->0));
        },
    }
}

/// The patched move of an atom's value to a target leaves the value
/// there, and every other cell as it was.
pub proof fn lemma_move_runs(homes: Seq<HomeView>, target: ArgView, a: AtmView, s: IrState, m: MachineState)
    requires
        stack_homes(homes),
        holds(m, homes, s),
        atm_spec(a, s).0 is Some,
        target == rax() || target is Var,
        runnable(homes, patched_instr(InstrView::Mov64(target, arg_of(a)))),
    ensures
        place_of(homes, target) matches Some(p) && (p == Place::Register(Reg::Rax) || p is Cell),
        run_all(homes, patched_instr(InstrView::Mov64(target, arg_of(a))), m) matches Some(end) && lands(
            m,
            end,
            place_of(homes, target)->0,
            atm_spec(a, s).0->0,
        ) && end.input == m.input,
{
    let mov = InstrView::Mov64(target, arg_of(a));
    let code = patched_instr(mov);
    lemma_atom_fetch(homes, a, s, m);
    let from = place_of(homes, arg_of(a))->0;
    let v = atm_spec(a, s).0->0;
    match (target, arg_of(a)) {
        (ArgView::Var(x), ArgView::Var(y)) => {
            let first = InstrView::Mov64(ArgView::Reg(Reg::R15), ArgView::Var(y));
            let second = InstrView::Mov64(ArgView::Var(x), ArgView::Reg(Reg::R15));
            assert(code =~= seq![first] + seq![second]);
            assert(encodable(homes, code[0]));
            assert(encodable(homes, code[1]));
            lemma_frame_cells(homes, x, x);
            lemma_cell_ready(homes, m, x);
            lemma_run_concat(homes, seq![first], seq![second], m);
            lemma_run_one(homes, first, m);
            let mid = put(m, Place::Register(Reg::R15), v);
            assert(step(homes, first, m) == Some(mid));
            lemma_run_one(homes, second, mid);
        },
        _ => {
            assert(code =~= seq![mov]);
            assert(encodable(homes, code[0]));
            if target is Var {
                lemma_frame_cells(homes, target->Var_0, target->Var_0);
                lemma_cell_ready(homes, m, target->Var_0);
            }
            lemma_run_one(homes, mov, m);
        },
    }
}

/// The patched instructions of an expression leave its value in the
/// target and every other cell as it was, and they read what the
/// interpreter reads.
pub proof fn lemma_exp_runs(homes: Seq<HomeView>, target: ArgView, e: ExpView, s: IrState, m: MachineState)
    requires
        stack_homes(homes),
        holds(m, homes, s),
        exp_spec(e, s).0 is Some,
        target == rax() || target is Var,
        runnable(homes, patched(select_exp(target, e))),
    ensures
        place_of(homes, target) matches Some(p) && (p == Place::Register(Reg::Rax) || p is Cell),
        run_all(homes, patched(select_exp(target, e)), m) matches Some(end) && lands(
            m,
            end,
            place_of(homes, target)->0,
            exp_spec(e, s).0->0,
        ) && feeds(end.input, exp_spec(e, s).1.cache),
        exp_spec(e, s).1.vars == s.vars,
{
    lemma_ops_differ();
    let code = select_exp(target, e);
    match e {
        ExpView::Atm(a) => {
            let mov = InstrView::Mov64(target, arg_of(a));
            assert(code =~= seq![mov]);
            lemma_patched_one(mov);
            lemma_move_runs(homes, target, a, s, m);
        },
        ExpView::Prim { op, args } => {
            if op == op_read() && args.len() == 0 {
                let call = InstrView::Call(runtime_read(), 0);
                let n = exp_spec(e, s).0->0;
                lemma_read_feeds(m.input, s.cache);
                lemma_patched_one(call);
                lemma_run_one(homes, call, m);
                let mid = step(homes, call, m)->0;
                assert(fetch(mid, Place::Register(Reg::Rax)) == Some(n));
                assert(mid.mem =~= m.mem);
                if target == rax() {
                    assert(code =~= seq![call]);
                } else {
                    let mov = InstrView::Mov64(target, rax());
                    assert(code =~= seq![call] + seq![mov]);
                    lemma_patched_concat(seq![call], seq![mov]);
                    lemma_patched_one(mov);
                    lemma_runnable_split(homes, seq![call], seq![mov]);
                    assert(encodable(homes, seq![mov][0]));
                    lemma_frame_cells(homes, target->Var_0, target->Var_0);
                    lemma_cell_ready(homes, m, target->Var_0);
                    lemma_run_concat(homes, seq![call], seq![mov], m);
                    lemma_run_one(homes, mov, mid);
                }
            } else if op == op_neg() && args.len() == 1 {
                let mov = InstrView::Mov64(target, arg_of(args[0]));
                let neg = InstrView::Neg64(target);
                assert(code =~= seq![mov] + seq![neg]);
                lemma_patched_concat(seq![mov], seq![neg]);
                lemma_patched_one(mov);
                lemma_patched_one(neg);
                lemma_runnable_split(homes, patched_instr(mov), seq![neg]);
                lemma_move_runs(homes, target, args[0], s, m);
                if target is Var {
                    lemma_cell_ready(homes, m, target->Var_0);
                }
                lemma_run_concat(homes, patched_instr(mov), seq![neg], m);
                let mid = run_all(homes, patched_instr(mov), m)->0;
                assert(encodable(homes, seq![neg][0]));
                lemma_run_one(homes, neg, mid);
                let p = place_of(homes, target)->0;
                let end = step(homes, neg, mid)->0;
                assert(end.mem =~= match p {
                    Place::Cell(c) => m.mem.insert(m.regs[Reg::Rbp] - c, exp_spec(e, s).0->0),
                    _ => m.mem,
                });
            } else {
                assert(op == op_add() && args.len() == 2);
                lemma_atom_fetch(homes, args[0], s, m);
                lemma_atom_fetch(homes, args[1], s, m);
                let add = InstrView::Add64(target, arg_of(args[1]));
                if target is Var && place_of(homes, target) is Some {
                    lemma_cell_ready(homes, m, target->Var_0);
                }
                if arg_of(args[0]) == target {
                    assert(code =~= seq![add]);
                    lemma_patched_one(add);
                    assert(encodable(homes, seq![add][0]));
                    lemma_run_one(homes, add, m);
                } else {
                    let mov = InstrView::Mov64(target, arg_of(args[0]));
                    assert(code =~= seq![mov] + seq![add]);
                    lemma_patched_concat(seq![mov], seq![add]);
                    lemma_patched_one(mov);
                    lemma_patched_one(add);
                    lemma_runnable_split(homes, patched_instr(mov), seq![add]);
                    lemma_move_runs(homes, target, args[0], s, m);
                    lemma_run_concat(homes, patched_instr(mov), seq![add], m);
                    let mid = run_all(homes, patched_instr(mov), m)->0;
                    assert(encodable(homes, seq![add][0]));
                    lemma_run_one(homes, add, mid);
                    let p = place_of(homes, target)->0;
                    let end = step(homes, add, mid)->0;
                    assert(end.mem =~= match p {
                        Place::Cell(c) => m.mem.insert(m.regs[Reg::Rbp] - c, exp_spec(e, s).0->0),
                        _ => m.mem,
                    });
                }
            }
        },
    }
}

/// The frame of `m` is the frame of `end`: `rsp` and `rbp` point where
/// they pointed, and what lay where `rbp` points and above lies there
/// still.
pub open spec fn kept(m: MachineState, end: MachineState) -> bool {
    &&& end.regs.contains_key(Reg::Rsp) && end.regs[Reg::Rsp] == m.regs[Reg::Rsp]
    &&& end.regs.contains_key(Reg::Rbp) && end.regs[Reg::Rbp] == m.regs[Reg::Rbp]
    &&& forall|a: int|
        a >= m.regs[Reg::Rbp] ==> (#[trigger] end.mem.contains_key(a)) == m.mem.contains_key(a) && end.mem[a]
            == m.mem[a]
}

/// After an assignment the machine is where the interpreter is.
pub proof fn lemma_assign_holds(
    homes: Seq<HomeView>,
    s: IrState,
    after: IrState,
    m: MachineState,
    end: MachineState,
    x: Seq<char>,
    v: i64,
)
    requires
        stack_homes(homes),
        holds(m, homes, s),
        place_of(homes, ArgView::Var(x)) is Some,
        lands(m, end, place_of(homes, ArgView::Var(x))->0, v),
        after.vars == s.vars.push((x, v)),
        feeds(end.input, after.cache),
    ensures
        holds(end, homes, after),
{
    lemma_frame_cells(homes, x, x);
    lemma_home_found(homes, x, 0);
    assert(after.vars.drop_last() =~= s.vars);
    assert forall|name: Seq<char>| (#[trigger] var_lookup(after.vars, name)) is Some implies in_cell(
        end,
        homes,
        name,
        var_lookup(after.vars, name)->0,
    ) by {
        if name != x {
            assert(var_lookup(after.vars, name) == var_lookup(s.vars, name));
            assert(in_cell(m, homes, name, var_lookup(s.vars, name)->0));
            lemma_frame_cells(homes, x, name);
        }
    }
}

/// The patched instructions of a block leave in `rax` the value of the
/// block, and the machine where the interpreter is: wherever the
/// interpreter gives the block a value and the machine runs every one of
/// the instructions.
pub proof fn lemma_block_runs(homes: Seq<HomeView>, t: TailView, s: IrState, m: MachineState)
    requires
        stack_homes(homes),
        holds(m, homes, s),
        tail_spec(t, s).0 is Some,
        runnable(homes, patched(select_tail(t))),
    ensures
        run_all(homes, patched(select_tail(t)), m) matches Some(end) && fetch(end, Place::Register(Reg::Rax))
            == tail_spec(t, s).0 && holds(end, homes, tail_spec(t, s).1) && kept(m, end),
    decreases t,
{
    match t {
        TailView::Return(e) => {
            lemma_exp_runs(homes, rax(), e, s, m);
        },
        TailView::Sequence(StmtView::Assign(lhs, rhs), rest) => {
            let st = StmtView::Assign(lhs, rhs);
            let x = lhs->name;
            let first = select_stmt(st);
            lemma_patched_concat(first, select_tail(*rest));
            lemma_runnable_split(homes, patched(first), patched(select_tail(*rest)));
            lemma_exp_runs(homes, ArgView::Var(x), rhs, s, m);
            let mid = run_all(homes, patched(first), m)->0;
            let after = stmt_spec(st, s).1;
            lemma_assign_holds(homes, s, after, m, mid, x, exp_spec(rhs, s).0->0);
            lemma_block_runs(homes, *rest, after, mid);
            lemma_run_concat(homes, patched(first), patched(select_tail(*rest)), m);
            lemma_home_found(homes, x, 0);
            assert(kept(m, mid));
        },
    }
}

/// The homes that are assigned make a frame.
pub proof fn lemma_assigned_frame(vars: Seq<HomeView>)
    requires
        8 * vars.len() <= i64::MAX,
    ensures
        stack_homes(assigned_homes(vars, 0)),
{
    lemma_natural_sort(home_names(vars));
}

/// A program of one function, the entry, with one block under the first
/// label.
pub open spec fn single_block(p: Seq<(Seq<char>, IRFunctionView)>) -> bool {
    &&& p.len() == 1
    &&& p[0].0 == entry_name()
    &&& p[0].1.labels.len() == 1
    &&& p[0].1.labels[0].0 == first_label()
}

/// The block of a program of one block.
pub open spec fn block_of(p: Seq<(Seq<char>, IRFunctionView)>) -> TailView {
    p[0].1.labels[0].1
}

/// The homes of the variables of a program of one block, as the back end
/// assigns them.
pub open spec fn compiled_homes(p: Seq<(Seq<char>, IRFunctionView)>) -> Seq<HomeView> {
    ir_to_x64_spec(p).functions[0].1.vars
}

/// The instructions that the back end gives the one block of a program,
/// without the jump to the conclusion that ends them.
pub open spec fn compiled_body(p: Seq<(Seq<char>, IRFunctionView)>) -> Seq<InstrView> {
    ir_to_x64_spec(p).functions[0].1.blocks[1].instr.drop_last()
}

/// What the explication of a tree gives is a program of one block.
pub proof fn lemma_explicated_single(e: Expr)
    ensures
        single_block(explicate_control_spec(e)),
{
}

/// Between prelude and conclusion the back end puts the patched
/// instructions of the block, and the jump to the conclusion behind them.
pub proof fn lemma_compiled_body(p: Seq<(Seq<char>, IRFunctionView)>)
    requires
        single_block(p),
    ensures
        ir_to_x64_spec(p).functions[0].1.blocks.len() == 3,
        ir_to_x64_spec(p).functions[0].1.blocks[1].instr == patched(select_tail(block_of(p))).push(
            InstrView::Jmp(conclusion_label()),
        ),
        compiled_body(p) == patched(select_tail(block_of(p))),
        compiled_homes(p) == assigned_homes(selected_vars(p[0].1, 1), 0),
{
    let f = p[0].1;
    let t = block_of(p);
    let names = label_names(f);
    assert(names =~= seq![first_label()]);
    assert(names.drop_last() =~= Seq::empty());
    reveal_with_fuel(natural_sort_spec, 2);
    reveal_with_fuel(insert_sorted, 2);
    assert(sorted_labels(f) =~= seq![first_label()]);
    reveal_with_fuel(find_name, 2);
    assert(tail_under(f, sorted_labels(f)[0]) == t);
    let selected = selected_blocks(f, 1);
    assert(selected[0].instr == select_tail(t));
    let framed = with_frame(selected);
    assert(framed.len() == 3);
    let jump = InstrView::Jmp(conclusion_label());
    assert(framed[1].instr == select_tail(t).push(jump));
    lemma_patched_push(select_tail(t), jump);
    assert(patched(select_tail(t)) + seq![jump] =~= patched(select_tail(t)).push(jump));
    assert(patch_blocks(framed)[1].instr == patched(select_tail(t)).push(jump));
    assert(patched(select_tail(t)).push(jump).drop_last() =~= patched(select_tail(t)));
}

/// What the back end makes of a program of one block computes what the
/// interpreter of the intermediate form computes: wherever that
/// interpreter gives the program a value on the lines of input, and the
/// machine runs every instruction between prelude and conclusion, these
/// instructions leave that value in `rax`, and of the lines of input what
/// the interpreter leaves.
pub proof fn lemma_compiled_computes(p: Seq<(Seq<char>, IRFunctionView)>, s: IrState, m: MachineState)
    requires
        single_block(p),
        8 * selected_vars(p[0].1, 1).len() <= i64::MAX,
        holds(m, compiled_homes(p), s),
        ir_run_spec(p, s).0 is Some,
        runnable(compiled_homes(p), compiled_body(p)),
    ensures
        run_all(compiled_homes(p), compiled_body(p), m) matches Some(end) && fetch(
            end,
            Place::Register(Reg::Rax),
        ) == ir_run_spec(p, s).0 && feeds(end.input, ir_run_spec(p, s).1.cache) && kept(m, end),
{
    lemma_compiled_body(p);
    lemma_assigned_frame(selected_vars(p[0].1, 1));
    assert(function_names(p) =~= seq![entry_name()]);
    assert(label_names(p[0].1) =~= seq![first_label()]);
    reveal_with_fuel(find_name, 2);
    assert(ir_run_spec(p, s) == tail_spec(block_of(p), s));
    lemma_block_runs(compiled_homes(p), block_of(p), s, m);
}

/// What a cache in write mode has taken down of a machine's lines `all`:
/// its results are those of `read` alone, they are the integers that the
/// first of the lines are, and the lines behind those are left as input.
pub open spec fn recorded(all: Seq<Seq<char>>, c: CacheView) -> bool {
    c.write && feeds(all, CacheView { write: false, log: c.log, input: c.input })
}

/// A run of the tree interpreter that has a value takes down, read by
/// read, the integers that the next lines are.
pub proof fn lemma_run_records(e: Expr, s: AstState, all: Seq<Seq<char>>)
    requires
        all_ints(s.env),
        recorded(all, s.cache),
    ensures
        interp_spec(e, s).0 is Some ==> recorded(all, interp_spec(e, s).1.cache),
    decreases e, 0int,
{
    match e {
        Expr::Prim { op, args } => {
            if op == op_add() && args.len() == 2 {
                lemma_run_records(args[0], s, all);
                lemma_write_run(args[0], s);
                let left = interp_spec(args[0], s);
                if left.0 is Some {
                    lemma_run_records(args[1], left.1, all);
                }
            } else if op == op_neg() && args.len() == 1 {
                lemma_run_records(args[0], s, all);
            } else if op == op_read() && args.len() == 0 {
                let step = read_step(s.cache);
                if step.0 is Ok {
                    let k = s.cache.log.len() as int;
                    assert(all.skip(k)[0] == all[k]);
                    assert(all.skip(k + 1) =~= s.cache.input.drop_first());
                }
            }
        },
        Expr::Let { bindings, body } => {
            lemma_bindings_record(bindings, bindings.len(), s, all);
            lemma_write_bindings(bindings, bindings.len(), s);
            let bound = interp_bindings(bindings, bindings.len(), s);
            if bound.0 {
                lemma_run_records(*body, bound.1, all);
            }
        },
        _ => {},
    }
}

/// Bindings that could all be made take down, read by read, the integers
/// that the next lines are.
pub proof fn lemma_bindings_record(bs: Seq<(Seq<char>, Expr)>, n: nat, s: AstState, all: Seq<Seq<char>>)
    requires
        all_ints(s.env),
        recorded(all, s.cache),
        n <= bs.len(),
    ensures
        interp_bindings(bs, n, s).0 ==> recorded(all, interp_bindings(bs, n, s).1.cache),
    decreases bs, n,
{
    if n > 0 {
        lemma_bindings_record(bs, (n - 1) as nat, s, all);
        lemma_write_bindings(bs, (n - 1) as nat, s);
        let before = interp_bindings(bs, (n - 1) as nat, s);
        if before.0 {
            lemma_run_records(bs[n - 1].1, before.1, all);
        }
    }
}

/// What the back end makes of a program in A-normal form computes what
/// the tree interpreter computes. Where the tree interpreter gives the
/// program a value on the lines of input, and the machine runs every
/// instruction that stands between prelude and conclusion, these
/// instructions, run on a machine that has the same lines before it,
/// leave that value in `rax`, and of the lines those that the interpreter
/// leaves.
pub proof fn lemma_compiled_agrees(e: Expr, input: Seq<Seq<char>>, m: MachineState)
    requires
        anf(e),
        ast_run_spec(e, CacheView { write: true, log: Seq::empty(), input }, Seq::empty()).0 is Some,
        m.input == input,
        framed(m, compiled_homes(explicate_control_spec(e))),
        8 * selected_vars(explicate_control_spec(e)[0].1, 1).len() <= i64::MAX,
        runnable(
            compiled_homes(explicate_control_spec(e)),
            compiled_body(explicate_control_spec(e)),
        ),
    ensures
        ({
            let first = ast_run_spec(
                e,
                CacheView { write: true, log: Seq::empty(), input },
                Seq::empty(),
            );
            let program = explicate_control_spec(e);
            run_all(compiled_homes(program), compiled_body(program), m) matches Some(end) && fetch(
                end,
                Place::Register(Reg::Rax),
            ) == first.0 && end.input == first.1.cache.input
        }),
{
    let start = AstState {
        env: Seq::empty(),
        cache: CacheView { write: true, log: Seq::empty(), input },
        errors: Seq::empty(),
    };
    let first = interp_spec(e, start);
    let program = explicate_control_spec(e);
    lemma_explicated_single(e);
    assert(input.skip(0) =~= input);
    lemma_run_records(e, start, input);
    lemma_interpreters_agree(e, input);
    let again = IrState {
        vars: Seq::empty(),
        cache: CacheView { write: false, ..first.1.cache },
        errors: Seq::empty(),
    };
    assert(holds(m, compiled_homes(program), again));
    lemma_compiled_computes(program, again, m);
    let end = run_all(compiled_homes(program), compiled_body(program), m)->0;
    assert(end.input.skip(0) =~= end.input);
}

/// A tidy tree is well formed.
pub proof fn lemma_tidy_well_formed(e: Expr)
    requires
        tidy(e),
    ensures
        well_formed(e),
    decreases e,
{
    match e {
        Expr::Prim { op, args } => {
            assert forall|i: int| 0 <= i < args.len() implies well_formed(#[trigger] args[i]) by {
                lemma_tidy_well_formed(args[i]);
            }
        },
        Expr::Let { bindings, body } => {
            lemma_tidy_well_formed(*body);
            assert forall|i: int| 0 <= i < bindings.len() implies well_formed(
                (#[trigger] bindings[i]).1,
            ) by {
                lemma_tidy_well_formed(bindings[i].1);
            }
        },
        _ => {},
    }
}

/// From the tree to the machine. A tidy tree is brought into its normal
/// form, then into the intermediate form, then into instructions. Where
/// the tree interpreter gives the tree a value on the lines of input, and
/// the machine runs every instruction that stands between prelude and
/// conclusion, these instructions, run on a machine that has the same
/// lines before it, leave that value in `rax`, and of the lines those that
/// the interpreter leaves.
pub proof fn lemma_compiled_keeps(e: Expr, input: Seq<Seq<char>>, m: MachineState)
    requires
        tidy(e),
        ast_run_spec(e, CacheView { write: true, log: Seq::empty(), input }, Seq::empty()).0 is Some,
        m.input == input,
        framed(m, compiled_homes(explicate_control_spec(rco_expr_spec(e, 0).0))),
        8 * selected_vars(explicate_control_spec(rco_expr_spec(e, 0).0)[0].1, 1).len() <= i64::MAX,
        runnable(
            compiled_homes(explicate_control_spec(rco_expr_spec(e, 0).0)),
            compiled_body(explicate_control_spec(rco_expr_spec(e, 0).0)),
        ),
    ensures
        ({
            let first = ast_run_spec(
                e,
                CacheView { write: true, log: Seq::empty(), input },
                Seq::empty(),
            );
            let program = explicate_control_spec(rco_expr_spec(e, 0).0);
            run_all(compiled_homes(program), compiled_body(program), m) matches Some(end) && fetch(
                end,
                Place::Register(Reg::Rax),
            ) == first.0 && end.input == first.1.cache.input
        }),
{
    let start = AstState {
        env: Seq::empty(),
        cache: CacheView { write: true, log: Seq::empty(), input },
        errors: Seq::empty(),
    };
    lemma_tidy_well_formed(e);
    lemma_rco_anf(e, 0);
    lemma_decomplify_keeps(e, start);
    lemma_compiled_agrees(rco_expr_spec(e, 0).0, input, m);
}

/// A run through a straight line of instructions that the machine runs
/// goes on behind them, with the machine as they leave it.
pub proof fn lemma_blocks_straight(
    homes: Seq<HomeView>,
    blocks: Seq<BlockView>,
    b: int,
    k: int,
    line: Seq<InstrView>,
    fuel: nat,
    m: MachineState,
)
    requires
        0 <= b < blocks.len(),
        0 <= k,
        k + line.len() <= blocks[b].instr.len(),
        forall|j: int| 0 <= j < line.len() ==> blocks[b].instr[k + j] == #[trigger] line[j],
        runnable(homes, line),
        run_all(homes, line, m) is Some,
    ensures
        run_blocks(homes, blocks, b, k, fuel + line.len(), m) == run_blocks(
            homes,
            blocks,
            b,
            k + line.len(),
            fuel,
            run_all(homes, line, m)->0,
        ),
    decreases line.len(),
{
    if line.len() > 0 {
        let first = line[0];
        let rest = line.drop_first();
        assert(line =~= seq![first] + rest);
        lemma_run_concat(homes, seq![first], rest, m);
        lemma_run_one(homes, first, m);
        lemma_runnable_split(homes, seq![first], rest);
        assert(encodable(homes, first));
        assert(blocks[b].instr[k + 0] == first);
        let mid = step(homes, first, m)->0;
        assert forall|j: int| 0 <= j < rest.len() implies blocks[b].instr[k + 1 + j] == #[trigger] rest[j] by {
            assert(rest[j] == line[j + 1]);
        }
        lemma_blocks_straight(homes, blocks, b, k + 1, rest, fuel, mid);
        assert(run_blocks(homes, blocks, b, k, fuel + line.len(), m) == run_blocks(
            homes,
            blocks,
            b,
            k + 1,
            (fuel + line.len() - 1) as nat,
            mid,
        ));
    } else {
        reveal_with_fuel(run, 1);
    }
}

/// No move of the program goes through the patch register.
pub open spec fn patch_free(p: Seq<(Seq<char>, IRFunctionView)>) -> bool {
    !any_needs_patch(with_frame(selected_blocks(p[0].1, 1)))
}

/// The prelude of a function with `n` variables.
pub open spec fn opening(n: nat) -> Seq<InstrView> {
    let push = InstrView::Push(ArgView::Reg(Reg::Rbp));
    let mov = InstrView::Mov64(ArgView::Reg(Reg::Rbp), ArgView::Reg(Reg::Rsp));
    let jump = InstrView::Jmp(first_label());
    if n > 0 {
        seq![push, mov, InstrView::Sub64(ArgView::Reg(Reg::Rsp), ArgView::Imm((8 * n) as i64)), jump]
    } else {
        seq![push, mov, jump]
    }
}

/// The conclusion of a function with `n` variables.
pub open spec fn closing(n: nat) -> Seq<InstrView> {
    let mov = InstrView::Mov64(ArgView::Reg(Reg::Rsp), ArgView::Reg(Reg::Rbp));
    let pop = InstrView::Pop(ArgView::Reg(Reg::Rbp));
    if n > 0 {
        seq![InstrView::Add64(ArgView::Reg(Reg::Rsp), ArgView::Imm((8 * n) as i64)), mov, pop, InstrView::Ret]
    } else {
        seq![mov, pop, InstrView::Ret]
    }
}

/// The three blocks of a program of one block in which no move goes
/// through the patch register: the prelude, the block, the conclusion.
pub proof fn lemma_compiled_frame(p: Seq<(Seq<char>, IRFunctionView)>)
    requires
        single_block(p),
        patch_free(p),
    ensures
        ({
            let blocks = ir_to_x64_spec(p).functions[0].1.blocks;
            let n = selected_vars(p[0].1, 1).len();
            &&& blocks.len() == 3
            &&& blocks[0].label == prelude_label()
            &&& blocks[1].label == first_label()
            &&& blocks[2].label == conclusion_label()
            &&& blocks[0].instr == opening(n)
            &&& blocks[2].instr == closing(n)
        }),
{
    lemma_compiled_body(p);
    let f = p[0].1;
    let n = selected_vars(f, 1).len();
    let names = label_names(f);
    assert(names =~= seq![first_label()]);
    assert(names.drop_last() =~= Seq::empty());
    reveal_with_fuel(natural_sort_spec, 2);
    reveal_with_fuel(insert_sorted, 2);
    assert(sorted_labels(f) =~= seq![first_label()]);
    let selected = selected_blocks(f, 1);
    let framed = with_frame(selected);
    assert(framed.len() == 3);
    assert(framed[0] == prelude_block());
    assert(framed[2] == conclusion_block());
    assert(framed[1].label == first_label());
    assert(!needs_patch(framed[0].instr));
    assert(!needs_patch(framed[2].instr));
    lemma_patch_same(framed[0].instr, framed[0].instr.len());
    lemma_patch_same(framed[2].instr, framed[2].instr.len());
    assert(framed[0].instr.take(3) =~= framed[0].instr);
    assert(framed[2].instr.take(2) =~= framed[2].instr);
    let patched_blocks = patch_blocks(framed);
    assert(patched_blocks[0].instr == prelude_block().instr);
    assert(patched_blocks[2].instr == conclusion_block().instr);
    let blocks = ir_to_x64_spec(p).functions[0].1.blocks;
    assert(blocks[0].instr =~= opening(n));
    assert(blocks[2].instr =~= closing(n));
}

/// A machine at the entry of a function with `n` variables: it is known
/// where `rsp` and `rbp` point; the word that `rsp` points to, the address
/// to return to, is known, and nothing of what lies below it; the stack
/// has room for the frame below, and a word above.
pub open spec fn at_entry(m: MachineState, n: nat) -> bool {
    &&& m.regs.contains_key(Reg::Rsp)
    &&& m.regs.contains_key(Reg::Rbp)
    &&& m.mem.contains_key(m.regs[Reg::Rsp] as int)
    &&& forall|a: int| #[trigger] m.mem.contains_key(a) ==> a >= m.regs[Reg::Rsp]
    &&& m.regs[Reg::Rsp] - 8 * (n + 1) >= i64::MIN
    &&& m.regs[Reg::Rsp] + 8 <= i64::MAX
}

/// The blocks that the back end makes of a program of one block.
pub open spec fn compiled_blocks(p: Seq<(Seq<char>, IRFunctionView)>) -> Seq<BlockView> {
    ir_to_x64_spec(p).functions[0].1.blocks
}

/// Steps that suffice to run what the back end makes of a program of one
/// block: one for each instruction of the block, and ten for the frame.
pub open spec fn steps_of(p: Seq<(Seq<char>, IRFunctionView)>) -> nat {
    compiled_body(p).len() + 10
}

/// The three labels of a framed program of one block differ.
pub proof fn lemma_labels_differ()
    ensures
        prelude_label() != first_label(),
        prelude_label() != conclusion_label(),
        first_label() != conclusion_label(),
{
    reveal_strlit("prelude");
    reveal_strlit(".l1");
    reveal_strlit("conclusion");
    assert(prelude_label().len() == 7);
    assert(first_label().len() == 3);
    assert(conclusion_label().len() == 10);
}

/// What the back end makes of a program of one block, run from its entry
/// to its return, computes what the interpreter of the intermediate form
/// computes. Where no move goes through the patch register, the
/// interpreter gives the program a value, and the machine runs every
/// instruction between prelude and conclusion, the function returns with
/// that value in `rax`: it has taken the address to return to off the
/// stack, `rbp` points where it pointed at the entry, and the lines of
/// input that are left are those that the interpreter leaves.
#[verifier::rlimit(40)]
pub proof fn lemma_function_computes(p: Seq<(Seq<char>, IRFunctionView)>, s: IrState, m: MachineState)
    requires
        single_block(p),
        patch_free(p),
        8 * selected_vars(p[0].1, 1).len() < 0x8000_0000,
        at_entry(m, selected_vars(p[0].1, 1).len()),
        s.vars.len() == 0,
        feeds(m.input, s.cache),
        ir_run_spec(p, s).0 is Some,
        runnable(compiled_homes(p), compiled_body(p)),
    ensures
        run_blocks(compiled_homes(p), compiled_blocks(p), 0, 0, steps_of(p), m) matches Some(end) && fetch(
            end,
            Place::Register(Reg::Rax),
        ) == ir_run_spec(p, s).0 && fetch(end, Place::Register(Reg::Rsp)) == Some((m.regs[Reg::Rsp] + 8) as i64)
            && fetch(end, Place::Register(Reg::Rbp)) == Some(m.regs[Reg::Rbp]) && feeds(
            end.input,
            ir_run_spec(p, s).1.cache,
        ),
{
    lemma_compiled_frame(p);
    lemma_compiled_body(p);
    lemma_labels_differ();
    let homes = compiled_homes(p);
    let blocks = compiled_blocks(p);
    let body = compiled_body(p);
    let vars = selected_vars(p[0].1, 1);
    let n = vars.len();
    let fuel = steps_of(p);
    let sp = m.regs[Reg::Rsp] as int;
    let bp = m.regs[Reg::Rbp];
    let v = ir_run_spec(p, s).0;
    lemma_natural_sort(home_names(vars));
    reveal_with_fuel(block_at, 4);
    assert(block_at(blocks, first_label(), 0) == Some(1int));
    assert(block_at(blocks, conclusion_label(), 0) == Some(2int));

    // the prelude
    let m1 = push_step(homes, ArgView::Reg(Reg::Rbp), m)->0;
    assert(run_blocks(homes, blocks, 0, 0, fuel, m) == run_blocks(homes, blocks, 0, 1, (fuel - 1) as nat, m1));
    let mov = InstrView::Mov64(ArgView::Reg(Reg::Rbp), ArgView::Reg(Reg::Rsp));
    assert(blocks[0].instr[1] == mov);
    let m2 = step(homes, mov, m1)->0;
    assert(run_blocks(homes, blocks, 0, 1, (fuel - 1) as nat, m1) == run_blocks(homes, blocks, 0, 2, (fuel - 2) as nat, m2));
    let room = InstrView::Sub64(ArgView::Reg(Reg::Rsp), ArgView::Imm((8 * n) as i64));
    let m3 = if n > 0 {
        step(homes, room, m2)->0
    } else {
        m2
    };
    let k3: int = if n > 0 {
        3
    } else {
        2
    };
    let f3 = (fuel - k3) as nat;
    if n > 0 {
        assert(blocks[0].instr[2] == room);
        assert(m3.mem =~= m2.mem);
        assert(run_blocks(homes, blocks, 0, 2, (fuel - 2) as nat, m2) == run_blocks(homes, blocks, 0, 3, f3, m3));
    }
    assert(blocks[0].instr[k3] == InstrView::Jmp(first_label()));
    assert(run_blocks(homes, blocks, 0, k3, f3, m3) == run_blocks(homes, blocks, 1, 0, (f3 - 1) as nat, m3));
    assert(m3.regs[Reg::Rbp] == sp - 8);
    assert(m3.regs[Reg::Rsp] == sp - 8 - 8 * n);
    assert(m3.mem =~= m.mem.insert(sp - 8, bp));

    // the block
    assert(framed(m3, homes));
    assert(holds(m3, homes, s));
    lemma_compiled_computes(p, s, m3);
    let m4 = run_all(homes, body, m3)->0;
    let f4 = (f3 - 1 - body.len()) as nat;
    lemma_blocks_straight(homes, blocks, 1, 0, body, f4, m3);
    assert(run_blocks(homes, blocks, 1, 0, (f3 - 1) as nat, m3) == run_blocks(homes, blocks, 1, body.len() as int, f4, m4));
    assert(blocks[1].instr[body.len() as int] == InstrView::Jmp(conclusion_label()));
    assert(run_blocks(homes, blocks, 1, body.len() as int, f4, m4) == run_blocks(homes, blocks, 2, 0, (f4 - 1) as nat, m4));

    // the conclusion
    let f5 = (f4 - 1) as nat;
    let back = InstrView::Add64(ArgView::Reg(Reg::Rsp), ArgView::Imm((8 * n) as i64));
    let m5 = if n > 0 {
        step(homes, back, m4)->0
    } else {
        m4
    };
    let k5: int = if n > 0 {
        1
    } else {
        0
    };
    let f6 = (f5 - k5) as nat;
    if n > 0 {
        assert(blocks[2].instr[0] == back);
        assert(run_blocks(homes, blocks, 2, 0, f5, m4) == run_blocks(homes, blocks, 2, 1, f6, m5));
    }
    assert(m5.regs[Reg::Rsp] == sp - 8);
    assert(m5.regs[Reg::Rbp] == sp - 8);
    assert(m5.mem.contains_key(sp - 8) && m5.mem[sp - 8] == bp);
    assert(m5.mem.contains_key(sp));
    let level = InstrView::Mov64(ArgView::Reg(Reg::Rsp), ArgView::Reg(Reg::Rbp));
    assert(blocks[2].instr[k5] == level);
    let m6 = step(homes, level, m5)->0;
    assert(run_blocks(homes, blocks, 2, k5, f6, m5) == run_blocks(homes, blocks, 2, k5 + 1, (f6 - 1) as nat, m6));
    assert(blocks[2].instr[k5 + 1] == InstrView::Pop(ArgView::Reg(Reg::Rbp)));
    let m7 = pop_step(homes, ArgView::Reg(Reg::Rbp), m6)->0;
    assert(run_blocks(homes, blocks, 2, k5 + 1, (f6 - 1) as nat, m6) == run_blocks(
        homes,
        blocks,
        2,
        k5 + 2,
        (f6 - 2) as nat,
        m7,
    ));
    assert(blocks[2].instr[k5 + 2] == InstrView::Ret);
    assert(m7.regs[Reg::Rsp] == sp);
    assert(m7.mem.contains_key(sp));
    let last = popped(m7)->0;
    let end = last.1;
    assert(run_blocks(homes, blocks, 2, k5 + 2, (f6 - 2) as nat, m7) == Some(end));
}

/// What the back end makes of a program in A-normal form, run from its
/// entry to its return, computes what the tree interpreter computes.
/// Where the tree interpreter gives the program a value on the lines of
/// input, no move goes through the patch register, and the machine runs
/// every instruction between prelude and conclusion, the function, entered
/// on a machine that has the same lines before it, returns with that value
/// in `rax`, and leaves of the lines those that the interpreter leaves.
pub proof fn lemma_function_agrees(e: Expr, input: Seq<Seq<char>>, m: MachineState)
    requires
        anf(e),
        ast_run_spec(e, CacheView { write: true, log: Seq::empty(), input }, Seq::empty()).0 is Some,
        m.input == input,
        patch_free(explicate_control_spec(e)),
        8 * selected_vars(explicate_control_spec(e)[0].1, 1).len() < 0x8000_0000,
        at_entry(m, selected_vars(explicate_control_spec(e)[0].1, 1).len()),
        runnable(
            compiled_homes(explicate_control_spec(e)),
            compiled_body(explicate_control_spec(e)),
        ),
    ensures
        ({
            let first = ast_run_spec(
                e,
                CacheView { write: true, log: Seq::empty(), input },
                Seq::empty(),
            );
            let program = explicate_control_spec(e);
            run_blocks(compiled_homes(program), compiled_blocks(program), 0, 0, steps_of(program), m) matches Some(
                end,
            ) && fetch(end, Place::Register(Reg::Rax)) == first.0 && end.input == first.1.cache.input
        }),
{
    let start = AstState {
        env: Seq::empty(),
        cache: CacheView { write: true, log: Seq::empty(), input },
        errors: Seq::empty(),
    };
    let first = interp_spec(e, start);
    let program = explicate_control_spec(e);
    assert(input.skip(0) =~= input);
    lemma_run_records(e, start, input);
    lemma_interpreters_agree(e, input);
    let again = IrState {
        vars: Seq::empty(),
        cache: CacheView { write: false, ..first.1.cache },
        errors: Seq::empty(),
    };
    lemma_function_computes(program, again, m);
    let end = run_blocks(compiled_homes(program), compiled_blocks(program), 0, 0, steps_of(program), m)->0;
    assert(end.input.skip(0) =~= end.input);
}

} // verus!
