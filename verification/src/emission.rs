//! What the back end emits hangs together: the intermediate form of a
//! program in A-normal form can be transformed, and every instruction of a
//! transformed function has a text.

use crate::ast::anf;
use crate::ast::Expr;
use crate::explicate::assign_bindings;
use crate::explicate::AtmView;
use crate::explicate::explicate_assign_spec;
use crate::explicate::explicate_control_spec;
use crate::explicate::explicate_tail_spec;
use crate::explicate::ExpView;
use crate::explicate::IRFunctionView;
use crate::explicate::StmtView;
use crate::explicate::TailView;
use crate::natural::lemma_natural_sort;
use crate::natural::natural_sort_spec;
use crate::x64_backend::any_needs_patch;
use crate::x64_backend::arg_of;
use crate::x64_backend::assigned_homes;
use crate::x64_backend::conclusion_block;
use crate::x64_backend::exp_ok;
use crate::x64_backend::finish_conclusion;
use crate::x64_backend::finish_prelude;
use crate::x64_backend::function_ok;
use crate::x64_backend::has_home;
use crate::x64_backend::home_names;
use crate::x64_backend::lemma_patch_length;
use crate::x64_backend::note_atom;
use crate::x64_backend::note_atoms;
use crate::x64_backend::note_exp;
use crate::x64_backend::note_tail;
use crate::x64_backend::patch_blocks;
use crate::x64_backend::patch_spec;
use crate::x64_backend::prelude_block;
use crate::x64_backend::rax;
use crate::x64_backend::select_exp;
use crate::x64_backend::select_stmt;
use crate::x64_backend::select_tail;
use crate::x64_backend::selected_blocks;
use crate::x64_backend::selected_vars;
use crate::x64_backend::sorted_labels;
use crate::x64_backend::tail_ok;
use crate::x64_backend::tail_under;
use crate::x64_backend::transform_spec;
use crate::x64_backend::with_frame;
use crate::x64_def::ArgView;
use crate::x64_def::HomeView;
use crate::x64_def::InstrView;
use crate::x64_def::VarLoc;
use crate::x64_print::arg_printable;
use crate::x64_print::function_printable;
use crate::x64_print::home_of;
use crate::x64_print::instr_printable;
use vstd::prelude::*;

verus! {

/// Assigning what is in A-normal form gives a block that instructions can
/// be selected for, where they can be for what follows.
pub proof fn lemma_assign_ok(e: Expr, x: Seq<char>, cont: TailView)
    requires
        anf(e),
        tail_ok(cont),
    ensures
        tail_ok(explicate_assign_spec(e, x, cont)),
    decreases e, 1int,
{
    match e {
        Expr::Let { bindings, body } => {
            lemma_assign_ok(*body, x, cont);
            lemma_bindings_ok(bindings, bindings.len(), explicate_assign_spec(*body, x, cont), e);
        },
        _ => {},
    }
}

proof fn lemma_bindings_ok(bs: Seq<(Seq<char>, Expr)>, n: nat, cont: TailView, whole: Expr)
    requires
        n <= bs.len(),
        whole is Let,
        whole->Let_bindings == bs,
        anf(whole),
        tail_ok(cont),
    ensures
        tail_ok(assign_bindings(bs, n, cont)),
    decreases whole, 0int, n,
{
    if n > 0 {
        assert(anf((whole->Let_bindings[n - 1]).1));
        assert(decreases_to!(whole => bs));
        assert(decreases_to!(bs => bs[n - 1]));
        assert(decreases_to!(bs[n - 1] => bs[n - 1].1));
        lemma_assign_ok(bs[n - 1].1, bs[n - 1].0, cont);
        lemma_bindings_ok(
            bs,
            (n - 1) as nat,
            explicate_assign_spec(bs[n - 1].1, bs[n - 1].0, cont),
            whole,
        );
    }
}

/// Instructions can be selected for the intermediate form of a program in
/// A-normal form.
pub proof fn lemma_explicate_ok(e: Expr)
    requires
        anf(e),
    ensures
        tail_ok(explicate_tail_spec(e)),
        function_ok(explicate_control_spec(e)[0].1),
    decreases e, 1int,
{
    match e {
        Expr::Let { bindings, body } => {
            lemma_explicate_ok(*body);
            lemma_bindings_ok(bindings, bindings.len(), explicate_tail_spec(*body), e);
        },
        _ => {},
    }
    let f = explicate_control_spec(e)[0].1;
    assert(f.labels[0].1 == explicate_tail_spec(e));
}

/// An operand whose variable, if it is one, has a home.
pub open spec fn arg_known(vars: Seq<HomeView>, a: ArgView) -> bool {
    match a {
        ArgView::Imm(_) => true,
        ArgView::Reg(_) => true,
        ArgView::Var(name) => has_home(vars, name),
        ArgView::Deref(_, _) => false,
    }
}

/// An instruction whose variables all have a home.
pub open spec fn instr_known(vars: Seq<HomeView>, i: InstrView) -> bool {
    match i {
        InstrView::Add64(a, b) => arg_known(vars, a) && arg_known(vars, b),
        InstrView::Sub64(a, b) => arg_known(vars, a) && arg_known(vars, b),
        InstrView::Mov64(a, b) => arg_known(vars, a) && arg_known(vars, b),
        InstrView::Neg64(a) => arg_known(vars, a),
        InstrView::Push(a) => arg_known(vars, a),
        InstrView::Pop(a) => arg_known(vars, a),
        _ => true,
    }
}

/// Instructions whose variables all have a home.
pub open spec fn all_known(vars: Seq<HomeView>, instr: Seq<InstrView>) -> bool {
    forall|k: int| 0 <= k < instr.len() ==> instr_known(vars, #[trigger] instr[k])
}

/// The second homes hold a home for every variable that the first do.
pub open spec fn homes_grow(vars: Seq<HomeView>, more: Seq<HomeView>) -> bool {
    forall|x: Seq<char>| has_home(vars, x) ==> has_home(more, x)
}

proof fn lemma_note_atom(vars: Seq<HomeView>, a: AtmView)
    ensures
        homes_grow(vars, note_atom(vars, a)),
        arg_known(note_atom(vars, a), arg_of(a)),
{
    let more = note_atom(vars, a);
    assert forall|x: Seq<char>| has_home(vars, x) implies has_home(more, x) by {
        let i = choose|i: int| 0 <= i < vars.len() && (#[trigger] vars[i]).name == x;
        assert(more[i].name == x);
    }
    match a {
        AtmView::Var { name } => {
            if !has_home(vars, name) {
                assert(more[vars.len() as int].name == name);
            }
        },
        _ => {},
    }
}

proof fn lemma_note_atoms(vars: Seq<HomeView>, atoms: Seq<AtmView>, n: nat)
    requires
        n <= atoms.len(),
    ensures
        homes_grow(vars, note_atoms(vars, atoms, n)),
        forall|j: int| 0 <= j < n ==> arg_known(note_atoms(vars, atoms, n), arg_of(#[trigger] atoms[j])),
    decreases n,
{
    if n > 0 {
        let before = note_atoms(vars, atoms, (n - 1) as nat);
        lemma_note_atoms(vars, atoms, (n - 1) as nat);
        lemma_note_atom(before, atoms[n - 1]);
        let now = note_atoms(vars, atoms, n);
        assert forall|j: int| 0 <= j < n implies arg_known(now, arg_of(#[trigger] atoms[j])) by {
            if j < n - 1 {
                assert(arg_known(before, arg_of(atoms[j])));
                lemma_known_arg_grows(before, now, arg_of(atoms[j]));
            }
        }
    }
}

proof fn lemma_known_arg_grows(vars: Seq<HomeView>, more: Seq<HomeView>, a: ArgView)
    requires
        homes_grow(vars, more),
        arg_known(vars, a),
    ensures
        arg_known(more, a),
{
}

proof fn lemma_known_grows(vars: Seq<HomeView>, more: Seq<HomeView>, instr: Seq<InstrView>)
    requires
        homes_grow(vars, more),
        all_known(vars, instr),
    ensures
        all_known(more, instr),
{
    assert forall|k: int| 0 <= k < instr.len() implies instr_known(more, #[trigger] instr[k]) by {
        assert(instr_known(vars, instr[k]));
    }
}

proof fn lemma_note_exp(vars: Seq<HomeView>, target: ArgView, e: ExpView)
    requires
        exp_ok(e),
        arg_known(vars, target),
    ensures
        homes_grow(vars, note_exp(vars, e)),
        all_known(note_exp(vars, e), select_exp(target, e)),
{
    crate::ast::lemma_ops_differ();
    let more = note_exp(vars, e);
    match e {
        ExpView::Atm(a) => {
            lemma_note_atom(vars, a);
        },
        ExpView::Prim { op, args } => {
            lemma_note_atoms(vars, args, args.len());
            if args.len() >= 1 {
                assert(arg_known(more, arg_of(args[0])));
            }
            if args.len() >= 2 {
                assert(arg_known(more, arg_of(args[1])));
            }
        },
    }
    lemma_known_arg_grows(vars, more, target);
    let out = select_exp(target, e);
    assert forall|k: int| 0 <= k < out.len() implies instr_known(more, #[trigger] out[k]) by {}
}

proof fn lemma_note_tail(vars: Seq<HomeView>, t: TailView)
    requires
        tail_ok(t),
    ensures
        homes_grow(vars, note_tail(vars, t)),
        all_known(note_tail(vars, t), select_tail(t)),
    decreases t,
{
    match t {
        TailView::Return(e) => {
            lemma_note_exp(vars, rax(), e);
        },
        TailView::Sequence(StmtView::Assign(lhs, rhs), rest) => {
            let named = note_atom(vars, lhs);
            lemma_note_atom(vars, lhs);
            lemma_note_exp(named, arg_of(lhs), rhs);
            let first = note_exp(named, rhs);
            lemma_note_tail(first, *rest);
            let all = note_tail(vars, t);
            lemma_known_grows(first, all, select_stmt(StmtView::Assign(lhs, rhs)));
            let head = select_stmt(StmtView::Assign(lhs, rhs));
            let out = select_tail(t);
            assert forall|k: int| 0 <= k < out.len() implies instr_known(all, #[trigger] out[k]) by {
                if k < head.len() {
                    assert(out[k] == head[k]);
                } else {
                    assert(out[k] == select_tail(*rest)[k - head.len()]);
                }
            }
        },
    }
}

/// Every variable in a selected block has a home among the function's
/// variables.
proof fn lemma_selected_known(f: IRFunctionView, n: nat, i: int)
    requires
        function_ok(f),
        0 <= i < n <= f.labels.len(),
    ensures
        all_known(selected_vars(f, n), selected_blocks(f, n)[i].instr),
        homes_grow(selected_vars(f, (n - 1) as nat), selected_vars(f, n)),
    decreases n,
{
    let label = sorted_labels(f)[n - 1];
    lemma_label_found(f, n - 1);
    lemma_note_tail(selected_vars(f, (n - 1) as nat), tail_under(f, label));
    if i < n - 1 {
        lemma_selected_known(f, (n - 1) as nat, i);
        lemma_known_grows(
            selected_vars(f, (n - 1) as nat),
            selected_vars(f, n),
            selected_blocks(f, (n - 1) as nat)[i].instr,
        );
    }
}

/// A label from the sorted labels is one of the function's, so
/// instructions can be selected for the block under it.
proof fn lemma_label_found(f: IRFunctionView, i: int)
    requires
        function_ok(f),
        0 <= i < f.labels.len(),
    ensures
        tail_ok(tail_under(f, sorted_labels(f)[i])),
{
    let names = crate::interp_ir::label_names(f);
    lemma_natural_sort(names);
    let label = sorted_labels(f)[i];
    assert(sorted_labels(f).contains(label));
    assert(names.contains(label));
    crate::natural::lemma_find_name(names, label, 0);
}

proof fn lemma_patch_known(vars: Seq<HomeView>, instr: Seq<InstrView>, n: nat)
    requires
        n <= instr.len(),
        all_known(vars, instr),
    ensures
        all_known(vars, patch_spec(instr, n)),
    decreases n,
{
    if n > 0 {
        lemma_patch_known(vars, instr, (n - 1) as nat);
        let front = patch_spec(instr, (n - 1) as nat);
        let all = patch_spec(instr, n);
        assert(instr_known(vars, instr[n - 1]));
        assert forall|k: int| 0 <= k < all.len() implies instr_known(vars, #[trigger] all[k]) by {
            if k < front.len() {
                assert(all[k] == front[k]);
            }
        }
    }
}

/// The first home of a name that has a home is found, and where every
/// home has a place, so has that one.
proof fn lemma_home_found(homes: Seq<HomeView>, name: Seq<char>, from: int)
    requires
        0 <= from,
        exists|j: int| from <= j < homes.len() && (#[trigger] homes[j]).name == name,
        forall|j: int| 0 <= j < homes.len() ==> (#[trigger] homes[j]).loc != VarLoc::Undefined,
    ensures
        home_of(homes, name, from) matches Some(loc) && loc != VarLoc::Undefined,
    decreases homes.len() - from,
{
    let j = choose|j: int| from <= j < homes.len() && (#[trigger] homes[j]).name == name;
    if homes[from].name != name {
        assert(from + 1 <= j < homes.len() && homes[j].name == name);
        lemma_home_found(homes, name, from + 1);
    }
}

/// An operand whose variable has a home has a text once the homes are assigned.
proof fn lemma_known_printable(vars: Seq<HomeView>, a: ArgView)
    requires
        arg_known(vars, a),
    ensures
        arg_printable(assigned_homes(vars, 0), a),
{
    match a {
        ArgView::Var(name) => {
            let names = home_names(vars);
            let i = choose|i: int| 0 <= i < vars.len() && (#[trigger] vars[i]).name == name;
            assert(names[i] == name);
            assert(names.contains(name));
            lemma_natural_sort(names);
            let sorted = natural_sort_spec(names);
            assert(sorted.contains(name));
            let j = choose|j: int| 0 <= j < sorted.len() && sorted[j] == name;
            let homes = assigned_homes(vars, 0);
            assert(homes[j].name == name);
            lemma_home_found(homes, name, 0);
        },
        _ => {},
    }
}

proof fn lemma_all_printable(vars: Seq<HomeView>, instr: Seq<InstrView>)
    requires
        all_known(vars, instr),
    ensures
        forall|k: int|
            0 <= k < instr.len() ==> instr_printable(assigned_homes(vars, 0), #[trigger] instr[k]),
{
    assert forall|k: int| 0 <= k < instr.len() implies instr_printable(
        assigned_homes(vars, 0),
        #[trigger] instr[k],
    ) by {
        assert(instr_known(vars, instr[k]));
        match instr[k] {
            InstrView::Add64(a, b) => {
                lemma_known_printable(vars, a);
                lemma_known_printable(vars, b);
            },
            InstrView::Sub64(a, b) => {
                lemma_known_printable(vars, a);
                lemma_known_printable(vars, b);
            },
            InstrView::Mov64(a, b) => {
                lemma_known_printable(vars, a);
                lemma_known_printable(vars, b);
            },
            InstrView::Neg64(a) => {
                lemma_known_printable(vars, a);
            },
            InstrView::Push(a) => {
                lemma_known_printable(vars, a);
            },
            InstrView::Pop(a) => {
                lemma_known_printable(vars, a);
            },
            _ => {},
        }
    }
}

/// Every instruction of a transformed function has a text: no variable in
/// it is without a home, and no home without a place.
pub proof fn lemma_transform_printable(f: IRFunctionView)
    requires
        function_ok(f),
    ensures
        function_printable(transform_spec(f)),
{
    let n = f.labels.len();
    let vars = selected_vars(f, n);
    let selected = selected_blocks(f, n);
    let framed = with_frame(selected);
    let patched = patch_blocks(framed);
    let mp = any_needs_patch(framed);
    let frame = (8 * vars.len()) as int;
    let out = transform_spec(f);
    let homes = assigned_homes(vars, 0);
    assert(framed.len() == n + 2);
    assert forall|b: int, k: int|
        0 <= b < out.blocks.len() && 0 <= k < out.blocks[b].instr.len() implies instr_printable(
        out.vars,
        #[trigger] out.blocks[b].instr[k],
    ) by {
        // what was selected, framed and patched
        assert(all_known(vars, framed[b].instr)) by {
            if b == 0 {
                assert(framed[0] == prelude_block());
            } else if b == n + 1 {
                assert(framed[b] == conclusion_block());
            } else {
                lemma_selected_known(f, n, b - 1);
                let inner = selected[b - 1].instr;
                if b == n {
                    let jumped = inner.push(InstrView::Jmp(crate::x64_backend::conclusion_label()));
                    assert(framed[b].instr == jumped);
                    assert forall|j: int| 0 <= j < jumped.len() implies instr_known(
                        vars,
                        #[trigger] jumped[j],
                    ) by {
                        if j < inner.len() {
                            assert(jumped[j] == inner[j]);
                        }
                    }
                } else {
                    assert(framed[b] == selected[b - 1]);
                }
            }
        }
        lemma_patch_known(vars, framed[b].instr, framed[b].instr.len());
        let base = patched[b].instr;
        assert(all_known(vars, base));
        // what finishing the frame adds
        let done = out.blocks[b].instr;
        assert(all_known(vars, done)) by {
            if b == 0 {
                lemma_patch_length(framed[0].instr, framed[0].instr.len());
                assert(done == finish_prelude(base, frame, vars.len() > 0, mp));
                assert forall|j: int| 0 <= j < done.len() implies instr_known(
                    vars,
                    #[trigger] done[j],
                ) by {
                    if vars.len() > 0 && frame > 0 {
                        if j < 2 {
                            assert(instr_known(vars, base[j]));
                        } else if 2 < j <= base.len() {
                            assert(instr_known(vars, base[j - 1]));
                        }
                    } else if j < base.len() {
                        assert(instr_known(vars, base[j]));
                    }
                }
            } else if b == n + 1 {
                assert(done == finish_conclusion(base, frame, vars.len() > 0, mp));
                assert forall|j: int| 0 <= j < done.len() implies instr_known(
                    vars,
                    #[trigger] done[j],
                ) by {
                    if vars.len() > 0 && frame > 0 {
                        if 1 <= j <= base.len() {
                            assert(instr_known(vars, base[j - 1]));
                        }
                    } else if j < base.len() {
                        assert(instr_known(vars, base[j]));
                    }
                }
            } else {
                assert(done == base);
            }
        }
        lemma_all_printable(vars, done);
    }
}

} // verus!
