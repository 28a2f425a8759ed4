//! The two interpreters agree: a program in A-normal form that the tree
//! interpreter runs without error has the same value when its intermediate
//! form is run on the inputs that the first run cached.

use crate::ast::anf;
use crate::ast::Expr;
use crate::ast::is_atom;
use crate::ast::lemma_ops_differ;
use crate::ast::op_add;
use crate::ast::op_neg;
use crate::ast::op_read;
use crate::explicate::assign_bindings;
use crate::explicate::AtmView;
use crate::explicate::atom_of;
use crate::explicate::atoms_of;
use crate::explicate::entry_name;
use crate::explicate::exp_of;
use crate::explicate::explicate_assign_spec;
use crate::explicate::explicate_control_spec;
use crate::explicate::explicate_tail_spec;
use crate::explicate::first_label;
use crate::explicate::StmtView;
use crate::explicate::TailView;
use crate::interp_ast::ast_run_spec;
use crate::interp_ast::AstState;
use crate::interp_ast::interp_bindings;
use crate::interp_ast::interp_spec;
use crate::interp_ir::atm_spec;
use crate::interp_ir::exp_spec;
use crate::interp_ir::function_names;
use crate::interp_ir::ir_run_spec;
use crate::interp_ir::IrState;
use crate::interp_ir::label_names;
use crate::interp_ir::stmt_spec;
use crate::interp_ir::tail_spec;
use crate::interp_ir::var_lookup;
use crate::interpreter::CacheView;
use crate::interpreter::find_cached;
use crate::interpreter::read_name;
use crate::interpreter::read_step;
use crate::natural::find_name;
use crate::types::chase_spec;
use crate::types::lookup_spec;
use crate::types::value_of_spec;
use vstd::prelude::*;

verus! {

/// Every name of the environment is bound to an integer literal.
pub open spec fn all_ints(env: Seq<(Seq<char>, Expr)>) -> bool {
    forall|i: int| 0 <= i < env.len() ==> (#[trigger] env[i]).1 is Int
}

/// The variables that the environment's bindings are.
pub open spec fn vars_of(env: Seq<(Seq<char>, Expr)>) -> Seq<(Seq<char>, i64)> {
    Seq::new(env.len(), |i: int| (env[i].0, env[i].1->Int_0))
}

/// The cached results from the `from`-th on.
pub open spec fn cached_since(log: Seq<(Seq<char>, i64)>, from: nat) -> Seq<(Seq<char>, i64)> {
    log.skip(from as int)
}

/// Every cached result is one of `read`.
pub open spec fn all_reads(log: Seq<(Seq<char>, i64)>) -> bool {
    forall|i: int| 0 <= i < log.len() ==> (#[trigger] log[i]).0 == read_name()
}

/// The state of the second run: the variables that the first run's
/// bindings are, and the cache in read mode with `log` in it.
pub open spec fn replay(
    env: Seq<(Seq<char>, Expr)>,
    log: Seq<(Seq<char>, i64)>,
    input: Seq<Seq<char>>,
    errors: Seq<Seq<char>>,
) -> IrState {
    IrState { vars: vars_of(env), cache: CacheView { write: false, log, input }, errors }
}

/// A variable has the same value in an environment of integers and
/// among the variables that its bindings are.
pub proof fn lemma_lookup_agrees(env: Seq<(Seq<char>, Expr)>, name: Seq<char>)
    requires
        all_ints(env),
    ensures
        match var_lookup(vars_of(env), name) {
            Some(v) => value_of_spec(env, name) == Some(Expr::Int(v)),
            None => value_of_spec(env, name) is None,
        },
    decreases env.len(),
{
    lemma_lookup_ints(env, name);
    if env.len() > 0 {
        assert(chase_spec(env, name, env.len()) == match lookup_spec(env, name) {
            Some(Expr::Int(n)) => Some(Expr::Int(n)),
            _ => None,
        });
    }
}

proof fn lemma_lookup_ints(env: Seq<(Seq<char>, Expr)>, name: Seq<char>)
    requires
        all_ints(env),
    ensures
        match var_lookup(vars_of(env), name) {
            Some(v) => lookup_spec(env, name) == Some(Expr::Int(v)),
            None => lookup_spec(env, name) is None,
        },
    decreases env.len(),
{
    if env.len() > 0 {
        let vars = vars_of(env);
        assert(vars.last() == (env.last().0, env.last().1->Int_0));
        assert(env.last().1 is Int);
        assert(vars.drop_last() =~= vars_of(env.drop_last()));
        if env.last().0 != name {
            lemma_lookup_ints(env.drop_last(), name);
        }
    }
}

/// What a run in write mode leaves: the cache still in write mode, the
/// environment still of integers, the old cached results in front of new
/// ones that are all results of `read`; and where the run has a value, no
/// new error.
pub proof fn lemma_write_run(e: Expr, s: AstState)
    requires
        s.cache.write,
        all_ints(s.env),
    ensures
        interp_spec(e, s).1.cache.write,
        all_ints(interp_spec(e, s).1.env),
        interp_spec(e, s).1.cache.log.len() >= s.cache.log.len(),
        interp_spec(e, s).1.cache.log.take(s.cache.log.len() as int) == s.cache.log,
        all_reads(cached_since(interp_spec(e, s).1.cache.log, s.cache.log.len())),
        interp_spec(e, s).0 is Some ==> interp_spec(e, s).1.errors == s.errors,
    decreases e, 0int,
{
    let out = interp_spec(e, s);
    match e {
        Expr::Prim { op, args } => {
            if op == op_add() && args.len() == 2 {
                lemma_write_run(args[0], s);
                let left = interp_spec(args[0], s);
                lemma_write_run(args[1], left.1);
                let right = interp_spec(args[1], left.1);
                lemma_grown_twice(s.cache.log, left.1.cache.log, right.1.cache.log);
            } else if op == op_neg() && args.len() == 1 {
                lemma_write_run(args[0], s);
            } else if op == op_read() && args.len() == 0 {
                let step = read_step(s.cache);
                assert(step.1.log.take(s.cache.log.len() as int) =~= s.cache.log);
            } else {
                assert(out.1.cache.log.take(s.cache.log.len() as int) =~= s.cache.log);
            }
        },
        Expr::Let { bindings, body } => {
            lemma_write_bindings(bindings, bindings.len(), s);
            let bound = interp_bindings(bindings, bindings.len(), s);
            if bound.0 {
                lemma_write_run(*body, bound.1);
                lemma_grown_twice(s.cache.log, bound.1.cache.log, out.1.cache.log);
            }
        },
        _ => {
            assert(out.1.cache.log.take(s.cache.log.len() as int) =~= s.cache.log);
        },
    }
}

/// Growing twice is growing: what was in front stays in front, and the
/// new results are those of the first growth and then those of the second.
pub proof fn lemma_grown_twice(
    a: Seq<(Seq<char>, i64)>,
    b: Seq<(Seq<char>, i64)>,
    c: Seq<(Seq<char>, i64)>,
)
    requires
        a.len() <= b.len() <= c.len(),
        b.take(a.len() as int) == a,
        c.take(b.len() as int) == b,
        all_reads(cached_since(b, a.len())),
        all_reads(cached_since(c, b.len())),
    ensures
        c.take(a.len() as int) == a,
        all_reads(cached_since(c, a.len())),
        cached_since(c, a.len()) == cached_since(b, a.len()) + cached_since(c, b.len()),
{
    assert(c.take(a.len() as int) =~= a) by {
        assert forall|i: int| 0 <= i < a.len() implies c[i] == a[i] by {
            assert(c.take(b.len() as int)[i] == b[i]);
            assert(b.take(a.len() as int)[i] == a[i]);
        }
    }
    assert(cached_since(c, a.len()) =~= cached_since(b, a.len()) + cached_since(c, b.len())) by {
        assert forall|i: int| 0 <= i < c.len() - a.len() implies cached_since(c, a.len())[i] == (
        cached_since(b, a.len()) + cached_since(c, b.len()))[i] by {
            if i < b.len() - a.len() {
                assert(c.take(b.len() as int)[i + a.len()] == b[i + a.len()]);
            }
        }
    }
    assert forall|i: int| 0 <= i < cached_since(c, a.len()).len() implies (
    #[trigger] cached_since(c, a.len())[i]).0 == read_name() by {
        if i < b.len() - a.len() {
            assert(cached_since(b, a.len())[i].0 == read_name());
        } else {
            assert(cached_since(c, b.len())[i - (b.len() - a.len())].0 == read_name());
        }
    }
}

/// What the bindings of a `let` leave when they are made in write mode.
pub proof fn lemma_write_bindings(bs: Seq<(Seq<char>, Expr)>, n: nat, s: AstState)
    requires
        s.cache.write,
        all_ints(s.env),
        n <= bs.len(),
    ensures
        interp_bindings(bs, n, s).1.cache.write,
        all_ints(interp_bindings(bs, n, s).1.env),
        interp_bindings(bs, n, s).1.cache.log.len() >= s.cache.log.len(),
        interp_bindings(bs, n, s).1.cache.log.take(s.cache.log.len() as int) == s.cache.log,
        all_reads(cached_since(interp_bindings(bs, n, s).1.cache.log, s.cache.log.len())),
        interp_bindings(bs, n, s).0 ==> interp_bindings(bs, n, s).1.errors == s.errors,
    decreases bs, n,
{
    if n == 0 {
        assert(s.cache.log.take(s.cache.log.len() as int) =~= s.cache.log);
    } else {
        lemma_write_bindings(bs, (n - 1) as nat, s);
        let before = interp_bindings(bs, (n - 1) as nat, s);
        if before.0 && lookup_spec(before.1.env, bs[n - 1].0) is None {
            lemma_write_run(bs[n - 1].1, before.1);
            let value = interp_spec(bs[n - 1].1, before.1);
            lemma_grown_twice(s.cache.log, before.1.cache.log, value.1.cache.log);
        }
    }
}

/// In read mode a `read` takes the first cached result where that is one
/// of `read`.
pub proof fn lemma_replay_read(n: i64, rest: Seq<(Seq<char>, i64)>, input: Seq<Seq<char>>)
    ensures
        read_step(CacheView { write: false, log: seq![(read_name(), n)] + rest, input }) == (
            Ok::<i64, Seq<char>>(n),
            CacheView { write: false, log: rest, input },
        ),
{
    let log = seq![(read_name(), n)] + rest;
    assert(log[0] == (read_name(), n));
    assert(find_cached(log, read_name(), 0) == Some(0int));
    assert(log.remove(0) =~= rest);
}

/// An atom has the same value in both runs.
pub proof fn lemma_atom_agrees(e: Expr, s: AstState, later: IrState)
    requires
        is_atom(e),
        all_ints(s.env),
        interp_spec(e, s).0 is Some,
        later.vars == vars_of(s.env),
    ensures
        interp_spec(e, s).1 == s,
        atm_spec(atom_of(e), later) == (interp_spec(e, s).0, later),
{
    match e {
        Expr::Var { name } => {
            lemma_lookup_agrees(s.env, name);
        },
        _ => {},
    }
}

/// What is not a `let` has the same value in both runs: where the first
/// run, in write mode, has a value, the second run, in read mode on what
/// the first one cached, has that value too, and uses up what was cached.
pub proof fn lemma_exp_agrees(
    e: Expr,
    s: AstState,
    rest: Seq<(Seq<char>, i64)>,
    input: Seq<Seq<char>>,
    errors: Seq<Seq<char>>,
)
    requires
        anf(e),
        !(e is Let),
        s.cache.write,
        all_ints(s.env),
        interp_spec(e, s).0 is Some,
    ensures
        interp_spec(e, s).1.env == s.env,
        exp_spec(
            exp_of(e),
            replay(
                s.env,
                cached_since(interp_spec(e, s).1.cache.log, s.cache.log.len()) + rest,
                input,
                errors,
            ),
        ) == (interp_spec(e, s).0, replay(s.env, rest, input, errors)),
{
    lemma_ops_differ();
    let out = interp_spec(e, s);
    let new = cached_since(out.1.cache.log, s.cache.log.len());
    let later = replay(s.env, new + rest, input, errors);
    match e {
        Expr::Prim { op, args } => {
            if op == op_add() && args.len() == 2 {
                assert(is_atom(args[0]) && is_atom(args[1]));
                let left = interp_spec(args[0], s);
                lemma_atom_agrees(args[0], s, later);
                lemma_atom_agrees(args[1], s, later);
                assert(new =~= Seq::empty());
                assert(new + rest =~= rest);
                assert(atoms_of(args)[0] == atom_of(args[0]));
                assert(atoms_of(args)[1] == atom_of(args[1]));
            } else if op == op_neg() && args.len() == 1 {
                assert(is_atom(args[0]));
                lemma_atom_agrees(args[0], s, later);
                assert(new =~= Seq::empty());
                assert(new + rest =~= rest);
                assert(atoms_of(args)[0] == atom_of(args[0]));
            } else {
                assert(op == op_read() && args.len() == 0);
                let step = read_step(s.cache);
                let n = step.0->Ok_0;
                assert(new =~= seq![(read_name(), n)]);
                assert(new + rest =~= seq![(read_name(), n)] + rest);
                lemma_replay_read(n, rest, input);
                assert(atoms_of(args).len() == 0);
            }
        },
        _ => {
            lemma_atom_agrees(e, s, later);
            assert(new =~= Seq::empty());
            assert(new + rest =~= rest);
        },
    }
}

/// Assigning the value of an expression has in the second run the effect
/// that binding it has in the first: where the first run, in write mode,
/// gives `e` a value, the second run of the statements that assign `e` to
/// `x`, in read mode on what the first one cached, goes on with `cont`
/// from the first run's bindings and `x` bound to that value, with what
/// was cached used up.
pub proof fn lemma_assign_agrees(
    e: Expr,
    x: Seq<char>,
    cont: TailView,
    s: AstState,
    rest: Seq<(Seq<char>, i64)>,
    input: Seq<Seq<char>>,
    errors: Seq<Seq<char>>,
)
    requires
        anf(e),
        s.cache.write,
        all_ints(s.env),
        interp_spec(e, s).0 is Some,
    ensures
        all_ints(interp_spec(e, s).1.env.push((x, Expr::Int(interp_spec(e, s).0->Some_0)))),
        tail_spec(
            explicate_assign_spec(e, x, cont),
            replay(
                s.env,
                cached_since(interp_spec(e, s).1.cache.log, s.cache.log.len()) + rest,
                input,
                errors,
            ),
        ) == tail_spec(
            cont,
            replay(
                interp_spec(e, s).1.env.push((x, Expr::Int(interp_spec(e, s).0->Some_0))),
                rest,
                input,
                errors,
            ),
        ),
    decreases e, 1int,
{
    let out = interp_spec(e, s);
    let v = out.0->Some_0;
    lemma_write_run(e, s);
    let bound = out.1.env.push((x, Expr::Int(v)));
    assert(all_ints(bound)) by {
        assert forall|i: int| 0 <= i < bound.len() implies (#[trigger] bound[i]).1 is Int by {
            if i < out.1.env.len() {
                assert(bound[i] == out.1.env[i]);
            }
        }
    }
    match e {
        Expr::Let { bindings, body } => {
            let made = interp_bindings(bindings, bindings.len(), s);
            lemma_write_bindings(bindings, bindings.len(), s);
            lemma_write_run(*body, made.1);
            lemma_grown_twice(s.cache.log, made.1.cache.log, out.1.cache.log);
            let of_bindings = cached_since(made.1.cache.log, s.cache.log.len());
            let of_body = cached_since(out.1.cache.log, made.1.cache.log.len());
            assert((of_bindings + of_body) + rest =~= of_bindings + (of_body + rest));
            lemma_bindings_agree(
                bindings,
                bindings.len(),
                explicate_assign_spec(*body, x, cont),
                s,
                of_body + rest,
                input,
                errors,
                e,
            );
            lemma_assign_agrees(*body, x, cont, made.1, rest, input, errors);
        },
        _ => {
            lemma_exp_agrees(e, s, rest, input, errors);
            let new = cached_since(out.1.cache.log, s.cache.log.len());
            let later = replay(s.env, new + rest, input, errors);
            let after = replay(s.env, rest, input, errors);
            assert(exp_spec(exp_of(e), later) == (out.0, after));
            let st = StmtView::Assign(AtmView::Var { name: x }, exp_of(e));
            assert(stmt_spec(st, later).1.vars =~= vars_of(bound)) by {
                assert(vars_of(bound) =~= vars_of(s.env).push((x, v)));
            }
            assert(stmt_spec(st, later) == (true, replay(bound, rest, input, errors)));
        },
    }
}

/// The assignments of a `let`'s first `n` bindings have in the second run
/// the effect that making the bindings has in the first.
pub proof fn lemma_bindings_agree(
    bs: Seq<(Seq<char>, Expr)>,
    n: nat,
    cont: TailView,
    s: AstState,
    rest: Seq<(Seq<char>, i64)>,
    input: Seq<Seq<char>>,
    errors: Seq<Seq<char>>,
    whole: Expr,
)
    requires
        n <= bs.len(),
        whole is Let,
        whole->Let_bindings == bs,
        anf(whole),
        s.cache.write,
        all_ints(s.env),
        interp_bindings(bs, n, s).0,
    ensures
        all_ints(interp_bindings(bs, n, s).1.env),
        tail_spec(
            assign_bindings(bs, n, cont),
            replay(
                s.env,
                cached_since(interp_bindings(bs, n, s).1.cache.log, s.cache.log.len()) + rest,
                input,
                errors,
            ),
        ) == tail_spec(cont, replay(interp_bindings(bs, n, s).1.env, rest, input, errors)),
    decreases whole, 0int, n,
{
    let made = interp_bindings(bs, n, s);
    lemma_write_bindings(bs, n, s);
    if n == 0 {
        assert(cached_since(s.cache.log, s.cache.log.len()) =~= Seq::empty());
        assert(cached_since(s.cache.log, s.cache.log.len()) + rest =~= rest);
    } else {
        let before = interp_bindings(bs, (n - 1) as nat, s);
        lemma_write_bindings(bs, (n - 1) as nat, s);
        assert(before.0);
        let name = bs[n - 1].0;
        let rhs = bs[n - 1].1;
        assert(anf((whole->Let_bindings[n - 1]).1));
        let value = interp_spec(rhs, before.1);
        assert(value.0 is Some);
        lemma_write_run(rhs, before.1);
        lemma_grown_twice(s.cache.log, before.1.cache.log, value.1.cache.log);
        let earlier = cached_since(before.1.cache.log, s.cache.log.len());
        let here = cached_since(value.1.cache.log, before.1.cache.log.len());
        assert((earlier + here) + rest =~= earlier + (here + rest));
        let inner = explicate_assign_spec(rhs, name, cont);
        lemma_bindings_agree(bs, (n - 1) as nat, inner, s, here + rest, input, errors, whole);
        assert(decreases_to!(whole => bs));
        assert(decreases_to!(bs => bs[n - 1]));
        assert(decreases_to!(bs[n - 1] => bs[n - 1].1));
        lemma_assign_agrees(rhs, name, cont, before.1, rest, input, errors);
    }
}

/// Returning the value of an expression has in the second run the value
/// that the expression has in the first; the second run ends with the
/// first run's bindings as its variables, with what was cached used up,
/// and with no new error.
pub proof fn lemma_tail_agrees(
    e: Expr,
    s: AstState,
    rest: Seq<(Seq<char>, i64)>,
    input: Seq<Seq<char>>,
    errors: Seq<Seq<char>>,
)
    requires
        anf(e),
        s.cache.write,
        all_ints(s.env),
        interp_spec(e, s).0 is Some,
    ensures
        tail_spec(
            explicate_tail_spec(e),
            replay(
                s.env,
                cached_since(interp_spec(e, s).1.cache.log, s.cache.log.len()) + rest,
                input,
                errors,
            ),
        ) == (interp_spec(e, s).0, replay(interp_spec(e, s).1.env, rest, input, errors)),
    decreases e, 1int,
{
    let out = interp_spec(e, s);
    match e {
        Expr::Let { bindings, body } => {
            let made = interp_bindings(bindings, bindings.len(), s);
            lemma_write_bindings(bindings, bindings.len(), s);
            lemma_write_run(*body, made.1);
            lemma_grown_twice(s.cache.log, made.1.cache.log, out.1.cache.log);
            let of_bindings = cached_since(made.1.cache.log, s.cache.log.len());
            let of_body = cached_since(out.1.cache.log, made.1.cache.log.len());
            assert((of_bindings + of_body) + rest =~= of_bindings + (of_body + rest));
            lemma_bindings_agree(
                bindings,
                bindings.len(),
                explicate_tail_spec(*body),
                s,
                of_body + rest,
                input,
                errors,
                e,
            );
            lemma_tail_agrees(*body, made.1, rest, input, errors);
        },
        _ => {
            lemma_exp_agrees(e, s, rest, input, errors);
        },
    }
}

/// The two interpreters agree. A program in A-normal form is run by the
/// tree interpreter, from an empty cache in write mode; then its
/// intermediate form is run from that cache as the first run left it, put
/// in read mode. Where the first run has a value, the second run has the
/// same value and no error; it takes no line of input, and it leaves
/// nothing in the cache.
pub proof fn lemma_interpreters_agree(e: Expr, input: Seq<Seq<char>>)
    requires
        anf(e),
    ensures
        ({
            let first = ast_run_spec(
                e,
                CacheView { write: true, log: Seq::empty(), input },
                Seq::empty(),
            );
            let second = ir_run_spec(
                explicate_control_spec(e),
                IrState {
                    vars: Seq::empty(),
                    cache: CacheView { write: false, ..first.1.cache },
                    errors: Seq::empty(),
                },
            );
            first.0 is Some ==> second == (
                first.0,
                IrState {
                    vars: vars_of(first.1.env),
                    cache: CacheView {
                        write: false,
                        log: Seq::empty(),
                        input: first.1.cache.input,
                    },
                    errors: Seq::empty(),
                },
            )
        }),
{
    let start = AstState {
        env: Seq::empty(),
        cache: CacheView { write: true, log: Seq::empty(), input },
        errors: Seq::empty(),
    };
    let first = interp_spec(e, start);
    if first.0 is Some {
        lemma_write_run(e, start);
        let rest = Seq::<(Seq<char>, i64)>::empty();
        let new = cached_since(first.1.cache.log, 0);
        assert(new + rest =~= first.1.cache.log);
        lemma_tail_agrees(e, start, rest, first.1.cache.input, Seq::empty());
        let program = explicate_control_spec(e);
        assert(function_names(program)[0] == entry_name());
        assert(find_name(function_names(program), entry_name(), 0) == Some(0int));
        assert(label_names(program[0].1)[0] == first_label());
        assert(find_name(label_names(program[0].1), first_label(), 0) == Some(0int));
        assert(vars_of(start.env) =~= Seq::empty());
    }
}

} // verus!
