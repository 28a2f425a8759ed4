//! The removal of complex operands keeps what a program means: where the
//! tree interpreter gives a tree a value, it gives the tree's normal form
//! the same value, after the same reads in the same order.

use crate::agreement::all_ints;
use crate::ast::is_atom;
use crate::ast::known_op;
use crate::ast::lemma_ops_differ;
use crate::ast::op_add;
use crate::ast::op_neg;
use crate::ast::op_read;
use crate::ast::Expr;
use crate::decomplify::hoisted;
use crate::decomplify::lemma_rco_counter;
use crate::decomplify::rco_atom_spec;
use crate::decomplify::rco_bindings_spec;
use crate::decomplify::rco_expr_spec;
use crate::decomplify::tmp_name;
use crate::interp_ast::interp_bindings;
use crate::interp_ast::interp_spec;
use crate::interp_ast::AstState;
use crate::text::decimal;
use crate::text::lemma_decimal_injective;
use crate::types::chase_spec;
use crate::types::lookup_spec;
use crate::types::value_of_spec;
use crate::uniquify::args_binders;
use crate::uniquify::binders;
use crate::uniquify::bindings_binders;
use crate::uniquify::lemma_unique_name_injective;
use crate::uniquify::lemma_uniquify_binders;
use crate::uniquify::renamed;
use crate::uniquify::scoped_args;
use crate::uniquify::scoped_binders;
use crate::uniquify::scoped_bindings;
use crate::uniquify::unique_name;
use crate::uniquify::uniquify_bindings;
use crate::uniquify::uniquify_spec;
use crate::uniquify::Frame;
use crate::ast::well_formed;
use vstd::prelude::*;

verus! {

/// The name of some temporary.
pub open spec fn is_temp(x: Seq<char>) -> bool {
    exists|j: nat| x == #[trigger] tmp_name(j)
}

/// Different temporaries have different names.
pub proof fn lemma_tmp_name_injective(i: nat, j: nat)
    requires
        tmp_name(i) == tmp_name(j),
    ensures
        i == j,
{
    let p = "tmp."@;
    let a = decimal(i);
    let b = decimal(j);
    assert(a =~= b) by {
        assert((p + a).len() == (p + b).len());
        assert forall|n: int| 0 <= n < a.len() implies a[n] == b[n] by {
            assert((p + a)[p.len() + n] == a[n]);
            assert((p + b)[p.len() + n] == b[n]);
        }
    }
    lemma_decimal_injective(i, j);
}

/// A binding made last is found first; it hides no other name.
pub proof fn lemma_lookup_push(env: Seq<(Seq<char>, Expr)>, x: Seq<char>, v: Expr, y: Seq<char>)
    ensures
        lookup_spec(env.push((x, v)), y) == (if y == x {
            Some(v)
        } else {
            lookup_spec(env, y)
        }),
{
    let more = env.push((x, v));
    assert(more.last() == (x, v));
    assert(more.drop_last() =~= env);
}

/// In an environment of integers a variable stands for what it is bound to.
pub proof fn lemma_value_is_lookup(env: Seq<(Seq<char>, Expr)>, x: Seq<char>)
    requires
        all_ints(env),
    ensures
        value_of_spec(env, x) == lookup_spec(env, x),
{
    lemma_lookup_int(env, x);
    if env.len() > 0 {
        assert(chase_spec(env, x, env.len()) == match lookup_spec(env, x) {
            Some(Expr::Int(n)) => Some(Expr::Int(n)),
            _ => None,
        });
    }
}

proof fn lemma_lookup_int(env: Seq<(Seq<char>, Expr)>, x: Seq<char>)
    requires
        all_ints(env),
    ensures
        lookup_spec(env, x) matches Some(e) ==> e is Int,
        env.len() == 0 ==> lookup_spec(env, x) is None,
    decreases env.len(),
{
    if env.len() > 0 {
        assert(env[env.len() - 1].1 is Int);
        if env.last().0 != x {
            let front = env.drop_last();
            assert forall|i: int| 0 <= i < front.len() implies (#[trigger] front[i]).1 is Int by {
                assert(front[i] == env[i]);
            }
            lemma_lookup_int(front, x);
        }
    }
}

/// What is bound in the first environment is bound to the same in the second.
pub open spec fn keeps(before: Seq<(Seq<char>, Expr)>, after: Seq<(Seq<char>, Expr)>) -> bool {
    forall|x: Seq<char>|
        lookup_spec(before, x) is Some ==> #[trigger] lookup_spec(after, x) == lookup_spec(
            before,
            x,
        )
}

/// Every name that the second environment binds and the first does not is
/// one of `names`.
pub open spec fn adds_only(
    before: Seq<(Seq<char>, Expr)>,
    after: Seq<(Seq<char>, Expr)>,
    names: Seq<Seq<char>>,
) -> bool {
    forall|x: Seq<char>|
        #[trigger] lookup_spec(after, x) is Some && lookup_spec(before, x) is None
            ==> names.contains(x)
}

/// A name is in two lists put together where it is in one of them.
pub proof fn lemma_contains_add(a: Seq<Seq<char>>, b: Seq<Seq<char>>, x: Seq<char>)
    ensures
        (a + b).contains(x) <==> (a.contains(x) || b.contains(x)),
{
    let c = a + b;
    if c.contains(x) {
        let i = choose|i: int| 0 <= i < c.len() && c[i] == x;
        if i < a.len() {
            assert(a[i] == x);
        } else {
            assert(b[i - a.len()] == x);
        }
    }
    if a.contains(x) {
        let i = choose|i: int| 0 <= i < a.len() && a[i] == x;
        assert(c[i] == x);
    }
    if b.contains(x) {
        let i = choose|i: int| 0 <= i < b.len() && b[i] == x;
        assert(c[a.len() + i] == x);
    }
}

/// A run that has a value leaves an environment of integers, adds no
/// error, keeps what was bound, and binds no name but those that the
/// tree's `let`s bind.
pub proof fn lemma_run_binds(e: Expr, s: AstState)
    requires
        all_ints(s.env),
        interp_spec(e, s).0 is Some,
    ensures
        all_ints(interp_spec(e, s).1.env),
        interp_spec(e, s).1.errors == s.errors,
        keeps(s.env, interp_spec(e, s).1.env),
        adds_only(s.env, interp_spec(e, s).1.env, binders(e)),
        is_atom(e) ==> interp_spec(e, s).1 == s,
    decreases e, 0int,
{
    let out = interp_spec(e, s);
    match e {
        Expr::Prim { op, args } => {
            if op == op_add() && args.len() == 2 {
                let left = interp_spec(args[0], s);
                lemma_run_binds(args[0], s);
                lemma_run_binds(args[1], left.1);
                assert(args_binders(args, 1) =~= binders(args[0])) by {
                    assert(args_binders(args, 0) =~= Seq::<Seq<char>>::empty());
                }
                assert(args_binders(args, 2) == args_binders(args, 1) + binders(args[1]));
                assert(binders(e) == binders(args[0]) + binders(args[1]));
                assert forall|x: Seq<char>|
                    #[trigger] lookup_spec(out.1.env, x) is Some && lookup_spec(s.env, x) is None
                        implies binders(e).contains(x) by {
                    lemma_contains_add(binders(args[0]), binders(args[1]), x);
                    if lookup_spec(left.1.env, x) is Some {
                        assert(binders(args[0]).contains(x));
                    }
                }
                assert forall|x: Seq<char>| lookup_spec(s.env, x) is Some implies #[trigger] lookup_spec(
                    out.1.env,
                    x,
                ) == lookup_spec(s.env, x) by {
                    assert(lookup_spec(left.1.env, x) == lookup_spec(s.env, x));
                }
            } else if op == op_neg() && args.len() == 1 {
                lemma_run_binds(args[0], s);
                assert(args_binders(args, 1) =~= binders(args[0])) by {
                    assert(args_binders(args, 0) =~= Seq::<Seq<char>>::empty());
                }
            } else {
            }
        },
        Expr::Let { bindings, body } => {
            let made = interp_bindings(bindings, bindings.len(), s);
            lemma_bindings_bind(bindings, bindings.len(), s);
            lemma_run_binds(*body, made.1);
            assert forall|x: Seq<char>|
                #[trigger] lookup_spec(out.1.env, x) is Some && lookup_spec(s.env, x) is None
                    implies binders(e).contains(x) by {
                lemma_contains_add(bindings_binders(bindings, bindings.len()), binders(*body), x);
                if lookup_spec(made.1.env, x) is Some {
                    assert(bindings_binders(bindings, bindings.len()).contains(x));
                }
            }
            assert forall|x: Seq<char>| lookup_spec(s.env, x) is Some implies #[trigger] lookup_spec(
                out.1.env,
                x,
            ) == lookup_spec(s.env, x) by {
                assert(lookup_spec(made.1.env, x) == lookup_spec(s.env, x));
            }
        },
        _ => {},
    }
}

/// Bindings that could all be made leave an environment of integers, add
/// no error, keep what was bound, and bind no name but their own and
/// those bound inside their expressions.
pub proof fn lemma_bindings_bind(bs: Seq<(Seq<char>, Expr)>, n: nat, s: AstState)
    requires
        n <= bs.len(),
        all_ints(s.env),
        interp_bindings(bs, n, s).0,
    ensures
        all_ints(interp_bindings(bs, n, s).1.env),
        interp_bindings(bs, n, s).1.errors == s.errors,
        keeps(s.env, interp_bindings(bs, n, s).1.env),
        adds_only(s.env, interp_bindings(bs, n, s).1.env, bindings_binders(bs, n)),
    decreases bs, n,
{
    if n > 0 {
        let before = interp_bindings(bs, (n - 1) as nat, s);
        let x = bs[n - 1].0;
        assert(before.0);
        lemma_bindings_bind(bs, (n - 1) as nat, s);
        let value = interp_spec(bs[n - 1].1, before.1);
        lemma_run_binds(bs[n - 1].1, before.1);
        let v = value.0->Some_0;
        let after = interp_bindings(bs, n, s).1;
        assert(after.env == value.1.env.push((x, Expr::Int(v))));
        assert(all_ints(after.env)) by {
            assert forall|i: int| 0 <= i < after.env.len() implies (#[trigger] after.env[i]).1 is Int by {
                if i < value.1.env.len() {
                    assert(after.env[i] == value.1.env[i]);
                }
            }
        }
        let names = bindings_binders(bs, n);
        let earlier = bindings_binders(bs, (n - 1) as nat);
        assert forall|y: Seq<char>| lookup_spec(s.env, y) is Some implies #[trigger] lookup_spec(
            after.env,
            y,
        ) == lookup_spec(s.env, y) by {
            lemma_lookup_push(value.1.env, x, Expr::Int(v), y);
            assert(lookup_spec(before.1.env, y) == lookup_spec(s.env, y));
            assert(lookup_spec(value.1.env, y) == lookup_spec(before.1.env, y));
        }
        assert forall|y: Seq<char>|
            #[trigger] lookup_spec(after.env, y) is Some && lookup_spec(s.env, y) is None
                implies names.contains(y) by {
            lemma_lookup_push(value.1.env, x, Expr::Int(v), y);
            lemma_contains_add(earlier.push(x), binders(bs[n - 1].1), y);
            if y == x {
                assert(earlier.push(x)[earlier.len() as int] == x);
            } else if lookup_spec(before.1.env, y) is Some {
                assert(earlier.contains(y));
                let i = choose|i: int| 0 <= i < earlier.len() && earlier[i] == y;
                assert(earlier.push(x)[i] == y);
            } else {
                assert(lookup_spec(value.1.env, y) is Some);
                assert(binders(bs[n - 1].1).contains(y));
            }
        }
    }
}

/// The first `n` bindings are made alike in two lists that start with the
/// same `n` bindings.
pub proof fn lemma_bindings_prefix(
    a: Seq<(Seq<char>, Expr)>,
    b: Seq<(Seq<char>, Expr)>,
    n: nat,
    s: AstState,
)
    requires
        n <= a.len(),
        n <= b.len(),
        forall|i: int| 0 <= i < n ==> a[i] == b[i],
    ensures
        interp_bindings(a, n, s) == interp_bindings(b, n, s),
    decreases n,
{
    if n > 0 {
        lemma_bindings_prefix(a, b, (n - 1) as nat, s);
    }
}

/// Making the bindings of two lists put together is making those of the
/// first and then those of the second.
pub proof fn lemma_bindings_add(
    a: Seq<(Seq<char>, Expr)>,
    b: Seq<(Seq<char>, Expr)>,
    m: nat,
    s: AstState,
)
    requires
        m <= b.len(),
        interp_bindings(a, a.len(), s).0,
    ensures
        interp_bindings(a + b, a.len() + m, s) == interp_bindings(
            b,
            m,
            interp_bindings(a, a.len(), s).1,
        ),
    decreases m,
{
    if m == 0 {
        lemma_bindings_prefix(a + b, a, a.len(), s);
    } else {
        lemma_bindings_add(a, b, (m - 1) as nat, s);
        assert((a + b)[a.len() + m - 1] == b[m - 1]);
    }
}

/// A tree that the pass keeps the meaning of: it is well formed, none of
/// its names is the name of a temporary, and no `let` binds a name that is
/// bound again inside the expression it is bound to.
pub open spec fn tidy(e: Expr) -> bool
    decreases e,
{
    match e {
        Expr::Int(_) => true,
        Expr::Var { name } => !is_temp(name),
        Expr::Error { .. } => false,
        Expr::Prim { op, args } => known_op(op, args.len()) && forall|i: int|
            0 <= i < args.len() ==> tidy(#[trigger] args[i]),
        Expr::Let { bindings, body } => tidy(*body) && forall|i: int|
            0 <= i < bindings.len() ==> {
                &&& !is_temp((#[trigger] bindings[i]).0)
                &&& !binders(bindings[i].1).contains(bindings[i].0)
                &&& tidy(bindings[i].1)
            },
    }
}

/// Every name that is no temporary's is bound alike in both environments.
pub open spec fn agrees(s: Seq<(Seq<char>, Expr)>, t: Seq<(Seq<char>, Expr)>) -> bool {
    forall|x: Seq<char>| !is_temp(x) ==> #[trigger] lookup_spec(t, x) == lookup_spec(s, x)
}

/// No temporary from the `k`-th on is bound.
pub open spec fn fresh_from(t: Seq<(Seq<char>, Expr)>, k: nat) -> bool {
    forall|j: nat| j >= k ==> lookup_spec(t, #[trigger] tmp_name(j)) is None
}

/// The state of a run of the normal form matches that of a run of the
/// tree: the same cache, and environments of integers that bind alike
/// all but the temporaries, of which none from the `k`-th on is bound.
pub open spec fn matching(s: AstState, t: AstState, k: nat) -> bool {
    &&& all_ints(s.env)
    &&& all_ints(t.env)
    &&& agrees(s.env, t.env)
    &&& fresh_from(t.env, k)
    &&& s.cache == t.cache
}

proof fn lemma_push_int(env: Seq<(Seq<char>, Expr)>, x: Seq<char>, v: i64)
    requires
        all_ints(env),
    ensures
        all_ints(env.push((x, Expr::Int(v)))),
{
    let more = env.push((x, Expr::Int(v)));
    assert forall|i: int| 0 <= i < more.len() implies (#[trigger] more[i]).1 is Int by {
        if i < env.len() {
            assert(more[i] == env[i]);
        }
    }
}

/// An atom that had a value in the tree's run has it in the other run,
/// also later, when more was bound.
proof fn lemma_atom_later(a: Expr, s: AstState, later: AstState, t: AstState)
    requires
        is_atom(a),
        tidy(a),
        all_ints(s.env),
        all_ints(later.env),
        all_ints(t.env),
        interp_spec(a, s).0 is Some,
        keeps(s.env, later.env),
        agrees(later.env, t.env),
    ensures
        interp_spec(a, t) == (interp_spec(a, s).0, t),
{
    match a {
        Expr::Var { name } => {
            lemma_value_is_lookup(s.env, name);
            lemma_value_is_lookup(t.env, name);
            assert(lookup_spec(s.env, name) is Some);
            assert(lookup_spec(later.env, name) == lookup_spec(s.env, name));
            assert(lookup_spec(t.env, name) == lookup_spec(later.env, name));
        },
        _ => {},
    }
}

proof fn lemma_keeps_itself(env: Seq<(Seq<char>, Expr)>)
    ensures
        keeps(env, env),
{
}

/// A temporary that was just bound stands for its value.
proof fn lemma_temp_value(t: AstState, k: nat, v: i64)
    requires
        all_ints(t.env),
        lookup_spec(t.env, tmp_name(k)) == Some(Expr::Int(v)),
    ensures
        interp_spec(Expr::Var { name: tmp_name(k) }, t) == (Some(v), t),
{
    lemma_value_is_lookup(t.env, tmp_name(k));
}

/// An operand keeps its value: the binding that it hoists, if any, can be
/// made in the matching state, and leaves a matching state in which the
/// temporary stands for the operand's value.
pub proof fn lemma_atom_keeps(e: Expr, k: nat, s: AstState, t: AstState)
    requires
        tidy(e),
        matching(s, t, k),
        interp_spec(e, s).0 is Some,
    ensures
        ({
            let a = rco_atom_spec(e, k);
            let made = interp_bindings(hoisted(a, k), hoisted(a, k).len(), t);
            let o = interp_spec(e, s);
            &&& made.0
            &&& matching(o.1, made.1, a.next)
            &&& made.1.errors == t.errors
            &&& a.next >= k
            &&& a.bound is Some ==> a.atom == (Expr::Var { name: tmp_name(k) }) && lookup_spec(
                made.1.env,
                tmp_name(k),
            ) == Some(Expr::Int(o.0->Some_0))
            &&& a.bound is None ==> a.atom == e && is_atom(e) && made.1 == t && o.1 == s
        }),
    decreases e, 2int,
{
    let a = rco_atom_spec(e, k);
    let o = interp_spec(e, s);
    lemma_run_binds(e, s);
    lemma_rco_counter(e, k);
    if is_atom(e) {
        assert(hoisted(a, k).len() == 0);
    } else {
        let r = rco_expr_spec(e, k + 1);
        lemma_rco_counter(e, k + 1);
        assert(fresh_from(t.env, k + 1));
        lemma_expr_keeps(e, k + 1, s, t);
        let p = interp_spec(r.0, t);
        let v = o.0->Some_0;
        let h = hoisted(a, k);
        assert(h.len() == 1 && h[0] == (tmp_name(k), r.0));
        assert(interp_bindings(h, 0, t) == (true, t));
        assert(lookup_spec(t.env, tmp_name(k)) is None);
        let made = interp_bindings(h, 1, t);
        let env = p.1.env.push((tmp_name(k), Expr::Int(v)));
        assert(made.1.env == env);
        lemma_push_int(p.1.env, tmp_name(k), v);
        assert forall|x: Seq<char>| !is_temp(x) implies #[trigger] lookup_spec(env, x)
            == lookup_spec(o.1.env, x) by {
            lemma_lookup_push(p.1.env, tmp_name(k), Expr::Int(v), x);
            assert(lookup_spec(p.1.env, x) == lookup_spec(o.1.env, x));
        }
        assert forall|j: nat| j >= a.next implies lookup_spec(env, #[trigger] tmp_name(j)) is None by {
            lemma_lookup_push(p.1.env, tmp_name(k), Expr::Int(v), tmp_name(j));
            if tmp_name(j) == tmp_name(k) {
                lemma_tmp_name_injective(j, k);
            }
        }
        lemma_lookup_push(p.1.env, tmp_name(k), Expr::Int(v), tmp_name(k));
    }
}

/// A tree keeps its value: where the tree's run has a value, the run of
/// its normal form from a matching state has the same value, adds no
/// error, and leaves a matching state.
pub proof fn lemma_expr_keeps(e: Expr, k: nat, s: AstState, t: AstState)
    requires
        tidy(e),
        matching(s, t, k),
        interp_spec(e, s).0 is Some,
    ensures
        interp_spec(rco_expr_spec(e, k).0, t).0 == interp_spec(e, s).0,
        matching(interp_spec(e, s).1, interp_spec(rco_expr_spec(e, k).0, t).1, rco_expr_spec(e, k).1),
        interp_spec(rco_expr_spec(e, k).0, t).1.errors == t.errors,
    decreases e, 1int,
{
    lemma_ops_differ();
    let o = interp_spec(e, s);
    lemma_run_binds(e, s);
    match e {
        Expr::Prim { op, args } => {
            if op == op_neg() && args.len() == 1 {
                let a0 = args[0];
                assert(tidy(a0));
                let o0 = interp_spec(a0, s);
                lemma_atom_keeps(a0, k, s, t);
                let a = rco_atom_spec(a0, k);
                let h = hoisted(a, k);
                let made = interp_bindings(h, h.len(), t);
                let out = rco_expr_spec(e, k);
                if a.bound is Some {
                    lemma_temp_value(made.1, k, o0.0->Some_0);
                    let body = Expr::Prim { op, args: seq![a.atom] };
                    assert(out.0 == (Expr::Let { bindings: h, body: Box::new(body) }));
                    assert(interp_spec(a.atom, made.1) == (o0.0, made.1));
                    assert(interp_spec(body, made.1) == (o.0, made.1));
                    assert(interp_spec(out.0, t) == (o.0, made.1));
                } else {
                    lemma_keeps_itself(s.env);
                    lemma_atom_later(a0, s, s, t);
                    assert(out == (e, k));
                    assert(interp_spec(e, t) == (o.0, t));
                }
            } else if op == op_add() && args.len() == 2 {
                let a0 = args[0];
                let a1 = args[1];
                assert(tidy(a0) && tidy(a1));
                let o0 = interp_spec(a0, s);
                let o1 = interp_spec(a1, o0.1);
                lemma_run_binds(a0, s);
                lemma_run_binds(a1, o0.1);
                lemma_atom_keeps(a0, k, s, t);
                let l = rco_atom_spec(a0, k);
                let hl = hoisted(l, k);
                let made_l = interp_bindings(hl, hl.len(), t);
                lemma_atom_keeps(a1, l.next, o0.1, made_l.1);
                let r = rco_atom_spec(a1, l.next);
                let hr = hoisted(r, l.next);
                let made_r = interp_bindings(hr, hr.len(), made_l.1);
                if l.bound is Some || r.bound is Some {
                    lemma_bindings_add(hl, hr, hr.len(), t);
                    lemma_bindings_bind(hr, hr.len(), made_l.1);
                    let last = made_r.1;
                    // the left operand, looked at after the right one was computed
                    if l.bound is Some {
                        assert(lookup_spec(last.env, tmp_name(k)) == lookup_spec(
                            made_l.1.env,
                            tmp_name(k),
                        ));
                        lemma_temp_value(last, k, o0.0->Some_0);
                    } else {
                        lemma_atom_later(a0, s, o1.1, last);
                    }
                    if r.bound is Some {
                        lemma_temp_value(last, l.next, o1.0->Some_0);
                    } else {
                        lemma_keeps_itself(o0.1.env);
                        lemma_atom_later(a1, o0.1, o0.1, last);
                    }
                    let body = Expr::Prim { op, args: seq![l.atom, r.atom] };
                    let out = rco_expr_spec(e, k);
                    assert(out.0 == (Expr::Let { bindings: hl + hr, body: Box::new(body) }));
                    assert(interp_bindings(hl + hr, (hl + hr).len(), t) == made_r);
                    assert(interp_spec(l.atom, last) == (o0.0, last));
                    assert(interp_spec(r.atom, last) == (o1.0, last));
                    assert(interp_spec(body, last) == (o.0, last));
                    assert(interp_spec(out.0, t) == (o.0, last));
                } else {
                    lemma_keeps_itself(s.env);
                    lemma_atom_later(a0, s, s, t);
                    lemma_atom_later(a1, s, s, t);
                    assert(rco_expr_spec(e, k) == (e, k));
                    assert(interp_spec(e, t) == (o.0, t));
                }
            } else {
                assert(op == op_read() && args.len() == 0);
                assert(rco_expr_spec(e, k) == (e, k));
            }
        },
        Expr::Let { bindings, body } => {
            let made = interp_bindings(bindings, bindings.len(), s);
            lemma_bindings_keep(bindings, bindings.len(), k, s, t, e);
            let nb = rco_bindings_spec(bindings, bindings.len(), k);
            let made_t = interp_bindings(nb.bindings, nb.bindings.len(), t);
            lemma_expr_keeps(*body, nb.next, made.1, made_t.1);
        },
        Expr::Var { name } => {
            lemma_keeps_itself(s.env);
            lemma_atom_later(e, s, s, t);
        },
        _ => {},
    }
}

/// The bindings of a `let` keep their values: where the first `n` could
/// be made in the tree's run, their normal forms can be made from a
/// matching state, and leave a matching state.
pub proof fn lemma_bindings_keep(
    bs: Seq<(Seq<char>, Expr)>,
    n: nat,
    k: nat,
    s: AstState,
    t: AstState,
    whole: Expr,
)
    requires
        n <= bs.len(),
        whole is Let,
        whole->Let_bindings == bs,
        tidy(whole),
        matching(s, t, k),
        interp_bindings(bs, n, s).0,
    ensures
        ({
            let nb = rco_bindings_spec(bs, n, k);
            let made = interp_bindings(nb.bindings, nb.bindings.len(), t);
            &&& made.0
            &&& matching(interp_bindings(bs, n, s).1, made.1, nb.next)
            &&& made.1.errors == t.errors
        }),
    decreases whole, 0int, n,
{
    if n > 0 {
        let m = (n - 1) as nat;
        let before = interp_bindings(bs, m, s);
        assert(before.0);
        lemma_bindings_keep(bs, m, k, s, t, whole);
        let pnb = rco_bindings_spec(bs, m, k);
        let before_t = interp_bindings(pnb.bindings, pnb.bindings.len(), t);
        let x = bs[n - 1].0;
        let rhs = bs[n - 1].1;
        assert(!is_temp((whole->Let_bindings[n - 1]).0) && !binders(rhs).contains(x) && tidy(rhs));
        assert(decreases_to!(whole => bs));
        assert(decreases_to!(bs => bs[n - 1]));
        assert(decreases_to!(bs[n - 1] => bs[n - 1].1));
        let value = interp_spec(rhs, before.1);
        let v = value.0->Some_0;
        lemma_run_binds(rhs, before.1);
        lemma_expr_keeps(rhs, pnb.next, before.1, before_t.1);
        let r = rco_expr_spec(rhs, pnb.next);
        let value_t = interp_spec(r.0, before_t.1);
        let nb = rco_bindings_spec(bs, n, k);
        let after = interp_bindings(bs, n, s).1;
        assert(after.env == value.1.env.push((x, Expr::Int(v))));
        // where the name is bound in the other run, and that it is free there
        let (front, held, expr) = match r.0 {
            Expr::Let { bindings, body } => (
                pnb.bindings + bindings,
                interp_bindings(bindings, bindings.len(), before_t.1).1,
                *body,
            ),
            _ => (pnb.bindings, before_t.1, r.0),
        };
        let last = seq![(x, expr)];
        assert(nb.bindings =~= front + last);
        match r.0 {
            Expr::Let { bindings, body } => {
                lemma_bindings_add(pnb.bindings, bindings, bindings.len(), t);
                lemma_bindings_bind(bindings, bindings.len(), before_t.1);
                lemma_run_binds(*body, held);
                assert(lookup_spec(value.1.env, x) is None) by {
                    if lookup_spec(value.1.env, x) is Some {
                        assert(binders(rhs).contains(x));
                    }
                }
                assert(lookup_spec(value_t.1.env, x) == lookup_spec(value.1.env, x));
                assert(lookup_spec(held.env, x) is None) by {
                    if lookup_spec(held.env, x) is Some {
                        assert(lookup_spec(value_t.1.env, x) == lookup_spec(held.env, x));
                    }
                }
            },
            _ => {
                assert(lookup_spec(before_t.1.env, x) == lookup_spec(before.1.env, x));
            },
        }
        assert(interp_bindings(front, front.len(), t) == (true, held));
        assert(interp_spec(expr, held) == value_t);
        lemma_bindings_add(front, last, 1, t);
        assert(interp_bindings(last, 0, held) == (true, held));
        let made = interp_bindings(last, 1, held);
        let env = value_t.1.env.push((x, Expr::Int(v)));
        assert(made.0 && made.1.env == env);
        lemma_push_int(value_t.1.env, x, v);
        lemma_push_int(value.1.env, x, v);
        assert forall|y: Seq<char>| !is_temp(y) implies #[trigger] lookup_spec(env, y)
            == lookup_spec(after.env, y) by {
            lemma_lookup_push(value_t.1.env, x, Expr::Int(v), y);
            lemma_lookup_push(value.1.env, x, Expr::Int(v), y);
            assert(lookup_spec(value_t.1.env, y) == lookup_spec(value.1.env, y));
        }
        assert forall|j: nat| j >= nb.next implies lookup_spec(env, #[trigger] tmp_name(j)) is None by {
            lemma_lookup_push(value_t.1.env, x, Expr::Int(v), tmp_name(j));
        }
    } else {
        let nb = rco_bindings_spec(bs, 0, k);
        assert(nb.bindings.len() == 0);
    }
}

/// The pass keeps what a program means. Where the run of a tidy tree has
/// a value, the run of its normal form, from the same cache and the same
/// errors, has the same value, leaves the same cache (it has made the same
/// reads in the same order) and adds no error.
pub proof fn lemma_decomplify_keeps(e: Expr, s: AstState)
    requires
        tidy(e),
        s.env.len() == 0,
        interp_spec(e, s).0 is Some,
    ensures
        interp_spec(rco_expr_spec(e, 0).0, s).0 == interp_spec(e, s).0,
        interp_spec(rco_expr_spec(e, 0).0, s).1.cache == interp_spec(e, s).1.cache,
        interp_spec(rco_expr_spec(e, 0).0, s).1.errors == s.errors,
        interp_spec(e, s).1.errors == s.errors,
{
    assert forall|x: Seq<char>| lookup_spec(s.env, x) is None by {}
    lemma_run_binds(e, s);
    lemma_expr_keeps(e, 0, s, s);
}

/// No variable and no bound name of the tree is the name of a temporary.
pub open spec fn no_temps(e: Expr) -> bool
    decreases e,
{
    match e {
        Expr::Var { name } => !is_temp(name),
        Expr::Prim { op, args } => forall|i: int|
            0 <= i < args.len() ==> no_temps(#[trigger] args[i]),
        Expr::Let { bindings, body } => no_temps(*body) && forall|i: int|
            0 <= i < bindings.len() ==> !is_temp((#[trigger] bindings[i]).0) && no_temps(
                bindings[i].1,
            ),
        _ => true,
    }
}

/// Every name bound in a tree is bound at the tree's depth or deeper.
proof fn lemma_depths(e: Expr, depth: nat)
    ensures
        forall|i: int|
            0 <= i < scoped_binders(e, depth).len() ==> (#[trigger] scoped_binders(e, depth)[i]).1
                >= depth,
    decreases e, 1int,
{
    match e {
        Expr::Prim { op, args } => {
            lemma_args_depths(args, args.len(), depth, e);
            assert(scoped_binders(e, depth) == scoped_args(args, args.len(), depth));
        },
        Expr::Let { bindings, body } => {
            lemma_bindings_depths(bindings, bindings.len(), depth, e);
            lemma_depths(*body, depth + 1);
            let a = scoped_bindings(bindings, bindings.len(), depth);
            let b = scoped_binders(*body, depth + 1);
            assert forall|i: int| 0 <= i < (a + b).len() implies (#[trigger] (a + b)[i]).1
                >= depth by {
                if i >= a.len() {
                    assert((a + b)[i] == b[i - a.len()]);
                }
            }
        },
        _ => {},
    }
}

proof fn lemma_args_depths(args: Seq<Expr>, n: nat, depth: nat, whole: Expr)
    requires
        n <= args.len(),
        whole is Prim,
        whole->Prim_args == args,
    ensures
        forall|i: int|
            0 <= i < scoped_args(args, n, depth).len() ==> (#[trigger] scoped_args(
                args,
                n,
                depth,
            )[i]).1 >= depth,
    decreases whole, 0int, n,
{
    if n > 0 {
        lemma_args_depths(args, (n - 1) as nat, depth, whole);
        assert(decreases_to!(whole => args));
        assert(decreases_to!(args => args[n - 1]));
        lemma_depths(args[n - 1], depth);
        let a = scoped_args(args, (n - 1) as nat, depth);
        let b = scoped_binders(args[n - 1], depth);
        assert forall|i: int| 0 <= i < (a + b).len() implies (#[trigger] (a + b)[i]).1 >= depth by {
            if i >= a.len() {
                assert((a + b)[i] == b[i - a.len()]);
            }
        }
    }
}

proof fn lemma_bindings_depths(bs: Seq<(Seq<char>, Expr)>, n: nat, depth: nat, whole: Expr)
    requires
        n <= bs.len(),
        whole is Let,
        whole->Let_bindings == bs,
    ensures
        forall|i: int|
            0 <= i < scoped_bindings(bs, n, depth).len() ==> (#[trigger] scoped_bindings(
                bs,
                n,
                depth,
            )[i]).1 >= depth,
    decreases whole, 0int, n,
{
    if n > 0 {
        lemma_bindings_depths(bs, (n - 1) as nat, depth, whole);
        assert(decreases_to!(whole => bs));
        assert(decreases_to!(bs => bs[n - 1]));
        assert(decreases_to!(bs[n - 1] => bs[n - 1].1));
        lemma_depths(bs[n - 1].1, depth + 1);
        let a = scoped_bindings(bs, (n - 1) as nat, depth).push((bs[n - 1].0, depth));
        let b = scoped_binders(bs[n - 1].1, depth + 1);
        assert forall|i: int| 0 <= i < (a + b).len() implies (#[trigger] (a + b)[i]).1 >= depth by {
            if i >= a.len() {
                assert((a + b)[i] == b[i - a.len()]);
            } else if i < a.len() - 1 {
                assert(a[i] == scoped_bindings(bs, (n - 1) as nat, depth)[i]);
            }
        }
    }
}

/// What uniquify makes of a well-formed tree is tidy, where none of its
/// names is the name of a temporary: no `let` binds a name that is bound
/// again inside the expression it is bound to, because what is bound
/// inside is bound deeper.
pub proof fn lemma_uniquified_tidy(frames: Seq<Frame>, e: Expr)
    requires
        well_formed(e),
        no_temps(uniquify_spec(frames, e)),
    ensures
        tidy(uniquify_spec(frames, e)),
    decreases e, 1int,
{
    let out = uniquify_spec(frames, e);
    match e {
        Expr::Prim { op, args } => {
            let made = out->Prim_args;
            assert forall|i: int| 0 <= i < made.len() implies tidy(#[trigger] made[i]) by {
                assert(well_formed(args[i]));
                assert(no_temps(made[i]));
                lemma_uniquified_tidy(frames, args[i]);
            }
        },
        Expr::Let { bindings, body } => {
            let made = uniquify_bindings(frames, bindings, bindings.len());
            lemma_bindings_made(frames, bindings, bindings.len(), bindings.len());
            assert(out->Let_bindings == made.1);
            lemma_uniquified_bindings_tidy(frames, bindings, bindings.len(), e);
            lemma_uniquified_tidy(frames.push(made.0), *body);
        },
        _ => {},
    }
}

proof fn lemma_uniquified_bindings_tidy(
    frames: Seq<Frame>,
    bs: Seq<(Seq<char>, Expr)>,
    n: nat,
    whole: Expr,
)
    requires
        n <= bs.len(),
        whole is Let,
        whole->Let_bindings == bs,
        well_formed(whole),
        forall|i: int|
            0 <= i < n ==> !is_temp((#[trigger] uniquify_bindings(frames, bs, bs.len()).1[i]).0)
                && no_temps(uniquify_bindings(frames, bs, bs.len()).1[i].1),
        uniquify_bindings(frames, bs, bs.len()).1.len() == bs.len(),
    ensures
        uniquify_bindings(frames, bs, n).1.len() == n,
        forall|i: int|
            0 <= i < n ==> uniquify_bindings(frames, bs, n).1[i] == uniquify_bindings(
                frames,
                bs,
                bs.len(),
            ).1[i],
        forall|i: int|
            0 <= i < n ==> {
                &&& !is_temp((#[trigger] uniquify_bindings(frames, bs, n).1[i]).0)
                &&& !binders(uniquify_bindings(frames, bs, n).1[i].1).contains(
                    uniquify_bindings(frames, bs, n).1[i].0,
                )
                &&& tidy(uniquify_bindings(frames, bs, n).1[i].1)
            },
    decreases whole, 0int, n,
{
    lemma_bindings_made(frames, bs, n, bs.len());
    if n > 0 {
        let before = uniquify_bindings(frames, bs, (n - 1) as nat);
        let made = uniquify_bindings(frames, bs, n);
        let all = uniquify_bindings(frames, bs, bs.len());
        lemma_uniquified_bindings_tidy(frames, bs, (n - 1) as nat, whole);
        let depth = frames.len() + 1;
        let inner = frames.push(before.0);
        let name = unique_name(bs[n - 1].0, depth);
        let value = uniquify_spec(inner, bs[n - 1].1);
        assert(made.1[n - 1] == (name, value));
        assert(all.1[n - 1] == made.1[n - 1]);
        assert(well_formed((whole->Let_bindings[n - 1]).1));
        assert(decreases_to!(whole => bs));
        assert(decreases_to!(bs => bs[n - 1]));
        assert(decreases_to!(bs[n - 1] => bs[n - 1].1));
        lemma_uniquified_tidy(inner, bs[n - 1].1);
        lemma_uniquify_binders(inner, bs[n - 1].1);
        let scoped = scoped_binders(bs[n - 1].1, depth + 1);
        lemma_depths(bs[n - 1].1, depth + 1);
        assert(!binders(value).contains(name)) by {
            if binders(value).contains(name) {
                let i = choose|i: int| 0 <= i < binders(value).len() && binders(value)[i] == name;
                assert(renamed(scoped)[i] == unique_name(scoped[i].0, scoped[i].1));
                lemma_unique_name_injective(scoped[i].0, scoped[i].1, bs[n - 1].0, depth);
            }
        }
        assert forall|i: int| 0 <= i < n implies {
            &&& !is_temp((#[trigger] made.1[i]).0)
            &&& !binders(made.1[i].1).contains(made.1[i].0)
            &&& tidy(made.1[i].1)
        } by {
            if i < n - 1 {
                assert(made.1[i] == before.1[i]);
            }
        }
    }
}

/// The first bindings that uniquify makes do not change when it goes on.
proof fn lemma_bindings_made(frames: Seq<Frame>, bs: Seq<(Seq<char>, Expr)>, m: nat, n: nat)
    requires
        m <= n <= bs.len(),
    ensures
        uniquify_bindings(frames, bs, m).1.len() == m,
        uniquify_bindings(frames, bs, n).1.len() == n,
        forall|i: int|
            0 <= i < m ==> uniquify_bindings(frames, bs, n).1[i] == uniquify_bindings(
                frames,
                bs,
                m,
            ).1[i],
    decreases n,
{
    if n > 0 {
        if m < n {
            lemma_bindings_made(frames, bs, m, (n - 1) as nat);
        } else {
            lemma_bindings_made(frames, bs, (n - 1) as nat, (n - 1) as nat);
        }
    }
}

} // verus!
