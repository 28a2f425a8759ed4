//! Uniquify: every `let`-bound name gets the depth of its `let` as a
//! suffix, so that a name bound again further in no longer hides the
//! outer one.

use crate::ast::AstNode;
use crate::ast::bindings_of;
use crate::ast::clone_node;
use crate::ast::Expr;
use crate::ast::exprs_of;
use crate::ast::lemma_view_let;
use crate::ast::lemma_view_prim;
use crate::ast::LetBinding;
use crate::ast::Program;
use crate::ast::well_formed;
use crate::text::decimal;
use crate::text::is_digit;
use crate::text::lemma_decimal_digits;
use crate::text::lemma_decimal_injective;
use crate::text::push_decimal;
use vstd::prelude::*;

verus! {

/// A frame: the names that one `let` has bound so far, each with its new name.
pub type Frame = Seq<(Seq<char>, Seq<char>)>;

/// The new name of a name bound by a `let` at `depth` (the outermost `let`
/// is at depth 1).
pub open spec fn unique_name(name: Seq<char>, depth: nat) -> Seq<char> {
    name + "."@ + decimal(depth)
}

/// The new name that the frame gives `name`: that of its latest binding there.
pub open spec fn frame_lookup(frame: Frame, name: Seq<char>) -> Option<Seq<char>>
    decreases frame.len(),
{
    if frame.len() == 0 {
        None
    } else if frame.last().0 == name {
        Some(frame.last().1)
    } else {
        frame_lookup(frame.drop_last(), name)
    }
}

/// What a variable is called after the pass: the new name from the
/// innermost frame that binds it, or its own name where none does.
pub open spec fn resolve(frames: Seq<Frame>, name: Seq<char>) -> Seq<char>
    decreases frames.len(),
{
    if frames.len() == 0 {
        name
    } else {
        match frame_lookup(frames.last(), name) {
            Some(renamed) => renamed,
            None => resolve(frames.drop_last(), name),
        }
    }
}

/// The tree with every bound name made unique, inside the given frames.
/// A `let` opens a frame; each of its bindings is renamed with the frame
/// as its earlier bindings left it, and only then enters the frame; the
/// body is renamed with the whole frame.
pub open spec fn uniquify_spec(frames: Seq<Frame>, e: Expr) -> Expr
    decreases e, 0int,
{
    match e {
        Expr::Int(_) => e,
        Expr::Error { .. } => e,
        Expr::Var { name } => Expr::Var { name: resolve(frames, name) },
        Expr::Prim { op, args } => Expr::Prim {
            op,
            args: Seq::new(
                args.len(),
                |i: int|
                    if 0 <= i < args.len() {
                        uniquify_spec(frames, args[i])
                    } else {
                        Expr::Int(0)
                    },
            ),
        },
        Expr::Let { bindings, body } => {
            let renamed = uniquify_bindings(frames, bindings, bindings.len());
            Expr::Let {
                bindings: renamed.1,
                body: Box::new(uniquify_spec(frames.push(renamed.0), *body)),
            }
        },
    }
}

/// The frame and the renamed bindings after the first `n` bindings of a
/// `let` inside `frames`.
pub open spec fn uniquify_bindings(frames: Seq<Frame>, bs: Seq<(Seq<char>, Expr)>, n: nat) -> (
    Frame,
    Seq<(Seq<char>, Expr)>,
)
    decreases bs, n,
{
    if n == 0 || n > bs.len() {
        (Seq::empty(), Seq::empty())
    } else {
        let before = uniquify_bindings(frames, bs, (n - 1) as nat);
        let new_name = unique_name(bs[n - 1].0, frames.len() + 1);
        let value = uniquify_spec(frames.push(before.0), bs[n - 1].1);
        (before.0.push((bs[n - 1].0, new_name)), before.1.push((new_name, value)))
    }
}

/// The frame as a plain value.
pub open spec fn frame_view(v: Seq<(String, String)>) -> Frame {
    Seq::new(v.len(), |i: int| (v[i].0@, v[i].1@))
}

/// The frames as plain values, the outermost first.
pub open spec fn frames_view(v: Seq<Vec<(String, String)>>) -> Seq<Frame> {
    Seq::new(v.len(), |i: int| frame_view(v[i]@))
}

/// The new name that the frame gives `name`, if it binds it.
fn lookup_frame<'b>(frame: &'b Vec<(String, String)>, name: &String) -> (r: Option<&'b String>)
    ensures
        r is Some <==> frame_lookup(frame_view(frame@), name@) is Some,
        r matches Some(renamed) ==> frame_lookup(frame_view(frame@), name@) == Some(renamed@),
{
    let ghost all = frame_view(frame@);
    let mut j: usize = frame.len();
    assert(all.take(j as int) =~= all);
    while j > 0
        invariant
            j <= frame@.len(),
            all == frame_view(frame@),
            frame_lookup(all, name@) == frame_lookup(all.take(j as int), name@),
        decreases j,
    {
        let ghost head = all.take(j as int);
        assert(head.last() == all[j - 1]);
        assert(head.drop_last() =~= all.take(j - 1));
        if frame[j - 1].0 == *name {
            return Some(&frame[j - 1].1);
        }
        j -= 1;
    }
    None
}

/// What a variable is called after the pass.
fn resolve_name(environments: &Vec<Vec<(String, String)>>, name: String) -> (r: String)
    ensures
        r@ == resolve(frames_view(environments@), name@),
{
    let ghost all = frames_view(environments@);
    let mut i: usize = environments.len();
    assert(all.take(i as int) =~= all);
    while i > 0
        invariant
            i <= environments@.len(),
            all == frames_view(environments@),
            resolve(all, name@) == resolve(all.take(i as int), name@),
        decreases i,
    {
        let ghost head = all.take(i as int);
        assert(head.last() == all[i - 1]);
        assert(head.drop_last() =~= all.take(i - 1));
        match lookup_frame(&environments[i - 1], &name) {
            Some(renamed) => {
                return renamed.clone();
            },
            None => {},
        }
        i -= 1;
    }
    name
}

fn uniquify_exp(environments: &mut Vec<Vec<(String, String)>>, e: AstNode) -> (r: AstNode)
    ensures
        r@ == uniquify_spec(frames_view(old(environments)@), e@),
        frames_view(final(environments)@) == frames_view(old(environments)@),
    decreases e@,
{
    let ghost frames = frames_view(environments@);
    let ghost e0 = e@;
    match e {
        AstNode::Int(n) => AstNode::Int(n),
        AstNode::Error { msg, token } => AstNode::Error { msg, token },
        AstNode::Var { name } => AstNode::Var { name: resolve_name(environments, name) },
        AstNode::Prim { op, args } => {
            proof {
                lemma_view_prim(op, args);
            }
            let ghost args0 = exprs_of(args@);
            let mut new_args: Vec<AstNode> = Vec::new();
            let mut i: usize = 0;
            while i < args.len()
                invariant
                    i <= args@.len(),
                    args0 == exprs_of(args@),
                    e0 == e@,
                    e0 == (Expr::Prim { op: op@, args: args0 }),
                    frames_view(environments@) == frames,
                    new_args@.len() == i,
                    forall|j: int|
                        0 <= j < i ==> (#[trigger] new_args@[j])@ == uniquify_spec(frames, args0[j]),
                decreases args.len() - i,
            {
                proof {
                    assert(e0->Prim_args == args0);
                    assert(decreases_to!(e0 => args0));
                    assert(decreases_to!(args0 => args0[i as int]));
                }
                let new_arg_expr = uniquify_exp(environments, clone_node(&args[i]));
                new_args.push(new_arg_expr);
                i += 1;
            }
            proof {
                lemma_view_prim(op, new_args);
                assert(exprs_of(new_args@) =~= uniquify_spec(frames, e0)->Prim_args);
            }
            AstNode::Prim { op, args: new_args }
        },
        AstNode::Let { bindings, body } => {
            proof {
                lemma_view_let(bindings, body);
            }
            let ghost bs = bindings_of(bindings@);
            environments.push(Vec::new());
            let last = environments.len() - 1;
            assert(frames_view(environments@) =~~= frames.push(Seq::empty()));
            let mut unique_bindings: Vec<LetBinding> = Vec::new();
            assert(bindings_of(unique_bindings@) =~= uniquify_bindings(frames, bs, 0).1);
            let mut i: usize = 0;
            while i < bindings.len()
                invariant
                    i <= bindings@.len(),
                    bs == bindings_of(bindings@),
                    e0 == e@,
                    e0 == (Expr::Let { bindings: bs, body: Box::new(body@) }),
                    environments@.len() == frames.len() + 1,
                    last == frames.len(),
                    last < environments.len(),
                    frames_view(environments@) == frames.push(
                        uniquify_bindings(frames, bs, i as nat).0,
                    ),
                    bindings_of(unique_bindings@) == uniquify_bindings(frames, bs, i as nat).1,
                decreases bindings.len() - i,
            {
                let ghost before = uniquify_bindings(frames, bs, i as nat);
                proof {
                    assert(e0->Let_bindings == bs);
                    assert(decreases_to!(e0 => bs));
                    assert(decreases_to!(bs => bs[i as int]));
                    assert(decreases_to!(bs[i as int] => bs[i as int].1));
                }
                let the_var = bindings[i].identifier.clone();
                let the_expression = clone_node(&bindings[i].expr);
                let mut new_name = the_var.clone();
                new_name.append(".");
                push_decimal(&mut new_name, (last + 1) as u64);
                assert(new_name@ == unique_name(bs[i as int].0, frames.len() + 1));
                let unq_value = uniquify_exp(environments, the_expression);
                let ghost now = frames_view(environments@);
                assert(now.len() == environments@.len());
                environments[last].push((the_var, new_name.clone()));
                assert(frames_view(environments@) =~= frames.push(
                    before.0.push((bs[i as int].0, new_name@)),
                )) by {
                    assert(now[last as int] == before.0);
                    assert(frame_view(environments@[last as int]@) =~= before.0.push(
                        (bs[i as int].0, new_name@),
                    ));
                    assert forall|j: int| 0 <= j < frames.len() implies frames_view(
                        environments@,
                    )[j] == frames[j] by {
                        assert(now[j] == frames[j]);
                    }
                }
                let ghost listed = bindings_of(unique_bindings@);
                unique_bindings.push(LetBinding { identifier: new_name, expr: unq_value });
                assert(bindings_of(unique_bindings@) =~= listed.push(
                    (unique_name(bs[i as int].0, frames.len() + 1), unq_value@),
                ));
                i += 1;
            }
            let unq_body = uniquify_exp(environments, *body);
            let ghost full = frames_view(environments@);
            assert(full.len() == environments@.len());
            environments.pop();
            assert(frames_view(environments@) =~~= frames) by {
                assert(frames_view(environments@).len() == frames.len());
                assert forall|j: int| 0 <= j < frames.len() implies frames_view(environments@)[j]
                    == frames[j] by {
                    assert(full[j] == frames[j]);
                }
            }
            let unq_body = Box::new(unq_body);
            proof {
                lemma_view_let(unique_bindings, unq_body);
            }
            AstNode::Let { bindings: unique_bindings, body: unq_body }
        },
    }
}

/// The program with every bound name made unique.
pub fn uniquify_program(p: Program) -> (r: Program)
    ensures
        r@ == uniquify_spec(Seq::empty(), p@),
        well_formed(p@) ==> well_formed(r@),
{
    proof {
        if well_formed(p@) {
            lemma_uniquify_well_formed(Seq::empty(), p@);
        }
    }
    let mut environments: Vec<Vec<(String, String)>> = Vec::new();
    assert(frames_view(environments@) =~= Seq::empty());
    Program { info: p.info, exp: uniquify_exp(&mut environments, p.exp) }
}

/// The names that the `let`s of a tree bind, in the order of the tree.
pub open spec fn binders(e: Expr) -> Seq<Seq<char>>
    decreases e, 0int,
{
    match e {
        Expr::Prim { op, args } => args_binders(args, args.len()),
        Expr::Let { bindings, body } => bindings_binders(bindings, bindings.len()) + binders(*body),
        _ => Seq::empty(),
    }
}

/// The names bound inside the first `n` arguments.
pub open spec fn args_binders(args: Seq<Expr>, n: nat) -> Seq<Seq<char>>
    decreases args, n,
{
    if n == 0 || n > args.len() {
        Seq::empty()
    } else {
        args_binders(args, (n - 1) as nat) + binders(args[n - 1])
    }
}

/// The names that the first `n` bindings bind, each followed by those
/// bound inside its expression.
pub open spec fn bindings_binders(bs: Seq<(Seq<char>, Expr)>, n: nat) -> Seq<Seq<char>>
    decreases bs, n,
{
    if n == 0 || n > bs.len() {
        Seq::empty()
    } else {
        bindings_binders(bs, (n - 1) as nat).push(bs[n - 1].0) + binders(bs[n - 1].1)
    }
}

/// The names that the `let`s of a tree bind, each with the depth of its
/// `let`, where a `let` that stands directly in the tree is at `depth`.
pub open spec fn scoped_binders(e: Expr, depth: nat) -> Seq<(Seq<char>, nat)>
    decreases e, 0int,
{
    match e {
        Expr::Prim { op, args } => scoped_args(args, args.len(), depth),
        Expr::Let { bindings, body } => scoped_bindings(bindings, bindings.len(), depth)
            + scoped_binders(*body, depth + 1),
        _ => Seq::empty(),
    }
}

/// The names bound inside the first `n` arguments, each with its depth.
pub open spec fn scoped_args(args: Seq<Expr>, n: nat, depth: nat) -> Seq<(Seq<char>, nat)>
    decreases args, n,
{
    if n == 0 || n > args.len() {
        Seq::empty()
    } else {
        scoped_args(args, (n - 1) as nat, depth) + scoped_binders(args[n - 1], depth)
    }
}

/// The names that the first `n` bindings of a `let` at `depth` bind, each
/// followed by those bound inside its expression, one level deeper.
pub open spec fn scoped_bindings(bs: Seq<(Seq<char>, Expr)>, n: nat, depth: nat) -> Seq<
    (Seq<char>, nat),
>
    decreases bs, n,
{
    if n == 0 || n > bs.len() {
        Seq::empty()
    } else {
        scoped_bindings(bs, (n - 1) as nat, depth).push((bs[n - 1].0, depth)) + scoped_binders(
            bs[n - 1].1,
            depth + 1,
        )
    }
}

/// The new names of names with their depths.
pub open spec fn renamed(s: Seq<(Seq<char>, nat)>) -> Seq<Seq<char>> {
    Seq::new(s.len(), |i: int| unique_name(s[i].0, s[i].1))
}

/// Two names at two depths get the same new name only where the names and
/// the depths are the same.
pub proof fn lemma_unique_name_injective(a: Seq<char>, d: nat, b: Seq<char>, f: nat)
    requires
        unique_name(a, d) == unique_name(b, f),
    ensures
        a == b,
        d == f,
{
    reveal_strlit(".");
    let dot = "."@;
    assert(dot.len() == 1 && dot[0] == '.');
    let x = decimal(d);
    let y = decimal(f);
    lemma_decimal_digits(d);
    lemma_decimal_digits(f);
    let s = unique_name(a, d);
    assert(s.len() == a.len() + 1 + x.len());
    assert(s.len() == b.len() + 1 + y.len());
    if x.len() < y.len() {
        let p = a.len() as int;
        assert(s[p] == '.');
        assert((b + dot + y)[p] == y[p - b.len() - 1]);
        assert(is_digit(y[p - b.len() - 1]));
    } else if y.len() < x.len() {
        let p = b.len() as int;
        assert((b + dot + y)[p] == '.');
        assert(s[p] == x[p - a.len() - 1]);
        assert(is_digit(x[p - a.len() - 1]));
    } else {
        assert(a =~= b) by {
            assert forall|i: int| 0 <= i < a.len() implies a[i] == b[i] by {
                assert(s[i] == a[i]);
                assert((b + dot + y)[i] == b[i]);
            }
        }
        assert(x =~= y) by {
            assert forall|i: int| 0 <= i < x.len() implies x[i] == y[i] by {
                assert(s[a.len() + 1 + i] == x[i]);
                assert((b + dot + y)[b.len() + 1 + i] == y[i]);
            }
        }
        lemma_decimal_injective(d, f);
    }
}

/// The names bound in the first `n` bindings are those of any list that
/// starts with the same `n` bindings.
proof fn lemma_bindings_binders_prefix(
    a: Seq<(Seq<char>, Expr)>,
    b: Seq<(Seq<char>, Expr)>,
    n: nat,
)
    requires
        n <= a.len(),
        n <= b.len(),
        forall|i: int| 0 <= i < n ==> a[i] == b[i],
    ensures
        bindings_binders(a, n) == bindings_binders(b, n),
    decreases n,
{
    if n > 0 {
        lemma_bindings_binders_prefix(a, b, (n - 1) as nat);
    }
}

proof fn lemma_args_binders_prefix(a: Seq<Expr>, b: Seq<Expr>, n: nat)
    requires
        n <= a.len(),
        n <= b.len(),
        forall|i: int| 0 <= i < n ==> a[i] == b[i],
    ensures
        args_binders(a, n) == args_binders(b, n),
    decreases n,
{
    if n > 0 {
        lemma_args_binders_prefix(a, b, (n - 1) as nat);
    }
}

/// After the pass the bound names are the new names of the names bound
/// before it, each with the depth of its `let`.
pub proof fn lemma_uniquify_binders(frames: Seq<Frame>, e: Expr)
    ensures
        binders(uniquify_spec(frames, e)) == renamed(scoped_binders(e, frames.len() + 1)),
    decreases e, 1int,
{
    let depth = frames.len() + 1;
    match e {
        Expr::Prim { op, args } => {
            let out = uniquify_spec(frames, e)->Prim_args;
            lemma_uniquify_args(frames, args, args.len(), e);
            lemma_args_binders_prefix(
                out,
                Seq::new(args.len(), |i: int| uniquify_spec(frames, args[i])),
                args.len(),
            );
        },
        Expr::Let { bindings, body } => {
            let made = uniquify_bindings(frames, bindings, bindings.len());
            lemma_uniquify_bindings(frames, bindings, bindings.len(), e);
            lemma_uniquify_binders(frames.push(made.0), *body);
            assert(renamed(
                scoped_bindings(bindings, bindings.len(), depth) + scoped_binders(
                    *body,
                    depth + 1,
                ),
            ) =~= renamed(scoped_bindings(bindings, bindings.len(), depth)) + renamed(
                scoped_binders(*body, depth + 1),
            ));
        },
        _ => {
            assert(renamed(scoped_binders(e, depth)) =~= Seq::empty());
        },
    }
}

proof fn lemma_uniquify_args(frames: Seq<Frame>, args: Seq<Expr>, n: nat, whole: Expr)
    requires
        n <= args.len(),
        whole is Prim,
        whole->Prim_args == args,
    ensures
        args_binders(Seq::new(args.len(), |i: int| uniquify_spec(frames, args[i])), n) == renamed(
            scoped_args(args, n, frames.len() + 1),
        ),
    decreases whole, 0int, n,
{
    let out = Seq::new(args.len(), |i: int| uniquify_spec(frames, args[i]));
    let depth = frames.len() + 1;
    if n == 0 {
        assert(renamed(scoped_args(args, n, depth)) =~= Seq::empty());
    } else {
        lemma_uniquify_args(frames, args, (n - 1) as nat, whole);
        assert(decreases_to!(whole => args));
        assert(decreases_to!(args => args[n - 1]));
        lemma_uniquify_binders(frames, args[n - 1]);
        assert(renamed(scoped_args(args, (n - 1) as nat, depth) + scoped_binders(args[n - 1], depth))
            =~= renamed(scoped_args(args, (n - 1) as nat, depth)) + renamed(
            scoped_binders(args[n - 1], depth),
        ));
    }
}

proof fn lemma_uniquify_bindings(
    frames: Seq<Frame>,
    bs: Seq<(Seq<char>, Expr)>,
    n: nat,
    whole: Expr,
)
    requires
        n <= bs.len(),
        whole is Let,
        whole->Let_bindings == bs,
    ensures
        uniquify_bindings(frames, bs, n).1.len() == n,
        bindings_binders(uniquify_bindings(frames, bs, n).1, n) == renamed(
            scoped_bindings(bs, n, frames.len() + 1),
        ),
    decreases whole, 0int, n,
{
    let depth = frames.len() + 1;
    if n == 0 {
        assert(renamed(scoped_bindings(bs, n, depth)) =~= Seq::empty());
    } else {
        let before = uniquify_bindings(frames, bs, (n - 1) as nat);
        let made = uniquify_bindings(frames, bs, n);
        lemma_uniquify_bindings(frames, bs, (n - 1) as nat, whole);
        lemma_bindings_binders_prefix(made.1, before.1, (n - 1) as nat);
        assert(decreases_to!(whole => bs));
        assert(decreases_to!(bs => bs[n - 1]));
        assert(decreases_to!(bs[n - 1] => bs[n - 1].1));
        lemma_uniquify_binders(frames.push(before.0), bs[n - 1].1);
        let earlier = scoped_bindings(bs, (n - 1) as nat, depth);
        let inner = scoped_binders(bs[n - 1].1, depth + 1);
        assert(renamed(earlier.push((bs[n - 1].0, depth)) + inner) =~= renamed(earlier).push(
            unique_name(bs[n - 1].0, depth),
        ) + renamed(inner));
    }
}

/// After the pass no two `let`s bind the same name, where before it no
/// two `let`s of the same depth bound the same name.
pub proof fn lemma_uniquify_distinct(e: Expr)
    requires
        scoped_binders(e, 1).no_duplicates(),
    ensures
        binders(uniquify_spec(Seq::empty(), e)).no_duplicates(),
{
    lemma_uniquify_binders(Seq::empty(), e);
    let before = scoped_binders(e, 1);
    let after = binders(uniquify_spec(Seq::empty(), e));
    assert forall|i: int, j: int| 0 <= i < after.len() && 0 <= j < after.len() && i != j implies after[i]
        != after[j] by {
        if after[i] == after[j] {
            lemma_unique_name_injective(before[i].0, before[i].1, before[j].0, before[j].1);
            assert(before[i] == before[j]);
        }
    }
}

/// The pass keeps a well-formed tree well formed.
pub proof fn lemma_uniquify_well_formed(frames: Seq<Frame>, e: Expr)
    requires
        well_formed(e),
    ensures
        well_formed(uniquify_spec(frames, e)),
    decreases e, 1int,
{
    match e {
        Expr::Prim { op, args } => {
            let out = uniquify_spec(frames, e)->Prim_args;
            assert forall|i: int| 0 <= i < out.len() implies well_formed(#[trigger] out[i]) by {
                assert(well_formed(args[i]));
                lemma_uniquify_well_formed(frames, args[i]);
            }
        },
        Expr::Let { bindings, body } => {
            let made = uniquify_bindings(frames, bindings, bindings.len());
            lemma_uniquify_bindings_well_formed(frames, bindings, bindings.len(), e);
            lemma_uniquify_well_formed(frames.push(made.0), *body);
        },
        _ => {},
    }
}

proof fn lemma_uniquify_bindings_well_formed(
    frames: Seq<Frame>,
    bs: Seq<(Seq<char>, Expr)>,
    n: nat,
    whole: Expr,
)
    requires
        n <= bs.len(),
        whole is Let,
        whole->Let_bindings == bs,
        well_formed(whole),
    ensures
        uniquify_bindings(frames, bs, n).1.len() == n,
        forall|i: int|
            0 <= i < n ==> well_formed((#[trigger] uniquify_bindings(frames, bs, n).1[i]).1),
    decreases whole, 0int, n,
{
    if n > 0 {
        let before = uniquify_bindings(frames, bs, (n - 1) as nat);
        let made = uniquify_bindings(frames, bs, n);
        lemma_uniquify_bindings_well_formed(frames, bs, (n - 1) as nat, whole);
        assert(well_formed((whole->Let_bindings[n - 1]).1));
        assert(decreases_to!(whole => bs));
        assert(decreases_to!(bs => bs[n - 1]));
        assert(decreases_to!(bs[n - 1] => bs[n - 1].1));
        lemma_uniquify_well_formed(frames.push(before.0), bs[n - 1].1);
        assert forall|i: int| 0 <= i < n implies well_formed((#[trigger] made.1[i]).1) by {
            if i < n - 1 {
                assert(made.1[i] == before.1[i]);
            }
        }
    }
}

} // verus!
