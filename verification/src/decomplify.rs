//! Removal of complex operands: every argument of a primitive becomes an
//! atom, and what stood there moves into a `let` of a fresh temporary.

use crate::ast::anf;
use crate::ast::AstNode;
use crate::ast::bindings_of;
use crate::ast::clone_node;
use crate::ast::Expr;
use crate::ast::exprs_of;
use crate::ast::is_atom;
use crate::ast::lemma_ops_differ;
use crate::ast::lemma_view_let;
use crate::ast::lemma_view_prim;
use crate::ast::LetBinding;
use crate::ast::op_add;
use crate::ast::op_neg;
use crate::ast::Program;
use crate::ast::well_formed;
use crate::text::decimal;
use crate::text::push_decimal;
use crate::text::same_text;
use vstd::prelude::*;

verus! {

/// The name of the temporary numbered `k`.
pub open spec fn tmp_name(k: nat) -> Seq<char> {
    "tmp."@ + decimal(k)
}

/// What became of an operand: the atom that stands for it, the expression
/// that its temporary is bound to (where one was needed), and the number of
/// the next unused temporary.
pub struct Atomized {
    pub atom: Expr,
    pub bound: Option<Expr>,
    pub next: nat,
}

/// The bindings of a `let` after the pass, in the order in which they
/// were written, and the number of the next unused temporary.
pub struct NormalBindings {
    pub bindings: Seq<(Seq<char>, Expr)>,
    pub next: nat,
}

/// The binding that an operand hoists: none for an atom, else the temporary
/// numbered `k` bound to the operand's normal form.
pub open spec fn hoisted(a: Atomized, k: nat) -> Seq<(Seq<char>, Expr)> {
    match a.bound {
        Some(b) => seq![(tmp_name(k), b)],
        None => Seq::empty(),
    }
}

/// An operand as an atom. An atom stays; anything else gets the temporary
/// numbered `k`, bound to its normal form (computed with the temporaries
/// from `k + 1` on).
pub open spec fn rco_atom_spec(e: Expr, k: nat) -> Atomized
    decreases e, 1int,
{
    if is_atom(e) {
        Atomized { atom: e, bound: None, next: k }
    } else {
        let r = rco_expr_spec(e, k + 1);
        Atomized { atom: Expr::Var { name: tmp_name(k) }, bound: Some(r.0), next: r.1 }
    }
}

/// The normal form of `e`, with temporaries numbered from `k` on, and the
/// number of the next unused temporary.
pub open spec fn rco_expr_spec(e: Expr, k: nat) -> (Expr, nat)
    decreases e, 0int,
{
    match e {
        Expr::Prim { op, args } => {
            if op == op_neg() && args.len() == 1 {
                let a = rco_atom_spec(args[0], k);
                if a.bound is Some {
                    (
                        Expr::Let {
                            bindings: hoisted(a, k),
                            body: Box::new(Expr::Prim { op, args: seq![a.atom] }),
                        },
                        a.next,
                    )
                } else {
                    (e, k)
                }
            } else if op == op_add() && args.len() == 2 {
                let l = rco_atom_spec(args[0], k);
                let r = rco_atom_spec(args[1], l.next);
                if l.bound is Some || r.bound is Some {
                    (
                        Expr::Let {
                            bindings: hoisted(l, k) + hoisted(r, l.next),
                            body: Box::new(Expr::Prim { op, args: seq![l.atom, r.atom] }),
                        },
                        r.next,
                    )
                } else {
                    (e, k)
                }
            } else {
                (e, k)
            }
        },
        Expr::Let { bindings, body } => {
            let bs = rco_bindings_spec(bindings, bindings.len(), k);
            let b = rco_expr_spec(*body, bs.next);
            (Expr::Let { bindings: bs.bindings, body: Box::new(b.0) }, b.1)
        },
        _ => (e, k),
    }
}

/// The first `n` bindings of `bs` after the pass, in their order. A
/// binding whose normal form is a `let` is replaced, where it stands, by
/// that `let`'s bindings followed by the name bound to its body. Any
/// other binding stays, bound to its normal form.
pub open spec fn rco_bindings_spec(bs: Seq<(Seq<char>, Expr)>, n: nat, k: nat) -> NormalBindings
    decreases bs, n,
{
    if n == 0 || n > bs.len() {
        NormalBindings { bindings: Seq::empty(), next: k }
    } else {
        let prev = rco_bindings_spec(bs, (n - 1) as nat, k);
        let r = rco_expr_spec(bs[n - 1].1, prev.next);
        match r.0 {
            Expr::Let { bindings, body } => NormalBindings {
                bindings: prev.bindings + bindings + seq![(bs[n - 1].0, *body)],
                next: r.1,
            },
            _ => NormalBindings { bindings: prev.bindings.push((bs[n - 1].0, r.0)), next: r.1 },
        }
    }
}

/// Every binding of `bs` holds an expression in A-normal form.
pub open spec fn all_anf(bs: Seq<(Seq<char>, Expr)>) -> bool {
    forall|i: int| 0 <= i < bs.len() ==> anf((#[trigger] bs[i]).1)
}

/// The pass never hands out a number twice: the next unused temporary only
/// moves forward.
pub proof fn lemma_rco_counter(e: Expr, k: nat)
    ensures
        rco_expr_spec(e, k).1 >= k,
        rco_atom_spec(e, k).next >= k,
    decreases e, 2int,
{
    lemma_rco_expr_counter(e, k);
    if !is_atom(e) {
        lemma_rco_expr_counter(e, k + 1);
    }
}

proof fn lemma_rco_expr_counter(e: Expr, k: nat)
    ensures
        rco_expr_spec(e, k).1 >= k,
    decreases e, 0int,
{
    match e {
        Expr::Prim { op, args } => {
            if op == op_neg() && args.len() == 1 {
                lemma_rco_counter(args[0], k);
            } else if op == op_add() && args.len() == 2 {
                lemma_rco_counter(args[0], k);
                lemma_rco_counter(args[1], rco_atom_spec(args[0], k).next);
            }
        },
        Expr::Let { bindings, body } => {
            lemma_rco_bindings_counter(bindings, bindings.len(), bindings.len(), k);
            lemma_rco_expr_counter(*body, rco_bindings_spec(bindings, bindings.len(), k).next);
        },
        _ => {},
    }
}

/// Over the bindings of a `let` the next unused temporary only moves forward.
pub proof fn lemma_rco_bindings_counter(bs: Seq<(Seq<char>, Expr)>, m: nat, n: nat, k: nat)
    requires
        m <= n <= bs.len(),
    ensures
        k <= rco_bindings_spec(bs, m, k).next <= rco_bindings_spec(bs, n, k).next,
    decreases bs, n,
{
    if n > 0 {
        if m < n {
            lemma_rco_bindings_counter(bs, m, (n - 1) as nat, k);
            lemma_rco_expr_counter(bs[n - 1].1, rco_bindings_spec(bs, (n - 1) as nat, k).next);
        } else {
            lemma_rco_bindings_counter(bs, (n - 1) as nat, (n - 1) as nat, k);
            lemma_rco_expr_counter(bs[n - 1].1, rco_bindings_spec(bs, (n - 1) as nat, k).next);
        }
    }
}

/// After the pass every argument of every primitive is an atom: the normal
/// form of a well-formed tree is in A-normal form.
pub proof fn lemma_rco_anf(e: Expr, k: nat)
    requires
        well_formed(e),
    ensures
        anf(rco_expr_spec(e, k).0),
        is_atom(rco_atom_spec(e, k).atom),
        rco_atom_spec(e, k).bound matches Some(b) ==> anf(b),
    decreases e, 2int,
{
    lemma_rco_expr_anf(e, k);
    if !is_atom(e) {
        lemma_rco_expr_anf(e, k + 1);
    }
}

proof fn lemma_rco_expr_anf(e: Expr, k: nat)
    requires
        well_formed(e),
    ensures
        anf(rco_expr_spec(e, k).0),
    decreases e, 0int,
{
    lemma_ops_differ();
    match e {
        Expr::Prim { op, args } => {
            if op == op_neg() && args.len() == 1 {
                lemma_rco_anf(args[0], k);
                let a = rco_atom_spec(args[0], k);
                if a.bound is Some {
                    let body = Expr::Prim { op, args: seq![a.atom] };
                    assert(anf(body));
                    assert(all_anf(hoisted(a, k)));
                } else {
                    assert(args[0] == a.atom);
                    assert(anf(e));
                }
            } else if op == op_add() && args.len() == 2 {
                lemma_rco_anf(args[0], k);
                let l = rco_atom_spec(args[0], k);
                lemma_rco_anf(args[1], l.next);
                let r = rco_atom_spec(args[1], l.next);
                if l.bound is Some || r.bound is Some {
                    let body = Expr::Prim { op, args: seq![l.atom, r.atom] };
                    assert(anf(body));
                    assert(all_anf(hoisted(l, k) + hoisted(r, l.next)));
                } else {
                    assert(anf(e));
                }
            } else {
                assert(args.len() == 0);
                assert(anf(e));
            }
        },
        Expr::Let { bindings, body } => {
            lemma_rco_bindings_anf(bindings, bindings.len(), k);
            let bs = rco_bindings_spec(bindings, bindings.len(), k);
            lemma_rco_expr_anf(*body, bs.next);
        },
        _ => {},
    }
}

/// After the pass every binding of a `let` holds an expression in A-normal form.
pub proof fn lemma_rco_bindings_anf(bs: Seq<(Seq<char>, Expr)>, n: nat, k: nat)
    requires
        n <= bs.len(),
        forall|i: int| 0 <= i < bs.len() ==> well_formed((#[trigger] bs[i]).1),
    ensures
        all_anf(rco_bindings_spec(bs, n, k).bindings),
    decreases bs, n,
{
    if n > 0 {
        lemma_rco_bindings_anf(bs, (n - 1) as nat, k);
        let prev = rco_bindings_spec(bs, (n - 1) as nat, k);
        lemma_rco_expr_anf(bs[n - 1].1, prev.next);
        let r = rco_expr_spec(bs[n - 1].1, prev.next);
        match r.0 {
            Expr::Let { bindings, body } => {
                assert(all_anf(bindings));
                assert(all_anf(prev.bindings + bindings + seq![(bs[n - 1].0, *body)]));
            },
            _ => {
                assert(all_anf(prev.bindings.push((bs[n - 1].0, r.0))));
            },
        }
    }
}

/// The state of the pass: the number of the next unused temporary, and the
/// bindings hoisted out of operands that no `let` has taken up yet.
pub struct Rco {
    num: u64,
    env: Vec<LetBinding>,
}

impl Rco {
    /// The number of the next unused temporary.
    pub closed spec fn counter(&self) -> nat {
        self.num as nat
    }

    /// The hoisted bindings that no `let` has taken up yet, oldest first.
    pub closed spec fn pending(&self) -> Seq<(Seq<char>, Expr)> {
        bindings_of(self.env@)
    }

    pub fn new() -> (r: Rco)
        ensures
            r.counter() == 0,
            r.pending() == Seq::<(Seq<char>, Expr)>::empty(),
    {
        let r = Rco { num: 0, env: Vec::new() };
        assert(r.pending() =~= Seq::empty());
        r
    }

    /// A fresh temporary's name.
    fn tmp(&mut self) -> (name: String)
        requires
            old(self).counter() < u64::MAX,
        ensures
            name@ == tmp_name(old(self).counter()),
            final(self).counter() == old(self).counter() + 1,
            final(self).pending() == old(self).pending(),
    {
        let mut name = String::from_str("tmp.");
        push_decimal(&mut name, self.num);
        self.num += 1;
        name
    }

    /// Records a hoisted binding.
    fn env_set(&mut self, name: String, expr: AstNode)
        ensures
            final(self).pending() == old(self).pending().push((name@, expr@)),
            final(self).counter() == old(self).counter(),
    {
        self.env.push(LetBinding { identifier: name, expr });
        assert(final(self).pending() =~= old(self).pending().push((name@, expr@)));
    }

    /// Takes up the hoisted binding recorded last.
    fn env_get(&mut self) -> (b: LetBinding)
        requires
            old(self).pending().len() > 0,
        ensures
            b@ == old(self).pending().last(),
            final(self).pending() == old(self).pending().drop_last(),
            final(self).counter() == old(self).counter(),
    {
        let b = self.env.pop().unwrap();
        assert(final(self).pending() =~= old(self).pending().drop_last());
        b
    }

    /// An operand as an atom; the flag says whether a temporary was needed,
    /// and its binding is then the last one recorded.
    fn rco_atom(&mut self, e: AstNode) -> (r: (bool, AstNode))
        requires
            well_formed(e@),
            rco_atom_spec(e@, old(self).counter()).next <= u64::MAX,
        ensures
            r.1@ == rco_atom_spec(e@, old(self).counter()).atom,
            r.0 == rco_atom_spec(e@, old(self).counter()).bound is Some,
            final(self).counter() == rco_atom_spec(e@, old(self).counter()).next,
            final(self).pending() == old(self).pending() + hoisted(
                rco_atom_spec(e@, old(self).counter()),
                old(self).counter(),
            ),
        decreases e@, 1int,
    {
        let ghost k = self.counter();
        let atom = match &e {
            AstNode::Int(_) => true,
            AstNode::Var { .. } => true,
            _ => false,
        };
        if atom {
            assert(self.pending() + hoisted(rco_atom_spec(e@, k), k) =~= self.pending());
            (false, e)
        } else {
            proof {
                lemma_rco_counter(e@, k + 1);
            }
            let new_tmp = self.tmp();
            let expr = self.rco_expr(e);
            self.env_set(new_tmp.clone(), expr);
            assert(final(self).pending() =~= old(self).pending() + hoisted(
                rco_atom_spec(e@, k),
                k,
            ));
            (true, AstNode::Var { name: new_tmp })
        }
    }

    /// The normal form of `e`.
    fn rco_expr(&mut self, e: AstNode) -> (r: AstNode)
        requires
            well_formed(e@),
            rco_expr_spec(e@, old(self).counter()).1 <= u64::MAX,
        ensures
            r@ == rco_expr_spec(e@, old(self).counter()).0,
            final(self).counter() == rco_expr_spec(e@, old(self).counter()).1,
            final(self).pending() == old(self).pending(),
        decreases e@, 0int,
    {
        let ghost k = self.counter();
        let ghost e0 = e@;
        let ghost pending0 = self.pending();
        proof {
            lemma_ops_differ();
        }
        match e {
            AstNode::Int(n) => AstNode::Int(n),
            AstNode::Var { name } => AstNode::Var { name },
            AstNode::Error { msg, token } => AstNode::Error { msg, token },
            AstNode::Prim { op, mut args } => {
                proof {
                    lemma_view_prim(op, args);
                }
                let ghost args0 = exprs_of(args@);
                if same_text(&op, "-") && args.len() == 1 {
                    let a0 = args.pop().unwrap();
                    assert(a0@ == args0[0]);
                    let arg = self.rco_atom(a0);
                    let ghost a = rco_atom_spec(args0[0], k);
                    let operands = vec![arg.1];
                    proof {
                        lemma_view_prim(op, operands);
                        assert(exprs_of(operands@) =~= seq![a.atom]);
                    }
                    if arg.0 {
                        let b = self.env_get();
                        assert(self.pending() =~= pending0);
                        let bindings = vec![b];
                        let body = Box::new(AstNode::Prim { op, args: operands });
                        proof {
                            lemma_view_let(bindings, body);
                            assert(bindings_of(bindings@) =~= hoisted(a, k));
                        }
                        AstNode::Let { bindings, body }
                    } else {
                        assert(self.pending() =~= pending0);
                        assert(seq![a.atom] =~= args0);
                        AstNode::Prim { op, args: operands }
                    }
                } else if same_text(&op, "+") && args.len() == 2 {
                    let a1 = args.pop().unwrap();
                    let a0 = args.pop().unwrap();
                    assert(a0@ == args0[0]);
                    assert(a1@ == args0[1]);
                    let ghost l = rco_atom_spec(args0[0], k);
                    let ghost r = rco_atom_spec(args0[1], l.next);
                    proof {
                        lemma_rco_counter(args0[1], l.next);
                    }
                    let lhand = self.rco_atom(a0);
                    let rhand = self.rco_atom(a1);
                    let operands = vec![lhand.1, rhand.1];
                    proof {
                        lemma_view_prim(op, operands);
                        assert(exprs_of(operands@) =~= seq![l.atom, r.atom]);
                    }
                    let mut let_bindings: Vec<LetBinding> = Vec::new();
                    if rhand.0 {
                        let b = self.env_get();
                        let_bindings.push(b);
                    }
                    if lhand.0 {
                        let b = self.env_get();
                        let_bindings.insert(0, b);
                    }
                    assert(self.pending() =~= pending0);
                    if lhand.0 || rhand.0 {
                        let body = Box::new(AstNode::Prim { op, args: operands });
                        proof {
                            lemma_view_let(let_bindings, body);
                            assert(bindings_of(let_bindings@) =~= hoisted(l, k) + hoisted(
                                r,
                                l.next,
                            ));
                        }
                        AstNode::Let { bindings: let_bindings, body }
                    } else {
                        assert(seq![l.atom, r.atom] =~= args0);
                        AstNode::Prim { op, args: operands }
                    }
                } else {
                    AstNode::Prim { op, args }
                }
            },
            AstNode::Let { bindings, body } => {
                proof {
                    lemma_view_let(bindings, body);
                }
                let ghost bs0 = bindings_of(bindings@);
                let ghost total = rco_bindings_spec(bs0, bs0.len(), k);
                let mut new_bindings: Vec<LetBinding> = Vec::new();
                let mut i: usize = 0;
                proof {
                    assert(bindings_of(new_bindings@) =~= rco_bindings_spec(bs0, 0, k).bindings);
                    lemma_rco_counter(body@, total.next);
                }
                while i < bindings.len()
                    invariant
                        i <= bindings.len(),
                        bs0 == bindings_of(bindings@),
                        e0 == e@,
                        e0 == (Expr::Let { bindings: bs0, body: Box::new(body@) }),
                        well_formed(e0),
                        total == rco_bindings_spec(bs0, bs0.len(), k),
                        total.next <= u64::MAX,
                        bindings_of(new_bindings@) == rco_bindings_spec(
                            bs0,
                            i as nat,
                            k,
                        ).bindings,
                        self.counter() == rco_bindings_spec(bs0, i as nat, k).next,
                        self.pending() == pending0,
                    decreases bindings.len() - i,
                {
                    let ghost prev = rco_bindings_spec(bs0, i as nat, k);
                    let ghost step = rco_expr_spec(bs0[i as int].1, prev.next);
                    proof {
                        lemma_rco_bindings_counter(bs0, (i + 1) as nat, bs0.len(), k);
                        assert(e0->Let_bindings == bs0);
                        assert(well_formed((e0->Let_bindings[i as int]).1));
                        assert(decreases_to!(e0 => bs0));
                        assert(decreases_to!(bs0 => bs0[i as int]));
                        assert(decreases_to!(bs0[i as int] => bs0[i as int].1));
                    }
                    let rhs = clone_node(&bindings[i].expr);
                    let name = bindings[i].identifier.clone();
                    let new_rhs = self.rco_expr(rhs);
                    match new_rhs {
                        AstNode::Let { bindings: mut inner, body: inner_body } => {
                            proof {
                                lemma_view_let(inner, inner_body);
                            }
                            let ghost before = bindings_of(new_bindings@);
                            let ghost hoisted_here = bindings_of(inner@);
                            new_bindings.append(&mut inner);
                            new_bindings.push(LetBinding { identifier: name, expr: *inner_body });
                            assert(bindings_of(new_bindings@) =~= before + hoisted_here + seq![
                                (bs0[i as int].0, inner_body@),
                            ]);
                        },
                        other => {
                            let ghost before = bindings_of(new_bindings@);
                            new_bindings.push(LetBinding { identifier: name, expr: other });
                            assert(bindings_of(new_bindings@) =~= before.push(
                                (bs0[i as int].0, step.0),
                            ));
                        },
                    }
                    i += 1;
                }
                let new_body = self.rco_expr(*body);
                let new_body = Box::new(new_body);
                proof {
                    lemma_view_let(new_bindings, new_body);
                }
                AstNode::Let { bindings: new_bindings, body: new_body }
            },
        }
    }

    /// The program's expression in A-normal form.
    pub fn decomplify(&mut self, p: Program) -> (r: AstNode)
        requires
            well_formed(p@),
            rco_expr_spec(p@, old(self).counter()).1 <= u64::MAX,
        ensures
            r@ == rco_expr_spec(p@, old(self).counter()).0,
            final(self).counter() == rco_expr_spec(p@, old(self).counter()).1,
            final(self).pending() == old(self).pending(),
            anf(r@),
    {
        proof {
            lemma_rco_anf(p@, self.counter());
        }
        self.rco_expr(p.exp)
    }
}

/// The program in A-normal form, with temporaries numbered from 0.
pub fn decomplify_program(program: Program) -> (r: Program)
    requires
        well_formed(program@),
        rco_expr_spec(program@, 0).1 <= u64::MAX,
    ensures
        r@ == rco_expr_spec(program@, 0).0,
        anf(r@),
{
    let mut rco = Rco::new();
    Program { info: (), exp: rco.decomplify(program) }
}

/// The number of temporaries that the normal form of `e` needs.
pub open spec fn temps_needed(e: Expr) -> nat
    decreases e, 0int,
{
    match e {
        Expr::Prim { op, args } => {
            if op == op_neg() && args.len() == 1 {
                temps_atom(args[0])
            } else if op == op_add() && args.len() == 2 {
                temps_atom(args[0]) + temps_atom(args[1])
            } else {
                0
            }
        },
        Expr::Let { bindings, body } => temps_bindings(bindings, bindings.len()) + temps_needed(
            *body,
        ),
        _ => 0,
    }
}

/// The number of temporaries that `e` needs as an operand.
pub open spec fn temps_atom(e: Expr) -> nat
    decreases e, 1int,
{
    if is_atom(e) {
        0
    } else {
        1 + temps_needed(e)
    }
}

/// The number of temporaries that the first `n` bindings need.
pub open spec fn temps_bindings(bs: Seq<(Seq<char>, Expr)>, n: nat) -> nat
    decreases bs, n,
{
    if n == 0 || n > bs.len() {
        0
    } else {
        temps_bindings(bs, (n - 1) as nat) + temps_needed(bs[n - 1].1)
    }
}

/// The pass uses up as many numbers as the tree needs temporaries.
pub proof fn lemma_temps_needed(e: Expr, k: nat)
    ensures
        rco_expr_spec(e, k).1 == k + temps_needed(e),
        rco_atom_spec(e, k).next == k + temps_atom(e),
    decreases e, 2int,
{
    lemma_temps_expr(e, k);
    if !is_atom(e) {
        lemma_temps_expr(e, k + 1);
    }
}

proof fn lemma_temps_expr(e: Expr, k: nat)
    ensures
        rco_expr_spec(e, k).1 == k + temps_needed(e),
    decreases e, 0int,
{
    match e {
        Expr::Prim { op, args } => {
            if op == op_neg() && args.len() == 1 {
                lemma_temps_needed(args[0], k);
            } else if op == op_add() && args.len() == 2 {
                lemma_temps_needed(args[0], k);
                lemma_temps_needed(args[1], rco_atom_spec(args[0], k).next);
            }
        },
        Expr::Let { bindings, body } => {
            lemma_temps_bindings(bindings, bindings.len(), k);
            lemma_temps_expr(*body, rco_bindings_spec(bindings, bindings.len(), k).next);
        },
        _ => {},
    }
}

proof fn lemma_temps_bindings(bs: Seq<(Seq<char>, Expr)>, n: nat, k: nat)
    requires
        n <= bs.len(),
    ensures
        rco_bindings_spec(bs, n, k).next == k + temps_bindings(bs, n),
    decreases bs, n,
{
    if n > 0 {
        lemma_temps_bindings(bs, (n - 1) as nat, k);
        lemma_temps_expr(bs[n - 1].1, rco_bindings_spec(bs, (n - 1) as nat, k).next);
    }
}

/// The sum, where both numbers are there and it fits in 64 bits.
fn add_counts(a: Option<u64>, b: Option<u64>) -> (r: Option<u64>)
    ensures
        r == (match (a, b) {
            (Some(x), Some(y)) => if x + y <= u64::MAX {
                Some((x + y) as u64)
            } else {
                None
            },
            _ => None,
        }),
{
    match (a, b) {
        (Some(x), Some(y)) => x.checked_add(y),
        _ => None,
    }
}

/// The number of temporaries that the normal form of `e` needs, where it
/// fits in 64 bits.
pub fn count_temps(e: &AstNode) -> (r: Option<u64>)
    ensures
        r == (if temps_needed(e@) <= u64::MAX {
            Some(temps_needed(e@) as u64)
        } else {
            None
        }),
    decreases e, 0int,
{
    proof {
        lemma_ops_differ();
    }
    match e {
        AstNode::Prim { op, args } => {
            proof {
                lemma_view_prim(*op, *args);
            }
            if same_text(op, "-") && args.len() == 1 {
                count_operand(&args[0])
            } else if same_text(op, "+") && args.len() == 2 {
                add_counts(count_operand(&args[0]), count_operand(&args[1]))
            } else {
                Some(0)
            }
        },
        AstNode::Let { bindings, body } => {
            proof {
                lemma_view_let(*bindings, *body);
            }
            let ghost bs = bindings_of(bindings@);
            let mut total: Option<u64> = Some(0);
            let mut i: usize = 0;
            while i < bindings.len()
                invariant
                    i <= bindings@.len(),
                    bs == bindings_of(bindings@),
                    e is Let,
                    e->Let_bindings == bindings,
                    total == (if temps_bindings(bs, i as nat) <= u64::MAX {
                        Some(temps_bindings(bs, i as nat) as u64)
                    } else {
                        None
                    }),
                decreases bindings.len() - i,
            {
                assert(decreases_to!(bindings => bindings[i as int]));
                assert(decreases_to!(bindings[i as int] => bindings[i as int].expr));
                assert(bs[i as int].1 == bindings@[i as int].expr@);
                total = add_counts(total, count_temps(&bindings[i].expr));
                i += 1;
            }
            add_counts(total, count_temps(body))
        },
        _ => Some(0),
    }
}

/// The number of temporaries that `e` needs as an operand, where it fits
/// in 64 bits.
fn count_operand(e: &AstNode) -> (r: Option<u64>)
    ensures
        r == (if temps_atom(e@) <= u64::MAX {
            Some(temps_atom(e@) as u64)
        } else {
            None
        }),
    decreases e, 1int,
{
    match e {
        AstNode::Int(_) => Some(0),
        AstNode::Var { .. } => Some(0),
        _ => add_counts(Some(1), count_temps(e)),
    }
}

/// Whether `decomplify_program` takes the program: it is well formed and
/// its temporaries can be numbered in 64 bits.
pub fn check_decomplify(program: &Program) -> (r: bool)
    ensures
        r == (well_formed(program@) && rco_expr_spec(program@, 0).1 <= u64::MAX),
{
    proof {
        lemma_temps_needed(program@, 0);
    }
    crate::ast::check_well_formed(&program.exp) && count_temps(&program.exp).is_some()
}

} // verus!
