//! Partial evaluation: sums and negations of known integers are computed
//! ahead of time, and a `let` whose body came to a constant goes away.

use crate::ast::AstNode;
use crate::ast::bindings_of;
use crate::ast::clone_node;
use crate::ast::Expr;
use crate::ast::exprs_of;
use crate::ast::lemma_ops_differ;
use crate::ast::lemma_view_let;
use crate::ast::lemma_view_prim;
use crate::ast::LetBinding;
use crate::ast::op_add;
use crate::ast::op_neg;
use crate::ast::Program;
use crate::ast::well_formed;
use crate::text::same_text;
use crate::types::chase_spec;
use crate::types::Environment;
use crate::types::lookup_spec;
use crate::types::value_of_spec;
use vstd::prelude::*;

verus! {

/// The integer that a folded expression is known to be: a literal's own
/// value, or that of the literal a variable stands for.
pub open spec fn constant_of(e: Expr, env: Seq<(Seq<char>, Expr)>) -> Option<i64> {
    match e {
        Expr::Int(n) => Some(n),
        Expr::Var { name } => match value_of_spec(env, name) {
            Some(Expr::Int(n)) => Some(n),
            _ => None,
        },
        _ => None,
    }
}

/// What a `let` whose folded body is the variable `name` comes to: the
/// integer that the variable stands for, else the folded expression that
/// it is bound to; nothing where it is not bound.
pub open spec fn bound_value(env: Seq<(Seq<char>, Expr)>, name: Seq<char>) -> Option<Expr> {
    match value_of_spec(env, name) {
        Some(Expr::Int(n)) => Some(Expr::Int(n)),
        _ => lookup_spec(env, name),
    }
}

/// The folded form of `e` and the environment after folding it. The
/// environment holds every `let`-bound name met so far with its folded
/// expression. A sum or a negation of known integers is their (wrapping)
/// result; a `let` whose folded body is an integer, or a bound variable,
/// is that integer, or what the variable comes to; anything else is
/// rebuilt from its folded parts. A `read` is never folded.
pub open spec fn fold_spec(e: Expr, env: Seq<(Seq<char>, Expr)>) -> (Expr, Seq<(Seq<char>, Expr)>)
    decreases e, 0int,
{
    match e {
        Expr::Prim { op, args } => {
            if op == op_add() && args.len() == 2 {
                let left = fold_spec(args[0], env);
                let right = fold_spec(args[1], left.1);
                match (constant_of(left.0, right.1), constant_of(right.0, right.1)) {
                    (Some(n), Some(m)) => (Expr::Int(n.wrapping_add(m)), right.1),
                    _ => (Expr::Prim { op, args: seq![left.0, right.0] }, right.1),
                }
            } else if op == op_neg() && args.len() == 1 {
                let inner = fold_spec(args[0], env);
                match constant_of(inner.0, inner.1) {
                    Some(n) => (Expr::Int(0i64.wrapping_sub(n)), inner.1),
                    None => (Expr::Prim { op, args: seq![inner.0] }, inner.1),
                }
            } else {
                (e, env)
            }
        },
        Expr::Let { bindings, body } => {
            let bound = fold_bindings(bindings, bindings.len(), env);
            let inner = fold_spec(*body, bound.1);
            let rebuilt = Expr::Let { bindings: bound.0, body: Box::new(inner.0) };
            match inner.0 {
                Expr::Int(_) => inner,
                Expr::Var { name } => match bound_value(inner.1, name) {
                    Some(value) => (value, inner.1),
                    None => (rebuilt, inner.1),
                },
                _ => (rebuilt, inner.1),
            }
        },
        _ => (e, env),
    }
}

/// The first `n` bindings of a `let` with their expressions folded, in
/// order, and the environment after them: each name enters it with its
/// folded expression.
pub open spec fn fold_bindings(bs: Seq<(Seq<char>, Expr)>, n: nat, env: Seq<(Seq<char>, Expr)>) -> (
    Seq<(Seq<char>, Expr)>,
    Seq<(Seq<char>, Expr)>,
)
    decreases bs, n,
{
    if n == 0 || n > bs.len() {
        (Seq::empty(), env)
    } else {
        let before = fold_bindings(bs, (n - 1) as nat, env);
        let value = fold_spec(bs[n - 1].1, before.1);
        (before.0.push((bs[n - 1].0, value.0)), value.1.push((bs[n - 1].0, value.0)))
    }
}

/// The pass's state: the program, and the environment of the names met.
pub struct PartialEvaluator {
    prog: Program,
    env: Environment,
}

impl PartialEvaluator {
    /// The program that is folded.
    pub closed spec fn program(&self) -> Expr {
        self.prog@
    }

    /// The environment as it stands.
    pub closed spec fn bindings(&self) -> Seq<(Seq<char>, Expr)> {
        self.env@
    }

    pub fn new(prog: Program) -> (r: Self)
        ensures
            r.program() == prog@,
            r.bindings() == Seq::<(Seq<char>, Expr)>::empty(),
    {
        PartialEvaluator { prog, env: Environment::new() }
    }

    /// The folded program.
    pub fn evaluate(&mut self) -> (r: Program)
        ensures
            r@ == fold_spec(old(self).program(), old(self).bindings()).0,
            final(self).bindings() == fold_spec(old(self).program(), old(self).bindings()).1,
            final(self).program() == old(self).program(),
    {
        Program { info: (), exp: Self::partial_eval_exp(&mut self.env, &self.prog.exp) }
    }

    /// The integer that a folded expression is known to be.
    fn constant(env: &Environment, e: &AstNode) -> (r: Option<i64>)
        ensures
            r == constant_of(e@, env@),
    {
        match e {
            AstNode::Int(n) => Some(*n),
            AstNode::Var { name } => match env.get_value_of(name) {
                Some(AstNode::Int(n)) => Some(*n),
                _ => None,
            },
            _ => None,
        }
    }

    fn partial_eval_negate(env: &mut Environment, op: &String, args: &Vec<AstNode>) -> (out:
        AstNode)
        requires
            op@ == op_neg(),
            args@.len() == 1,
        ensures
            out@ == fold_spec(Expr::Prim { op: op_neg(), args: exprs_of(args@) }, old(env)@).0,
            final(env)@ == fold_spec(
                Expr::Prim { op: op_neg(), args: exprs_of(args@) },
                old(env)@,
            ).1,
        decreases args,
    {
        assert(decreases_to!(args => args[0]));
        let right = Self::partial_eval_exp(env, &args[0]);
        match Self::constant(env, &right) {
            Some(n) => AstNode::Int(0i64.wrapping_sub(n)),
            None => {
                let folded = vec![right];
                proof {
                    lemma_view_prim(*op, folded);
                    assert(exprs_of(folded@) =~= seq![right@]);
                }
                AstNode::Prim { op: op.clone(), args: folded }
            },
        }
    }

    fn partial_eval_add(env: &mut Environment, op: &String, args: &Vec<AstNode>) -> (out: AstNode)
        requires
            op@ == op_add(),
            args@.len() == 2,
        ensures
            out@ == fold_spec(Expr::Prim { op: op_add(), args: exprs_of(args@) }, old(env)@).0,
            final(env)@ == fold_spec(
                Expr::Prim { op: op_add(), args: exprs_of(args@) },
                old(env)@,
            ).1,
        decreases args,
    {
        assert(decreases_to!(args => args[0]));
        assert(decreases_to!(args => args[1]));
        let left = Self::partial_eval_exp(env, &args[0]);
        let right = Self::partial_eval_exp(env, &args[1]);
        match (Self::constant(env, &left), Self::constant(env, &right)) {
            (Some(n), Some(m)) => AstNode::Int(n.wrapping_add(m)),
            _ => {
                let folded = vec![left, right];
                proof {
                    lemma_view_prim(*op, folded);
                    assert(exprs_of(folded@) =~= seq![left@, right@]);
                }
                AstNode::Prim { op: op.clone(), args: folded }
            },
        }
    }

    fn partial_eval_prim(env: &mut Environment, exp: &AstNode) -> (out: AstNode)
        requires
            exp is Prim,
        ensures
            out@ == fold_spec(exp@, old(env)@).0,
            final(env)@ == fold_spec(exp@, old(env)@).1,
        decreases exp, 0int,
    {
        proof {
            lemma_ops_differ();
        }
        match exp {
            AstNode::Prim { op, args } => {
                proof {
                    lemma_view_prim(*op, *args);
                }
                if same_text(op, "+") && args.len() == 2 {
                    Self::partial_eval_add(env, op, args)
                } else if same_text(op, "-") && args.len() == 1 {
                    Self::partial_eval_negate(env, op, args)
                } else {
                    clone_node(exp)
                }
            },
            _ => clone_node(exp),
        }
    }

    fn partial_eval_exp(env: &mut Environment, exp: &AstNode) -> (out: AstNode)
        ensures
            out@ == fold_spec(exp@, old(env)@).0,
            final(env)@ == fold_spec(exp@, old(env)@).1,
        decreases exp, 1int,
    {
        let ghost env0 = env@;
        match exp {
            AstNode::Prim { .. } => Self::partial_eval_prim(env, exp),
            AstNode::Let { bindings, body } => {
                proof {
                    lemma_view_let(*bindings, *body);
                }
                let ghost bs = bindings_of(bindings@);
                let mut new_bindings: Vec<LetBinding> = Vec::new();
                assert(bindings_of(new_bindings@) =~= fold_bindings(bs, 0, env0).0);
                let mut i: usize = 0;
                while i < bindings.len()
                    invariant
                        i <= bindings@.len(),
                        bs == bindings_of(bindings@),
                        exp is Let,
                        exp->Let_bindings == bindings,
                        bindings_of(new_bindings@) == fold_bindings(bs, i as nat, env0).0,
                        env@ == fold_bindings(bs, i as nat, env0).1,
                    decreases bindings.len() - i,
                {
                    let b = &bindings[i];
                    assert(decreases_to!(bindings => bindings[i as int]));
                    assert(decreases_to!(bindings[i as int] => bindings[i as int].expr));
                    assert(bs[i as int] == b@);
                    let new_expr = Self::partial_eval_exp(env, &b.expr);
                    env.insert(b.identifier.clone(), clone_node(&new_expr));
                    let ghost listed = bindings_of(new_bindings@);
                    new_bindings.push(
                        LetBinding { identifier: b.identifier.clone(), expr: new_expr },
                    );
                    assert(bindings_of(new_bindings@) =~= listed.push((bs[i as int].0, new_expr@)));
                    i += 1;
                }
                let new_body = Self::partial_eval_exp(env, body);
                match new_body {
                    AstNode::Int(n) => AstNode::Int(n),
                    AstNode::Var { name } => {
                        let known = match env.get_value_of(&name) {
                            Some(AstNode::Int(n)) => Some(*n),
                            _ => None,
                        };
                        match known {
                            Some(n) => AstNode::Int(n),
                            None => {
                                let bound = match env.get(&name) {
                                    Some(value) => Some(clone_node(value)),
                                    None => None,
                                };
                                match bound {
                                    Some(value) => value,
                                    None => {
                                        let new_body = Box::new(AstNode::Var { name });
                                        proof {
                                            lemma_view_let(new_bindings, new_body);
                                        }
                                        AstNode::Let { bindings: new_bindings, body: new_body }
                                    },
                                }
                            },
                        }
                    },
                    other => {
                        let new_body = Box::new(other);
                        proof {
                            lemma_view_let(new_bindings, new_body);
                        }
                        AstNode::Let { bindings: new_bindings, body: new_body }
                    },
                }
            },
            _ => clone_node(exp),
        }
    }
}

/// The folded program, from an empty environment.
pub fn partially_evaluate(prog: Program) -> (r: Program)
    ensures
        r@ == fold_spec(prog@, Seq::empty()).0,
        well_formed(prog@) ==> well_formed(r@),
{
    proof {
        if well_formed(prog@) {
            lemma_fold_well_formed(prog@, Seq::empty());
        }
    }
    let mut pe = PartialEvaluator::new(prog);
    pe.evaluate()
}

/// Every name of the environment is bound to a well-formed expression.
pub open spec fn all_well_formed(env: Seq<(Seq<char>, Expr)>) -> bool {
    forall|i: int| 0 <= i < env.len() ==> well_formed((#[trigger] env[i]).1)
}

proof fn lemma_lookup_well_formed(env: Seq<(Seq<char>, Expr)>, name: Seq<char>)
    requires
        all_well_formed(env),
    ensures
        lookup_spec(env, name) matches Some(e) ==> well_formed(e),
    decreases env.len(),
{
    if env.len() > 0 {
        assert(well_formed(env[env.len() - 1].1));
        if env.last().0 != name {
            let front = env.drop_last();
            assert forall|i: int| 0 <= i < front.len() implies well_formed(
                (#[trigger] front[i]).1,
            ) by {
                assert(front[i] == env[i]);
            }
            lemma_lookup_well_formed(front, name);
        }
    }
}

proof fn lemma_chase_well_formed(env: Seq<(Seq<char>, Expr)>, name: Seq<char>, fuel: nat)
    ensures
        chase_spec(env, name, fuel) matches Some(e) ==> well_formed(e),
    decreases fuel,
{
    if fuel > 0 {
        match lookup_spec(env, name) {
            Some(Expr::Var { name: next }) => {
                lemma_chase_well_formed(env, next, (fuel - 1) as nat);
            },
            _ => {},
        }
    }
}

/// Folding keeps a well-formed tree well formed, and the environment one
/// of well-formed expressions.
pub proof fn lemma_fold_well_formed(e: Expr, env: Seq<(Seq<char>, Expr)>)
    requires
        well_formed(e),
        all_well_formed(env),
    ensures
        well_formed(fold_spec(e, env).0),
        all_well_formed(fold_spec(e, env).1),
    decreases e, 1int,
{
    crate::ast::lemma_ops_differ();
    match e {
        Expr::Prim { op, args } => {
            if op == op_add() && args.len() == 2 {
                assert(well_formed(args[0]) && well_formed(args[1]));
                lemma_fold_well_formed(args[0], env);
                let left = fold_spec(args[0], env);
                lemma_fold_well_formed(args[1], left.1);
                let right = fold_spec(args[1], left.1);
                let rebuilt = seq![left.0, right.0];
                assert forall|i: int| 0 <= i < rebuilt.len() implies well_formed(
                    #[trigger] rebuilt[i],
                ) by {}
            } else if op == op_neg() && args.len() == 1 {
                assert(well_formed(args[0]));
                lemma_fold_well_formed(args[0], env);
                let inner = fold_spec(args[0], env);
                let rebuilt = seq![inner.0];
                assert forall|i: int| 0 <= i < rebuilt.len() implies well_formed(
                    #[trigger] rebuilt[i],
                ) by {}
            }
        },
        Expr::Let { bindings, body } => {
            lemma_fold_bindings_well_formed(bindings, bindings.len(), env, e);
            let bound = fold_bindings(bindings, bindings.len(), env);
            lemma_fold_well_formed(*body, bound.1);
            let inner = fold_spec(*body, bound.1);
            match inner.0 {
                Expr::Var { name } => {
                    lemma_chase_well_formed(inner.1, name, inner.1.len());
                    lemma_lookup_well_formed(inner.1, name);
                },
                _ => {},
            }
        },
        _ => {},
    }
}

proof fn lemma_fold_bindings_well_formed(
    bs: Seq<(Seq<char>, Expr)>,
    n: nat,
    env: Seq<(Seq<char>, Expr)>,
    whole: Expr,
)
    requires
        n <= bs.len(),
        whole is Let,
        whole->Let_bindings == bs,
        well_formed(whole),
        all_well_formed(env),
    ensures
        fold_bindings(bs, n, env).0.len() == n,
        all_well_formed(fold_bindings(bs, n, env).0),
        all_well_formed(fold_bindings(bs, n, env).1),
    decreases whole, 0int, n,
{
    if n > 0 {
        let before = fold_bindings(bs, (n - 1) as nat, env);
        lemma_fold_bindings_well_formed(bs, (n - 1) as nat, env, whole);
        assert(well_formed((whole->Let_bindings[n - 1]).1));
        assert(decreases_to!(whole => bs));
        assert(decreases_to!(bs => bs[n - 1]));
        assert(decreases_to!(bs[n - 1] => bs[n - 1].1));
        lemma_fold_well_formed(bs[n - 1].1, before.1);
        let value = fold_spec(bs[n - 1].1, before.1);
        let made = fold_bindings(bs, n, env);
        assert forall|i: int| 0 <= i < made.0.len() implies well_formed((#[trigger] made.0[i]).1) by {
            if i < n - 1 {
                assert(made.0[i] == before.0[i]);
            }
        }
        assert forall|i: int| 0 <= i < made.1.len() implies well_formed((#[trigger] made.1[i]).1) by {
            if i < value.1.len() {
                assert(made.1[i] == value.1[i]);
            }
        }
    }
}

} // verus!
