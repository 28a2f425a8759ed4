//! The abstract syntax tree, its mathematical model, and the shapes that the
//! passes ask of a tree.

use crate::text::same_text;
use crate::token::Token;
use crate::token::TokenView;
use vstd::prelude::*;

verus! {

/// One binding of a `let`: a name and the expression bound to it.
#[derive(Debug, PartialEq)]
pub struct LetBinding {
    pub identifier: String,
    pub expr: AstNode,
}

#[derive(Debug, PartialEq)]
pub enum AstNode {
    Int(i64),
    Prim { op: String, args: Vec<AstNode> },
    Let { bindings: Vec<LetBinding>, body: Box<AstNode> },
    Var { name: String },
    Error { msg: String, token: Token },
}

/// A program: one expression.
#[derive(Debug, PartialEq)]
pub struct Program {
    pub info: (),
    pub exp: AstNode,
}

/// The model of a tree: names are sequences of characters, children are
/// sequences of models, a binding is a pair of a name and a model.
pub enum Expr {
    Int(i64),
    Prim { op: Seq<char>, args: Seq<Expr> },
    Let { bindings: Seq<(Seq<char>, Expr)>, body: Box<Expr> },
    Var { name: Seq<char> },
    Error { msg: Seq<char>, token: TokenView },
}

/// The model of a tree.
pub open spec fn expr_of(e: AstNode) -> Expr
    decreases e,
{
    match e {
        AstNode::Int(n) => Expr::Int(n),
        AstNode::Prim { op, args } => Expr::Prim {
            op: op@,
            args: Seq::new(
                args@.len(),
                |i: int|
                    if 0 <= i < args@.len() {
                        expr_of(args@[i])
                    } else {
                        Expr::Int(0)
                    },
            ),
        },
        AstNode::Let { bindings, body } => Expr::Let {
            bindings: Seq::new(
                bindings@.len(),
                |i: int|
                    if 0 <= i < bindings@.len() {
                        (bindings@[i].identifier@, expr_of(bindings@[i].expr))
                    } else {
                        (Seq::empty(), Expr::Int(0))
                    },
            ),
            body: Box::new(expr_of(*body)),
        },
        AstNode::Var { name } => Expr::Var { name: name@ },
        AstNode::Error { msg, token } => Expr::Error { msg: msg@, token: token@ },
    }
}

impl View for AstNode {
    type V = Expr;

    open spec fn view(&self) -> Expr {
        expr_of(*self)
    }
}

impl View for LetBinding {
    type V = (Seq<char>, Expr);

    open spec fn view(&self) -> (Seq<char>, Expr) {
        (self.identifier@, self.expr@)
    }
}

impl View for Program {
    type V = Expr;

    open spec fn view(&self) -> Expr {
        self.exp@
    }
}

/// The models of a sequence of trees, in order.
pub open spec fn exprs_of(v: Seq<AstNode>) -> Seq<Expr> {
    Seq::new(v.len(), |i: int| v[i]@)
}

/// The models of a sequence of bindings, in order.
pub open spec fn bindings_of(v: Seq<LetBinding>) -> Seq<(Seq<char>, Expr)> {
    Seq::new(v.len(), |i: int| v[i]@)
}

/// The model of a primitive application is made of the models of its
/// arguments.
pub proof fn lemma_view_prim(op: String, args: Vec<AstNode>)
    ensures
        (AstNode::Prim { op, args })@ == (Expr::Prim { op: op@, args: exprs_of(args@) }),
{
    assert((AstNode::Prim { op, args })@->Prim_args =~= exprs_of(args@));
}

/// The model of a `let` is made of the models of its bindings and body.
pub proof fn lemma_view_let(bindings: Vec<LetBinding>, body: Box<AstNode>)
    ensures
        (AstNode::Let { bindings, body })@ == (Expr::Let {
            bindings: bindings_of(bindings@),
            body: Box::new(body@),
        }),
{
    assert((AstNode::Let { bindings, body })@->Let_bindings =~= bindings_of(bindings@));
}

/// The name of addition.
pub open spec fn op_add() -> Seq<char> {
    "+"@
}

/// The name of negation.
pub open spec fn op_neg() -> Seq<char> {
    "-"@
}

/// The name of the primitive that reads an integer.
pub open spec fn op_read() -> Seq<char> {
    "read"@
}

/// The three operator names are different texts.
pub proof fn lemma_ops_differ()
    ensures
        op_add() != op_neg(),
        op_add() != op_read(),
        op_neg() != op_read(),
        op_add() == seq!['+'],
        op_neg() == seq!['-'],
        op_read() == seq!['r', 'e', 'a', 'd'],
{
    reveal_strlit("+");
    reveal_strlit("-");
    reveal_strlit("read");
    assert(op_add() =~= seq!['+']);
    assert(op_neg() =~= seq!['-']);
    assert(op_read() =~= seq!['r', 'e', 'a', 'd']);
    assert(op_add()[0] != op_neg()[0]);
}

/// An atom: an integer literal or a variable.
pub open spec fn is_atom(e: Expr) -> bool {
    e is Int || e is Var
}

/// `op` is one of the three operators, applied to as many arguments as it takes.
pub open spec fn known_op(op: Seq<char>, n: nat) -> bool {
    ||| op == op_add() && n == 2
    ||| op == op_neg() && n == 1
    ||| op == op_read() && n == 0
}

/// A tree that the grammar can produce: no error node, and every primitive
/// is one of the three operators with as many arguments as it takes.
pub open spec fn well_formed(e: Expr) -> bool
    decreases e,
{
    match e {
        Expr::Int(_) => true,
        Expr::Var { .. } => true,
        Expr::Error { .. } => false,
        Expr::Prim { op, args } => known_op(op, args.len()) && forall|i: int|
            0 <= i < args.len() ==> well_formed(#[trigger] args[i]),
        Expr::Let { bindings, body } => well_formed(*body) && forall|i: int|
            0 <= i < bindings.len() ==> well_formed((#[trigger] bindings[i]).1),
    }
}

/// A-normal form: well formed, and every argument of a primitive is an atom.
pub open spec fn anf(e: Expr) -> bool
    decreases e,
{
    match e {
        Expr::Int(_) => true,
        Expr::Var { .. } => true,
        Expr::Error { .. } => false,
        Expr::Prim { op, args } => known_op(op, args.len()) && forall|i: int|
            0 <= i < args.len() ==> is_atom(#[trigger] args[i]),
        Expr::Let { bindings, body } => anf(*body) && forall|i: int|
            0 <= i < bindings.len() ==> anf((#[trigger] bindings[i]).1),
    }
}

/// Whether `op` applied to `n` arguments is one of the three operators with
/// its own number of arguments.
pub fn check_known_op(op: &String, n: usize) -> (r: bool)
    ensures
        r == known_op(op@, n as nat),
{
    (same_text(op, "+") && n == 2) || (same_text(op, "-") && n == 1) || (same_text(op, "read")
        && n == 0)
}

/// A copy of a tree.
pub fn clone_node(e: &AstNode) -> (r: AstNode)
    ensures
        r@ == e@,
    decreases e,
{
    match e {
        AstNode::Int(n) => AstNode::Int(*n),
        AstNode::Var { name } => AstNode::Var { name: name.clone() },
        AstNode::Error { msg, token } => AstNode::Error { msg: msg.clone(), token: token.clone() },
        AstNode::Prim { op, args } => {
            let mut out: Vec<AstNode> = Vec::new();
            let mut i: usize = 0;
            while i < args.len()
                invariant
                    i <= args.len(),
                    out@.len() == i,
                    forall|j: int| 0 <= j < i ==> out@[j]@ == args@[j]@,
                    e is Prim,
                    e->Prim_args == args,
                decreases args.len() - i,
            {
                assert(decreases_to!(args => args[i as int]));
                out.push(clone_node(&args[i]));
                i += 1;
            }
            let r = AstNode::Prim { op: op.clone(), args: out };
            assert(r@->Prim_args =~= e@->Prim_args);
            r
        },
        AstNode::Let { bindings, body } => {
            let mut out: Vec<LetBinding> = Vec::new();
            let mut i: usize = 0;
            while i < bindings.len()
                invariant
                    i <= bindings.len(),
                    out@.len() == i,
                    forall|j: int| 0 <= j < i ==> out@[j]@ == bindings@[j]@,
                    e is Let,
                    e->Let_bindings == bindings,
                decreases bindings.len() - i,
            {
                assert(decreases_to!(bindings => bindings[i as int]));
                assert(decreases_to!(bindings[i as int] => bindings[i as int].expr));
                out.push(
                    LetBinding {
                        identifier: bindings[i].identifier.clone(),
                        expr: clone_node(&bindings[i].expr),
                    },
                );
                i += 1;
            }
            let r = AstNode::Let { bindings: out, body: Box::new(clone_node(body)) };
            assert(r@->Let_bindings =~= e@->Let_bindings);
            r
        },
    }
}

impl Clone for AstNode {
    fn clone(&self) -> (r: Self)
        ensures
            r@ == self@,
    {
        clone_node(self)
    }
}

impl Clone for LetBinding {
    fn clone(&self) -> (r: Self)
        ensures
            r@ == self@,
    {
        LetBinding { identifier: self.identifier.clone(), expr: clone_node(&self.expr) }
    }
}

impl Clone for Program {
    fn clone(&self) -> (r: Self)
        ensures
            r@ == self@,
    {
        Program { info: (), exp: clone_node(&self.exp) }
    }
}

/// Whether the tree is an integer literal or a variable.
pub fn check_atom(e: &AstNode) -> (r: bool)
    ensures
        r == is_atom(e@),
{
    match e {
        AstNode::Int(_) => true,
        AstNode::Var { .. } => true,
        _ => false,
    }
}

/// Whether the tree is well formed.
pub fn check_well_formed(e: &AstNode) -> (r: bool)
    ensures
        r == well_formed(e@),
    decreases e,
{
    match e {
        AstNode::Int(_) => true,
        AstNode::Var { .. } => true,
        AstNode::Error { .. } => false,
        AstNode::Prim { op, args } => {
            if !check_known_op(op, args.len()) {
                return false;
            }
            let mut i: usize = 0;
            while i < args.len()
                invariant
                    i <= args.len(),
                    forall|j: int| 0 <= j < i ==> well_formed(#[trigger] e@->Prim_args[j]),
                    e is Prim,
                    e->Prim_args == args,
                decreases args.len() - i,
            {
                assert(decreases_to!(args => args[i as int]));
                if !check_well_formed(&args[i]) {
                    assert(!well_formed(e@->Prim_args[i as int]));
                    return false;
                }
                i += 1;
            }
            true
        },
        AstNode::Let { bindings, body } => {
            let mut i: usize = 0;
            while i < bindings.len()
                invariant
                    i <= bindings.len(),
                    forall|j: int| 0 <= j < i ==> well_formed((#[trigger] e@->Let_bindings[j]).1),
                    e is Let,
                    e->Let_bindings == bindings,
                decreases bindings.len() - i,
            {
                assert(decreases_to!(bindings => bindings[i as int]));
                assert(decreases_to!(bindings[i as int] => bindings[i as int].expr));
                if !check_well_formed(&bindings[i].expr) {
                    assert(!well_formed(e@->Let_bindings[i as int].1));
                    return false;
                }
                i += 1;
            }
            check_well_formed(body)
        },
    }
}

/// Whether the tree is in A-normal form.
pub fn check_anf(e: &AstNode) -> (r: bool)
    ensures
        r == anf(e@),
    decreases e,
{
    match e {
        AstNode::Int(_) => true,
        AstNode::Var { .. } => true,
        AstNode::Error { .. } => false,
        AstNode::Prim { op, args } => {
            if !check_known_op(op, args.len()) {
                return false;
            }
            let mut i: usize = 0;
            while i < args.len()
                invariant
                    i <= args.len(),
                    forall|j: int| 0 <= j < i ==> is_atom(#[trigger] e@->Prim_args[j]),
                    e is Prim,
                    e->Prim_args == args,
                decreases args.len() - i,
            {
                if !check_atom(&args[i]) {
                    assert(!is_atom(e@->Prim_args[i as int]));
                    return false;
                }
                i += 1;
            }
            true
        },
        AstNode::Let { bindings, body } => {
            let mut i: usize = 0;
            while i < bindings.len()
                invariant
                    i <= bindings.len(),
                    forall|j: int| 0 <= j < i ==> anf((#[trigger] e@->Let_bindings[j]).1),
                    e is Let,
                    e->Let_bindings == bindings,
                decreases bindings.len() - i,
            {
                assert(decreases_to!(bindings => bindings[i as int]));
                assert(decreases_to!(bindings[i as int] => bindings[i as int].expr));
                if !check_anf(&bindings[i].expr) {
                    assert(!anf(e@->Let_bindings[i as int].1));
                    return false;
                }
                i += 1;
            }
            check_anf(body)
        },
    }
}

} // verus!
