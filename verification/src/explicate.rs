//! Explicate control: a program in A-normal form becomes a list of
//! assignments that ends in one return.

use crate::ast::anf;
use crate::ast::AstNode;
use crate::ast::bindings_of;
use crate::ast::Expr;
use crate::ast::exprs_of;
use crate::ast::is_atom;
use crate::ast::lemma_view_let;
use crate::ast::lemma_view_prim;
use crate::ast::LetBinding;
use crate::ast::Program;
use crate::natural::dedup_names;
use crate::natural::dedup_spec;
use crate::natural::names_view;
use crate::natural::natural_sort;
use crate::natural::natural_sort_spec;
use vstd::pervasive::unreached;
use vstd::prelude::*;

verus! {

#[derive(Debug, PartialEq)]
pub enum Atm {
    Int(i64),
    Var { name: String },
}

#[derive(Debug, PartialEq)]
pub enum Exp {
    Atm(Atm),
    Prim { op: String, args: Vec<Atm> },
}

#[derive(Debug, PartialEq)]
pub enum Stmt {
    Assign(Atm, Exp),
}

#[derive(Debug, PartialEq)]
pub enum Tail {
    Return(Exp),
    Sequence(Stmt, Box<Tail>),
}

/// One function of the intermediate form: its local variables, and its
/// labelled blocks in the order in which they were made.
#[derive(Debug, PartialEq)]
pub struct IRFunction {
    pub locals: Vec<String>,
    pub labels: Vec<(String, Tail)>,
}

/// The functions of a program, each under its name.
#[derive(Debug, PartialEq)]
pub struct IRProgram {
    pub functions: Vec<(String, IRFunction)>,
}

pub enum AtmView {
    Int(i64),
    Var { name: Seq<char> },
}

pub enum ExpView {
    Atm(AtmView),
    Prim { op: Seq<char>, args: Seq<AtmView> },
}

pub enum StmtView {
    Assign(AtmView, ExpView),
}

pub enum TailView {
    Return(ExpView),
    Sequence(StmtView, Box<TailView>),
}

pub struct IRFunctionView {
    pub locals: Seq<Seq<char>>,
    pub labels: Seq<(Seq<char>, TailView)>,
}

impl View for Atm {
    type V = AtmView;

    open spec fn view(&self) -> AtmView {
        match self {
            Atm::Int(n) => AtmView::Int(*n),
            Atm::Var { name } => AtmView::Var { name: name@ },
        }
    }
}

/// The models of a sequence of atoms, in order.
pub open spec fn atoms_view(v: Seq<Atm>) -> Seq<AtmView> {
    Seq::new(v.len(), |i: int| v[i]@)
}

impl View for Exp {
    type V = ExpView;

    open spec fn view(&self) -> ExpView {
        match self {
            Exp::Atm(a) => ExpView::Atm(a@),
            Exp::Prim { op, args } => ExpView::Prim { op: op@, args: atoms_view(args@) },
        }
    }
}

impl View for Stmt {
    type V = StmtView;

    open spec fn view(&self) -> StmtView {
        match self {
            Stmt::Assign(lhs, rhs) => StmtView::Assign(lhs@, rhs@),
        }
    }
}

/// The model of a block.
pub open spec fn tail_of(t: Tail) -> TailView
    decreases t,
{
    match t {
        Tail::Return(e) => TailView::Return(e@),
        Tail::Sequence(s, rest) => TailView::Sequence(s@, Box::new(tail_of(*rest))),
    }
}

impl View for Tail {
    type V = TailView;

    open spec fn view(&self) -> TailView {
        tail_of(*self)
    }
}

/// The models of a sequence of labelled blocks, in order.
pub open spec fn labels_view(v: Seq<(String, Tail)>) -> Seq<(Seq<char>, TailView)> {
    Seq::new(v.len(), |i: int| (v[i].0@, v[i].1@))
}

impl View for IRFunction {
    type V = IRFunctionView;

    open spec fn view(&self) -> IRFunctionView {
        IRFunctionView { locals: names_view(self.locals@), labels: labels_view(self.labels@) }
    }
}

impl View for IRProgram {
    type V = Seq<(Seq<char>, IRFunctionView)>;

    open spec fn view(&self) -> Seq<(Seq<char>, IRFunctionView)> {
        Seq::new(self.functions@.len(), |i: int| (self.functions@[i].0@, self.functions@[i].1@))
    }
}

/// The atom that an atomic expression is.
pub open spec fn atom_of(e: Expr) -> AtmView {
    match e {
        Expr::Int(n) => AtmView::Int(n),
        Expr::Var { name } => AtmView::Var { name },
        _ => AtmView::Int(0),
    }
}

/// The atoms that a sequence of atomic expressions are.
pub open spec fn atoms_of(args: Seq<Expr>) -> Seq<AtmView> {
    Seq::new(args.len(), |i: int| atom_of(args[i]))
}

/// What an atom or a primitive over atoms is in the intermediate form.
pub open spec fn exp_of(e: Expr) -> ExpView {
    match e {
        Expr::Prim { op, args } => ExpView::Prim { op, args: atoms_of(args) },
        _ => ExpView::Atm(atom_of(e)),
    }
}

/// The statements that assign the value of `e` to `x`, followed by `cont`.
/// A `let` first makes its bindings' assignments, in order, then assigns
/// its body; anything else is one assignment.
pub open spec fn explicate_assign_spec(e: Expr, x: Seq<char>, cont: TailView) -> TailView
    decreases e, 0int,
{
    match e {
        Expr::Let { bindings, body } => assign_bindings(
            bindings,
            bindings.len(),
            explicate_assign_spec(*body, x, cont),
        ),
        _ => TailView::Sequence(
            StmtView::Assign(AtmView::Var { name: x }, exp_of(e)),
            Box::new(cont),
        ),
    }
}

/// The assignments of the first `n` bindings of `bs`, in order, followed by `cont`.
pub open spec fn assign_bindings(bs: Seq<(Seq<char>, Expr)>, n: nat, cont: TailView) -> TailView
    decreases bs, n,
{
    if n == 0 || n > bs.len() {
        cont
    } else {
        assign_bindings(
            bs,
            (n - 1) as nat,
            explicate_assign_spec(bs[n - 1].1, bs[n - 1].0, cont),
        )
    }
}

/// The statements that compute `e` and return its value.
pub open spec fn explicate_tail_spec(e: Expr) -> TailView
    decreases e,
{
    match e {
        Expr::Let { bindings, body } => assign_bindings(
            bindings,
            bindings.len(),
            explicate_tail_spec(*body),
        ),
        _ => TailView::Return(exp_of(e)),
    }
}

/// The names that the statements of `t` assign to, in order.
pub open spec fn lhs_names(t: TailView) -> Seq<Seq<char>>
    decreases t,
{
    match t {
        TailView::Return(_) => Seq::empty(),
        TailView::Sequence(StmtView::Assign(lhs, _), rest) => match lhs {
            AtmView::Var { name } => seq![name] + lhs_names(*rest),
            AtmView::Int(_) => lhs_names(*rest),
        },
    }
}

/// The local variables of a block: the names it assigns to, each once, in
/// natural order.
pub open spec fn locals_of(t: TailView) -> Seq<Seq<char>> {
    natural_sort_spec(dedup_spec(lhs_names(t)))
}

/// The name of the entry function.
pub open spec fn entry_name() -> Seq<char> {
    "start"@
}

/// The label of a function's first block.
pub open spec fn first_label() -> Seq<char> {
    ".l1"@
}

/// The intermediate form of a program: one function, the entry, with one
/// block under the first label.
pub open spec fn explicate_control_spec(e: Expr) -> Seq<(Seq<char>, IRFunctionView)> {
    seq![
        (
            entry_name(),
            IRFunctionView {
                locals: locals_of(explicate_tail_spec(e)),
                labels: seq![(first_label(), explicate_tail_spec(e))],
            },
        ),
    ]
}

impl Clone for Atm {
    fn clone(&self) -> (r: Self)
        ensures
            r@ == self@,
    {
        match self {
            Atm::Int(n) => Atm::Int(*n),
            Atm::Var { name } => Atm::Var { name: name.clone() },
        }
    }
}

impl Clone for Exp {
    fn clone(&self) -> (r: Self)
        ensures
            r@ == self@,
    {
        match self {
            Exp::Atm(a) => Exp::Atm(a.clone()),
            Exp::Prim { op, args } => {
                let mut out: Vec<Atm> = Vec::new();
                let mut i: usize = 0;
                while i < args.len()
                    invariant
                        i <= args.len(),
                        out@.len() == i,
                        forall|j: int| 0 <= j < i ==> out@[j]@ == args@[j]@,
                    decreases args.len() - i,
                {
                    out.push(args[i].clone());
                    i += 1;
                }
                assert(atoms_view(out@) =~= atoms_view(args@));
                Exp::Prim { op: op.clone(), args: out }
            },
        }
    }
}

impl Clone for Stmt {
    fn clone(&self) -> (r: Self)
        ensures
            r@ == self@,
    {
        match self {
            Stmt::Assign(lhs, rhs) => Stmt::Assign(lhs.clone(), rhs.clone()),
        }
    }
}

/// A copy of a block.
pub fn clone_tail(t: &Tail) -> (r: Tail)
    ensures
        r@ == t@,
    decreases t,
{
    match t {
        Tail::Return(e) => Tail::Return(e.clone()),
        Tail::Sequence(s, rest) => Tail::Sequence(s.clone(), Box::new(clone_tail(rest))),
    }
}

impl Clone for Tail {
    fn clone(&self) -> (r: Self)
        ensures
            r@ == self@,
    {
        clone_tail(self)
    }
}

impl Clone for IRFunction {
    fn clone(&self) -> (r: Self)
        ensures
            r@ == self@,
    {
        let locals = crate::natural::clone_names(&self.locals);
        let mut labels: Vec<(String, Tail)> = Vec::new();
        let mut i: usize = 0;
        while i < self.labels.len()
            invariant
                i <= self.labels.len(),
                labels@.len() == i,
                forall|j: int|
                    0 <= j < i ==> labels@[j].0@ == self.labels@[j].0@ && labels@[j].1@
                        == self.labels@[j].1@,
            decreases self.labels.len() - i,
        {
            labels.push((self.labels[i].0.clone(), clone_tail(&self.labels[i].1)));
            i += 1;
        }
        let r = IRFunction { locals, labels };
        assert(r@.labels =~= self@.labels);
        r
    }
}

impl Clone for IRProgram {
    fn clone(&self) -> (r: Self)
        ensures
            r@ == self@,
    {
        let mut functions: Vec<(String, IRFunction)> = Vec::new();
        let mut i: usize = 0;
        while i < self.functions.len()
            invariant
                i <= self.functions.len(),
                functions@.len() == i,
                forall|j: int|
                    0 <= j < i ==> functions@[j].0@ == self.functions@[j].0@ && functions@[j].1@
                        == self.functions@[j].1@,
            decreases self.functions.len() - i,
        {
            functions.push((self.functions[i].0.clone(), self.functions[i].1.clone()));
            i += 1;
        }
        let r = IRProgram { functions };
        assert(r@ =~= self@);
        r
    }
}

/// The atoms that the arguments of a primitive are.
fn prim_args_to_ir_atm_vec(args: Vec<AstNode>) -> (v: Vec<Atm>)
    requires
        forall|i: int| 0 <= i < args@.len() ==> is_atom(#[trigger] exprs_of(args@)[i]),
    ensures
        atoms_view(v@) == atoms_of(exprs_of(args@)),
{
    let mut v: Vec<Atm> = Vec::new();
    let mut i: usize = 0;
    while i < args.len()
        invariant
            i <= args.len(),
            v@.len() == i,
            forall|j: int| 0 <= j < args@.len() ==> is_atom(#[trigger] exprs_of(args@)[j]),
            forall|j: int| 0 <= j < i ==> v@[j]@ == atom_of(exprs_of(args@)[j]),
        decreases args.len() - i,
    {
        assert(is_atom(exprs_of(args@)[i as int]));
        match &args[i] {
            AstNode::Int(n) => {
                v.push(Atm::Int(*n));
            },
            AstNode::Var { name } => {
                v.push(Atm::Var { name: name.clone() });
            },
            _ => {
                unreached::<()>();
            },
        }
        i += 1;
    }
    assert(atoms_view(v@) =~= atoms_of(exprs_of(args@)));
    v
}

/// What an atom or a primitive over atoms is in the intermediate form.
fn explicate_exp(exp: AstNode) -> (r: Exp)
    requires
        anf(exp@),
        !(exp@ is Let),
    ensures
        r@ == exp_of(exp@),
{
    match exp {
        AstNode::Int(n) => Exp::Atm(Atm::Int(n)),
        AstNode::Var { name } => Exp::Atm(Atm::Var { name }),
        AstNode::Prim { op, args } => {
            proof {
                lemma_view_prim(op, args);
            }
            Exp::Prim { op, args: prim_args_to_ir_atm_vec(args) }
        },
        _ => unreached(),
    }
}

/// A builder of the intermediate form; it keeps the names that the blocks
/// it was shown assign to, in the order of the assignments.
pub struct Explicator {
    local_vars: Vec<String>,
}

impl Explicator {
    /// The names noted so far.
    pub closed spec fn noted(&self) -> Seq<Seq<char>> {
        names_view(self.local_vars@)
    }

    pub fn new() -> (r: Explicator)
        ensures
            r.noted() == Seq::<Seq<char>>::empty(),
    {
        let r = Explicator { local_vars: Vec::new() };
        assert(r.noted() =~= Seq::empty());
        r
    }

    /// The names noted so far.
    pub fn local_vars(&self) -> (r: &Vec<String>)
        ensures
            names_view(r@) == self.noted(),
    {
        &self.local_vars
    }

    /// The statements that compute `exp` and return its value; the names
    /// that they assign to are noted, in order.
    pub fn explicate_tail(&mut self, exp: AstNode) -> (r: Tail)
        requires
            anf(exp@),
        ensures
            r@ == explicate_tail_spec(exp@),
            final(self).noted() == old(self).noted() + lhs_names(r@),
    {
        proof {
            lemma_tail_names(exp@);
        }
        self.note_returned(&exp);
        Self::build_tail(exp)
    }

    /// The statements that assign the value of `exp` to `var`, followed by
    /// `acc`; the names that the new statements assign to are noted, in order.
    pub fn explicate_assign(&mut self, exp: AstNode, var: String, acc: Tail) -> (r: Tail)
        requires
            anf(exp@),
        ensures
            r@ == explicate_assign_spec(exp@, var@, acc@),
            final(self).noted() == old(self).noted() + assigned_names(exp@, var@),
            lhs_names(r@) == assigned_names(exp@, var@) + lhs_names(acc@),
    {
        proof {
            lemma_assign_names(exp@, var@, acc@);
        }
        self.note_assigned(&exp, &var);
        Self::build_assign(exp, var, acc)
    }

    fn note(&mut self, name: &String)
        ensures
            final(self).noted() == old(self).noted().push(name@),
    {
        self.local_vars.push(name.clone());
        assert(final(self).noted() =~= old(self).noted().push(name@));
    }

    /// Notes the names that assigning `exp` to `var` assigns to.
    fn note_assigned(&mut self, exp: &AstNode, var: &String)
        ensures
            final(self).noted() == old(self).noted() + assigned_names(exp@, var@),
        decreases exp, 1int,
    {
        match exp {
            AstNode::Let { bindings, body } => {
                proof {
                    lemma_view_let(*bindings, *body);
                }
                self.note_bindings(bindings, Ghost(*exp));
                let ghost before = self.noted();
                self.note_assigned(body, var);
                assert(final(self).noted() =~= old(self).noted() + assigned_names(exp@, var@));
            },
            _ => {
                self.note(var);
                assert(final(self).noted() =~= old(self).noted() + assigned_names(exp@, var@));
            },
        }
    }

    /// Notes the names that returning `exp` assigns to.
    fn note_returned(&mut self, exp: &AstNode)
        ensures
            final(self).noted() == old(self).noted() + tail_assigned(exp@),
        decreases exp, 1int,
    {
        match exp {
            AstNode::Let { bindings, body } => {
                proof {
                    lemma_view_let(*bindings, *body);
                }
                self.note_bindings(bindings, Ghost(*exp));
                self.note_returned(body);
                assert(final(self).noted() =~= old(self).noted() + tail_assigned(exp@));
            },
            _ => {
                assert(final(self).noted() =~= old(self).noted() + tail_assigned(exp@));
            },
        }
    }

    /// Notes the names that the bindings of the `let` `whole` assign to.
    fn note_bindings(&mut self, bindings: &Vec<LetBinding>, Ghost(whole): Ghost<AstNode>)
        requires
            whole is Let,
            whole->Let_bindings == *bindings,
        ensures
            final(self).noted() == old(self).noted() + bindings_assigned(
                bindings_of(bindings@),
                bindings@.len(),
            ),
        decreases whole, 0int,
    {
        let ghost bs = bindings_of(bindings@);
        let mut i: usize = 0;
        assert(self.noted() + bindings_assigned(bs, 0) =~= self.noted());
        while i < bindings.len()
            invariant
                i <= bindings@.len(),
                bs == bindings_of(bindings@),
                whole is Let,
                whole->Let_bindings == *bindings,
                self.noted() == old(self).noted() + bindings_assigned(bs, i as nat),
            decreases bindings.len() - i,
        {
            assert(decreases_to!(whole => whole->Let_bindings));
            assert(decreases_to!(bindings => bindings[i as int]));
            assert(decreases_to!(bindings[i as int] => bindings[i as int].expr));
            assert(bs[i as int] == bindings@[i as int]@);
            let ghost before = self.noted();
            self.note_assigned(&bindings[i].expr, &bindings[i].identifier);
            assert(self.noted() =~= old(self).noted() + bindings_assigned(bs, (i + 1) as nat));
            i += 1;
        }
    }

    /// The statements that compute `exp` and return its value.
    fn build_tail(exp: AstNode) -> (r: Tail)
        requires
            anf(exp@),
        ensures
            r@ == explicate_tail_spec(exp@),
        decreases exp@, 1int,
    {
        let ghost e0 = exp@;
        match exp {
            AstNode::Let { bindings, body } => {
                proof {
                    lemma_view_let(bindings, body);
                }
                let last_tail = Self::build_tail(*body);
                Self::explicate_bindings(bindings, last_tail, Ghost(e0))
            },
            other => Tail::Return(explicate_exp(other)),
        }
    }

    /// The statements that assign the value of `exp` to `var`, followed by `acc`.
    fn build_assign(exp: AstNode, var: String, acc: Tail) -> (r: Tail)
        requires
            anf(exp@),
        ensures
            r@ == explicate_assign_spec(exp@, var@, acc@),
        decreases exp@, 1int,
    {
        let ghost e0 = exp@;
        match exp {
            AstNode::Let { bindings, body } => {
                proof {
                    lemma_view_let(bindings, body);
                }
                let body_assign = Self::build_assign(*body, var, acc);
                Self::explicate_bindings(bindings, body_assign, Ghost(e0))
            },
            other => Tail::Sequence(
                Stmt::Assign(Atm::Var { name: var }, explicate_exp(other)),
                Box::new(acc),
            ),
        }
    }

    /// The assignments of the bindings of the `let` `whole`, in order,
    /// followed by `acc`: a fold from the last binding to the first.
    fn explicate_bindings(bindings: Vec<LetBinding>, acc: Tail, Ghost(whole): Ghost<Expr>) -> (r:
        Tail)
        requires
            whole is Let,
            whole->Let_bindings == bindings_of(bindings@),
            anf(whole),
        ensures
            r@ == assign_bindings(bindings_of(bindings@), bindings@.len(), acc@),
        decreases whole, 0int,
    {
        let ghost bs = bindings_of(bindings@);
        let ghost acc0 = acc@;
        let mut bindings = bindings;
        let mut acc = acc;
        while bindings.len() > 0
            invariant
                bindings@.len() <= bs.len(),
                bindings_of(bindings@) == bs.take(bindings@.len() as int),
                whole is Let,
                whole->Let_bindings == bs,
                anf(whole),
                assign_bindings(bs, bs.len(), acc0) == assign_bindings(
                    bs,
                    bindings@.len() as nat,
                    acc@,
                ),
            decreases bindings.len(),
        {
            let ghost n = bindings@.len();
            let ghost before = bindings_of(bindings@);
            let b = bindings.pop().unwrap();
            proof {
                assert(b@ == before[n - 1]);
                assert(b@ == bs[n - 1]);
                assert(anf((whole->Let_bindings[n - 1]).1));
                assert(decreases_to!(whole => bs));
                assert(decreases_to!(bs => bs[n - 1]));
                assert(decreases_to!(bs[n - 1] => bs[n - 1].1));
                assert(bindings_of(bindings@) =~= bs.take(bindings@.len() as int));
            }
            acc = Self::build_assign(b.expr, b.identifier, acc);
        }
        acc
    }
}

/// The names that the statements assigning `e` to `x` assign to, in order:
/// those of a `let`'s bindings, then those of its body; for anything else,
/// `x` alone.
pub open spec fn assigned_names(e: Expr, x: Seq<char>) -> Seq<Seq<char>>
    decreases e, 0int,
{
    match e {
        Expr::Let { bindings, body } => bindings_assigned(bindings, bindings.len())
            + assigned_names(*body, x),
        _ => seq![x],
    }
}

/// The names that the assignments of the first `n` bindings assign to.
pub open spec fn bindings_assigned(bs: Seq<(Seq<char>, Expr)>, n: nat) -> Seq<Seq<char>>
    decreases bs, n,
{
    if n == 0 || n > bs.len() {
        Seq::empty()
    } else {
        bindings_assigned(bs, (n - 1) as nat) + assigned_names(bs[n - 1].1, bs[n - 1].0)
    }
}

/// The names that the statements returning `e` assign to, in order.
pub open spec fn tail_assigned(e: Expr) -> Seq<Seq<char>>
    decreases e,
{
    match e {
        Expr::Let { bindings, body } => bindings_assigned(bindings, bindings.len()) + tail_assigned(
            *body,
        ),
        _ => Seq::empty(),
    }
}

/// The statements that assign `e` to `x` assign to the names of
/// `assigned_names`, in front of what follows.
pub proof fn lemma_assign_names(e: Expr, x: Seq<char>, cont: TailView)
    ensures
        lhs_names(explicate_assign_spec(e, x, cont)) == assigned_names(e, x) + lhs_names(cont),
    decreases e, 1int,
{
    match e {
        Expr::Let { bindings, body } => {
            lemma_assign_names(*body, x, cont);
            lemma_bindings_names(bindings, bindings.len(), explicate_assign_spec(*body, x, cont), e);
            assert(bindings_assigned(bindings, bindings.len()) + (assigned_names(*body, x)
                + lhs_names(cont)) =~= assigned_names(e, x) + lhs_names(cont));
        },
        _ => {},
    }
}

proof fn lemma_bindings_names(bs: Seq<(Seq<char>, Expr)>, n: nat, cont: TailView, whole: Expr)
    requires
        n <= bs.len(),
        whole is Let,
        whole->Let_bindings == bs,
    ensures
        lhs_names(assign_bindings(bs, n, cont)) == bindings_assigned(bs, n) + lhs_names(cont),
    decreases whole, 0int, n,
{
    if n == 0 {
        assert(bindings_assigned(bs, 0) + lhs_names(cont) =~= lhs_names(cont));
    } else {
        let inner = explicate_assign_spec(bs[n - 1].1, bs[n - 1].0, cont);
        assert(decreases_to!(whole => bs));
        assert(decreases_to!(bs => bs[n - 1]));
        assert(decreases_to!(bs[n - 1] => bs[n - 1].1));
        lemma_assign_names(bs[n - 1].1, bs[n - 1].0, cont);
        lemma_bindings_names(bs, (n - 1) as nat, inner, whole);
        assert(bindings_assigned(bs, (n - 1) as nat) + (assigned_names(bs[n - 1].1, bs[n - 1].0)
            + lhs_names(cont)) =~= bindings_assigned(bs, n) + lhs_names(cont));
    }
}

/// The statements that return `e` assign to the names of `tail_assigned`.
pub proof fn lemma_tail_names(e: Expr)
    ensures
        lhs_names(explicate_tail_spec(e)) == tail_assigned(e),
    decreases e, 1int,
{
    match e {
        Expr::Let { bindings, body } => {
            lemma_tail_names(*body);
            lemma_bindings_names(bindings, bindings.len(), explicate_tail_spec(*body), e);
        },
        _ => {},
    }
}

/// The intermediate form of a program in A-normal form.
pub fn explicate_control(program: Program) -> (r: IRProgram)
    requires
        anf(program@),
    ensures
        r@ == explicate_control_spec(program@),
{
    let mut explicator = Explicator::new();
    let instructions = explicator.explicate_tail(program.exp);
    assert(explicator.noted() =~= lhs_names(instructions@));
    let fn_locals = natural_sort(&dedup_names(&explicator.local_vars));
    let mut labels: Vec<(String, Tail)> = Vec::new();
    labels.push((String::from_str(".l1"), instructions));
    let function = IRFunction { locals: fn_locals, labels };
    assert(function@.labels =~= seq![(first_label(), explicate_tail_spec(program@))]);
    let mut functions: Vec<(String, IRFunction)> = Vec::new();
    functions.push((String::from_str("start"), function));
    let r = IRProgram { functions };
    assert(r@ =~= explicate_control_spec(program@));
    r
}

} // verus!
