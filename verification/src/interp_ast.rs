//! The reference interpreter of the tree form.

use crate::ast::AstNode;
use crate::ast::bindings_of;
use crate::ast::Expr;
use crate::ast::exprs_of;
use crate::ast::lemma_ops_differ;
use crate::ast::lemma_view_let;
use crate::ast::lemma_view_prim;
use crate::ast::op_add;
use crate::ast::op_neg;
use crate::ast::op_read;
use crate::ast::Program;
use crate::interpreter::CachedRuntimeCall;
use crate::interpreter::CacheView;
use crate::interpreter::Interpretable;
use crate::interpreter::InterpretResult;
use crate::interpreter::read_step;
use crate::natural::clone_names;
use crate::natural::names_view;
use crate::text::same_text;
use crate::types::Environment;
use crate::types::lookup_spec;
use crate::types::value_of_spec;
use vstd::prelude::*;

verus! {

/// What the interpreter has at a point of a run: the bindings made so far,
/// the cache of runtime calls, and the errors so far.
pub struct AstState {
    pub env: Seq<(Seq<char>, Expr)>,
    pub cache: CacheView,
    pub errors: Seq<Seq<char>>,
}

pub open spec fn undefined_message(name: Seq<char>) -> Seq<char> {
    name + " is not defined!"@
}

pub open spec fn redefined_message(name: Seq<char>) -> Seq<char> {
    name + " is already defined!"@
}

pub open spec fn operator_message(op: Seq<char>) -> Seq<char> {
    "Unrecognized operator in interp_exp: "@ + op
}

/// The state with one more error.
pub open spec fn with_error(s: AstState, msg: Seq<char>) -> AstState {
    AstState { env: s.env, cache: s.cache, errors: s.errors.push(msg) }
}

/// The value of `e` and the state after computing it. Sums and negations
/// wrap around. A `let` makes its bindings in order, each name bound to
/// the value of its expression, and refuses a name that is bound already.
/// Whatever fails adds an error and has no value; a sum computes both its
/// operands before it fails.
pub open spec fn interp_spec(e: Expr, s: AstState) -> (Option<i64>, AstState)
    decreases e, 0int,
{
    match e {
        Expr::Int(n) => (Some(n), s),
        Expr::Var { name } => match value_of_spec(s.env, name) {
            Some(Expr::Int(n)) => (Some(n), s),
            _ => (None, with_error(s, undefined_message(name))),
        },
        Expr::Error { msg, token } => (None, with_error(s, msg)),
        Expr::Prim { op, args } => {
            if op == op_add() && args.len() == 2 {
                let left = interp_spec(args[0], s);
                let right = interp_spec(args[1], left.1);
                match (left.0, right.0) {
                    (Some(a), Some(b)) => (Some(a.wrapping_add(b)), right.1),
                    _ => (None, right.1),
                }
            } else if op == op_neg() && args.len() == 1 {
                let inner = interp_spec(args[0], s);
                match inner.0 {
                    Some(a) => (Some(0i64.wrapping_sub(a)), inner.1),
                    None => (None, inner.1),
                }
            } else if op == op_read() && args.len() == 0 {
                let step = read_step(s.cache);
                let after = AstState { env: s.env, cache: step.1, errors: s.errors };
                match step.0 {
                    Ok(n) => (Some(n), after),
                    Err(msg) => (None, with_error(after, msg)),
                }
            } else {
                (None, with_error(s, operator_message(op)))
            }
        },
        Expr::Let { bindings, body } => {
            let bound = interp_bindings(bindings, bindings.len(), s);
            if bound.0 {
                interp_spec(*body, bound.1)
            } else {
                (None, bound.1)
            }
        },
    }
}

/// The state after the first `n` bindings of `bs` were made, and whether
/// all of them could be.
pub open spec fn interp_bindings(bs: Seq<(Seq<char>, Expr)>, n: nat, s: AstState) -> (
    bool,
    AstState,
)
    decreases bs, n,
{
    if n == 0 || n > bs.len() {
        (true, s)
    } else {
        let before = interp_bindings(bs, (n - 1) as nat, s);
        if !before.0 {
            before
        } else if lookup_spec(before.1.env, bs[n - 1].0) is Some {
            (false, with_error(before.1, redefined_message(bs[n - 1].0)))
        } else {
            let value = interp_spec(bs[n - 1].1, before.1);
            match value.0 {
                Some(v) => (
                    true,
                    AstState {
                        env: value.1.env.push((bs[n - 1].0, Expr::Int(v))),
                        cache: value.1.cache,
                        errors: value.1.errors,
                    },
                ),
                None => (false, value.1),
            }
        }
    }
}

/// Once a binding has failed, the later ones are not made.
pub proof fn lemma_bindings_stop(bs: Seq<(Seq<char>, Expr)>, m: nat, n: nat, s: AstState)
    requires
        m <= n <= bs.len(),
        !interp_bindings(bs, m, s).0,
    ensures
        interp_bindings(bs, n, s) == interp_bindings(bs, m, s),
    decreases n,
{
    if m < n {
        lemma_bindings_stop(bs, m, (n - 1) as nat, s);
    }
}

/// A run of a program: from no bindings, with the cache and the errors as
/// they stand.
pub open spec fn ast_run_spec(e: Expr, cache: CacheView, errors: Seq<Seq<char>>) -> (
    Option<i64>,
    AstState,
) {
    interp_spec(e, AstState { env: Seq::empty(), cache, errors })
}

/// The interpreter of a program in tree form.
pub struct AstInterpreter {
    program: Program,
    interpretation_error: bool,
    errors: Vec<String>,
    crc: CachedRuntimeCall,
}

impl AstInterpreter {
    /// The program that is run.
    pub closed spec fn program(&self) -> Expr {
        self.program@
    }

    /// The errors so far.
    pub closed spec fn errors(&self) -> Seq<Seq<char>> {
        names_view(self.errors@)
    }

    /// The cache of runtime calls as it stands.
    pub closed spec fn cache(&self) -> CacheView {
        self.crc@
    }

    /// Whether the error flag is up.
    pub closed spec fn flagged(&self) -> bool {
        self.interpretation_error
    }

    /// The flag is up exactly when there are errors.
    pub open spec fn consistent(&self) -> bool {
        self.flagged() == (self.errors().len() > 0)
    }

    pub fn new(p: Program, crc: CachedRuntimeCall) -> (r: AstInterpreter)
        ensures
            r.program() == p@,
            r.cache() == crc@,
            r.errors() == Seq::<Seq<char>>::empty(),
            r.consistent(),
    {
        let r = AstInterpreter { program: p, interpretation_error: false, errors: Vec::new(), crc };
        assert(r.errors() =~= Seq::empty());
        r
    }

    /// Runs the program from no bindings.
    pub fn run(&mut self) -> (r: Option<i64>)
        ensures
            r == ast_run_spec(old(self).program(), old(self).cache(), old(self).errors()).0,
            final(self).cache() == ast_run_spec(
                old(self).program(),
                old(self).cache(),
                old(self).errors(),
            ).1.cache,
            final(self).errors() == ast_run_spec(
                old(self).program(),
                old(self).cache(),
                old(self).errors(),
            ).1.errors,
            final(self).program() == old(self).program(),
            final(self).consistent(),
    {
        let mut envir = Environment::new();
        let r = Self::interp_exp(&mut self.errors, &mut self.crc, &mut envir, &self.program.exp);
        self.interpretation_error = self.errors.len() > 0;
        r
    }

    /// Whether no error has occurred.
    pub fn interpret_success(&self) -> (r: bool)
        ensures
            r == !self.flagged(),
    {
        !self.interpretation_error
    }

    /// The errors so far, oldest first.
    pub fn error_list(&self) -> (r: &Vec<String>)
        ensures
            names_view(r@) == self.errors(),
    {
        &self.errors
    }

    /// Ends the interpreter and hands its cache on.
    pub fn into_cache(self) -> (r: CachedRuntimeCall)
        ensures
            r@ == self.cache(),
    {
        self.crc
    }

    /// Runs the program and reports the outcome.
    pub fn report(&mut self) -> (r: InterpretResult)
        ensures
            r.value == ast_run_spec(old(self).program(), old(self).cache(), old(self).errors()).0,
            names_view(r.errors@) == ast_run_spec(
                old(self).program(),
                old(self).cache(),
                old(self).errors(),
            ).1.errors,
            r.had_error == (r.errors@.len() > 0),
            r.value is None ==> r.had_error,
            r.value is Some ==> names_view(r.errors@) == old(self).errors(),
            final(self).cache() == ast_run_spec(
                old(self).program(),
                old(self).cache(),
                old(self).errors(),
            ).1.cache,
            final(self).errors() == names_view(r.errors@),
            final(self).program() == old(self).program(),
            final(self).consistent(),
    {
        proof {
            lemma_value_or_error(
                self.program(),
                AstState { env: Seq::empty(), cache: self.cache(), errors: self.errors() },
            );
        }
        let value = self.run();
        let errors = clone_names(&self.errors);
        InterpretResult { value, had_error: self.interpretation_error, errors }
    }

    fn add_error(errors: &mut Vec<String>, msg: String)
        ensures
            names_view(final(errors)@) == names_view(old(errors)@).push(msg@),
    {
        errors.push(msg);
        assert(names_view(final(errors)@) =~= names_view(old(errors)@).push(msg@));
    }

    fn interp_exp(
        errors: &mut Vec<String>,
        crc: &mut CachedRuntimeCall,
        env: &mut Environment,
        e: &AstNode,
    ) -> (r: Option<i64>)
        ensures
            ({
                let out = interp_spec(
                    e@,
                    AstState { env: old(env)@, cache: old(crc)@, errors: names_view(old(errors)@) },
                );
                &&& r == out.0
                &&& final(env)@ == out.1.env
                &&& final(crc)@ == out.1.cache
                &&& names_view(final(errors)@) == out.1.errors
            }),
        decreases e,
    {
        let ghost s0 = AstState {
            env: old(env)@,
            cache: old(crc)@,
            errors: names_view(old(errors)@),
        };
        proof {
            lemma_ops_differ();
        }
        match e {
            AstNode::Int(n) => Some(*n),
            AstNode::Var { name } => {
                match env.get_value_of(name) {
                    Some(AstNode::Int(n)) => Some(*n),
                    _ => {
                        let mut msg = name.clone();
                        msg.append(" is not defined!");
                        Self::add_error(errors, msg);
                        None
                    },
                }
            },
            AstNode::Error { msg, token } => {
                Self::add_error(errors, msg.clone());
                None
            },
            AstNode::Prim { op, args } => {
                proof {
                    lemma_view_prim(*op, *args);
                }
                if same_text(op, "+") && args.len() == 2 {
                    let arg1 = Self::interp_exp(errors, crc, env, &args[0]);
                    let arg2 = Self::interp_exp(errors, crc, env, &args[1]);
                    match (arg1, arg2) {
                        (Some(a), Some(b)) => Some(a.wrapping_add(b)),
                        _ => None,
                    }
                } else if same_text(op, "-") && args.len() == 1 {
                    match Self::interp_exp(errors, crc, env, &args[0]) {
                        Some(a) => Some(0i64.wrapping_sub(a)),
                        None => None,
                    }
                } else if same_text(op, "read") && args.len() == 0 {
                    match crc.read_int() {
                        Ok(n) => Some(n),
                        Err(msg) => {
                            Self::add_error(errors, msg);
                            None
                        },
                    }
                } else {
                    let mut msg = String::from_str("Unrecognized operator in interp_exp: ");
                    msg.append(op.as_str());
                    Self::add_error(errors, msg);
                    None
                }
            },
            AstNode::Let { bindings, body } => {
                proof {
                    lemma_view_let(*bindings, *body);
                }
                let ghost bs = bindings_of(bindings@);
                let mut i: usize = 0;
                while i < bindings.len()
                    invariant
                        i <= bindings.len(),
                        bs == bindings_of(bindings@),
                        e is Let,
                        e->Let_bindings == bindings,
                        e@ == (Expr::Let { bindings: bs, body: Box::new(body@) }),
                        s0 == (AstState {
                            env: old(env)@,
                            cache: old(crc)@,
                            errors: names_view(old(errors)@),
                        }),
                        interp_bindings(bs, i as nat, s0) == (
                            true,
                            AstState { env: env@, cache: crc@, errors: names_view(errors@) },
                        ),
                    decreases bindings.len() - i,
                {
                    let binding = &bindings[i];
                    assert(decreases_to!(bindings => bindings[i as int]));
                    assert(decreases_to!(bindings[i as int] => bindings[i as int].expr));
                    assert(bs[i as int] == binding@);
                    if env.contains(&binding.identifier) {
                        let mut msg = binding.identifier.clone();
                        msg.append(" is already defined!");
                        Self::add_error(errors, msg);
                        proof {
                            lemma_bindings_stop(bs, (i + 1) as nat, bs.len(), s0);
                        }
                        return None;
                    }
                    match Self::interp_exp(errors, crc, env, &binding.expr) {
                        Some(v) => {
                            env.insert(binding.identifier.clone(), AstNode::Int(v));
                        },
                        None => {
                            proof {
                                lemma_bindings_stop(bs, (i + 1) as nat, bs.len(), s0);
                            }
                            return None;
                        },
                    }
                    i += 1;
                }
                Self::interp_exp(errors, crc, env, body)
            },
        }
    }
}

impl Interpretable for AstInterpreter {
    open spec fn outcome(&self) -> Option<i64> {
        ast_run_spec(self.program(), self.cache(), self.errors()).0
    }

    open spec fn run_errors(&self) -> Seq<Seq<char>> {
        ast_run_spec(self.program(), self.cache(), self.errors()).1.errors
    }

    open spec fn left_by(&self, before: &Self) -> bool {
        &&& self.program() == before.program()
        &&& self.cache() == ast_run_spec(before.program(), before.cache(), before.errors()).1.cache
        &&& self.errors() == before.run_errors()
        &&& self.consistent()
    }

    fn interpret(&mut self) -> (r: InterpretResult) {
        self.report()
    }
}

/// The number of `read`s in a tree: a run takes no line of input but for
/// one of them.
pub open spec fn read_count(e: Expr) -> nat
    decreases e, 0int,
{
    match e {
        Expr::Prim { op, args } => (if op == op_read() && args.len() == 0 {
            1nat
        } else {
            0nat
        }) + args_read_count(args, args.len()),
        Expr::Let { bindings, body } => bindings_read_count(bindings, bindings.len()) + read_count(
            *body,
        ),
        _ => 0,
    }
}

/// The number of `read`s in the first `n` arguments.
pub open spec fn args_read_count(args: Seq<Expr>, n: nat) -> nat
    decreases args, n,
{
    if n == 0 || n > args.len() {
        0
    } else {
        args_read_count(args, (n - 1) as nat) + read_count(args[n - 1])
    }
}

/// The number of `read`s in the first `n` bindings.
pub open spec fn bindings_read_count(bs: Seq<(Seq<char>, Expr)>, n: nat) -> nat
    decreases bs, n,
{
    if n == 0 || n > bs.len() {
        0
    } else {
        bindings_read_count(bs, (n - 1) as nat) + read_count(bs[n - 1].1)
    }
}

/// The smaller of the number and the largest that `usize` holds.
pub open spec fn capped(n: nat) -> usize {
    if n <= usize::MAX {
        n as usize
    } else {
        usize::MAX
    }
}

fn add_capped(a: usize, b: usize) -> (r: usize)
    ensures
        r == capped((a + b) as nat),
{
    match a.checked_add(b) {
        Some(sum) => sum,
        None => usize::MAX,
    }
}

/// The number of `read`s in the tree, or the largest number that `usize`
/// holds where there are more.
pub fn count_reads(e: &AstNode) -> (r: usize)
    ensures
        r == capped(read_count(e@)),
    decreases e,
{
    match e {
        AstNode::Prim { op, args } => {
            proof {
                lemma_view_prim(*op, *args);
            }
            let ghost all = exprs_of(args@);
            let mut total: usize = if same_text(op, "read") && args.len() == 0 {
                1
            } else {
                0
            };
            let ghost own = total as nat;
            let mut i: usize = 0;
            while i < args.len()
                invariant
                    i <= args@.len(),
                    all == exprs_of(args@),
                    e is Prim,
                    e->Prim_args == args,
                    own <= 1,
                    total == capped(own + args_read_count(all, i as nat)),
                decreases args.len() - i,
            {
                assert(decreases_to!(args => args[i as int]));
                assert(all[i as int] == args@[i as int]@);
                total = add_capped(total, count_reads(&args[i]));
                i += 1;
            }
            total
        },
        AstNode::Let { bindings, body } => {
            proof {
                lemma_view_let(*bindings, *body);
            }
            let ghost bs = bindings_of(bindings@);
            let mut total: usize = 0;
            let mut i: usize = 0;
            while i < bindings.len()
                invariant
                    i <= bindings@.len(),
                    bs == bindings_of(bindings@),
                    e is Let,
                    e->Let_bindings == bindings,
                    total == capped(bindings_read_count(bs, i as nat)),
                decreases bindings.len() - i,
            {
                assert(decreases_to!(bindings => bindings[i as int]));
                assert(decreases_to!(bindings[i as int] => bindings[i as int].expr));
                assert(bs[i as int].1 == bindings@[i as int].expr@);
                total = add_capped(total, count_reads(&bindings[i].expr));
                i += 1;
            }
            add_capped(total, count_reads(body))
        },
        _ => 0,
    }
}

/// The first failure leaves no value: a run that has a value adds no
/// error, and a run that has none adds one at least.
pub proof fn lemma_value_or_error(e: Expr, s: AstState)
    ensures
        interp_spec(e, s).0 is Some ==> interp_spec(e, s).1.errors == s.errors,
        interp_spec(e, s).0 is None ==> interp_spec(e, s).1.errors.len() > s.errors.len(),
    decreases e, 0int,
{
    match e {
        Expr::Prim { op, args } => {
            if op == op_add() && args.len() == 2 {
                lemma_value_or_error(args[0], s);
                lemma_value_or_error(args[1], interp_spec(args[0], s).1);
            } else if op == op_neg() && args.len() == 1 {
                lemma_value_or_error(args[0], s);
            }
        },
        Expr::Let { bindings, body } => {
            lemma_bound_or_error(bindings, bindings.len(), s);
            let bound = interp_bindings(bindings, bindings.len(), s);
            if bound.0 {
                lemma_value_or_error(*body, bound.1);
            }
        },
        _ => {},
    }
}

/// Bindings that could all be made add no error; where one could not be
/// made, an error was added.
pub proof fn lemma_bound_or_error(bs: Seq<(Seq<char>, Expr)>, n: nat, s: AstState)
    requires
        n <= bs.len(),
    ensures
        interp_bindings(bs, n, s).0 ==> interp_bindings(bs, n, s).1.errors == s.errors,
        !interp_bindings(bs, n, s).0 ==> interp_bindings(bs, n, s).1.errors.len() > s.errors.len(),
    decreases bs, n,
{
    if n > 0 {
        lemma_bound_or_error(bs, (n - 1) as nat, s);
        let before = interp_bindings(bs, (n - 1) as nat, s);
        if before.0 && lookup_spec(before.1.env, bs[n - 1].0) is None {
            lemma_value_or_error(bs[n - 1].1, before.1);
        }
    }
}

} // verus!
