//! The reference interpreter of the intermediate form.

use crate::ast::lemma_ops_differ;
use crate::ast::op_add;
use crate::ast::op_neg;
use crate::ast::op_read;
use crate::explicate::Atm;
use crate::explicate::AtmView;
use crate::explicate::atoms_view;
use crate::explicate::entry_name;
use crate::explicate::Exp;
use crate::explicate::ExpView;
use crate::explicate::first_label;
use crate::explicate::IRFunction;
use crate::explicate::IRFunctionView;
use crate::explicate::IRProgram;
use crate::explicate::Stmt;
use crate::explicate::StmtView;
use crate::explicate::Tail;
use crate::explicate::TailView;
use crate::interpreter::CachedRuntimeCall;
use crate::interpreter::CacheView;
use crate::interpreter::Interpretable;
use crate::interpreter::InterpretResult;
use crate::interpreter::read_step;
use crate::natural::clone_names;
use crate::natural::find_name;
use crate::natural::names_view;
use crate::text::same_text;
use vstd::prelude::*;

verus! {

/// What the interpreter has at a point of a run: the variables assigned so
/// far (the latest assignment of a name counting), the cache of runtime
/// calls, and the errors so far.
pub struct IrState {
    pub vars: Seq<(Seq<char>, i64)>,
    pub cache: CacheView,
    pub errors: Seq<Seq<char>>,
}

/// The value that `name` was assigned last.
pub open spec fn var_lookup(vars: Seq<(Seq<char>, i64)>, name: Seq<char>) -> Option<i64>
    decreases vars.len(),
{
    if vars.len() == 0 {
        None
    } else if vars.last().0 == name {
        Some(vars.last().1)
    } else {
        var_lookup(vars.drop_last(), name)
    }
}

pub open spec fn undeclared_message(name: Seq<char>) -> Seq<char> {
    "Attempted to use undeclared variable: '"@ + name + "'"@
}

pub open spec fn primitive_message(op: Seq<char>) -> Seq<char> {
    "handle_exp: unknown primitive: "@ + op
}

pub open spec fn no_entry_message() -> Seq<char> {
    "entry point 'start' not found!"@
}

pub open spec fn no_label_message() -> Seq<char> {
    "entry label '.l1' not found!"@
}

/// The state with one more error.
pub open spec fn ir_error(s: IrState, msg: Seq<char>) -> IrState {
    IrState { vars: s.vars, cache: s.cache, errors: s.errors.push(msg) }
}

/// The value of an atom: a literal's own, a variable's latest.
pub open spec fn atm_spec(a: AtmView, s: IrState) -> (Option<i64>, IrState) {
    match a {
        AtmView::Int(n) => (Some(n), s),
        AtmView::Var { name } => match var_lookup(s.vars, name) {
            Some(n) => (Some(n), s),
            None => (None, ir_error(s, undeclared_message(name))),
        },
    }
}

/// The value of an expression and the state after computing it. Sums and
/// negations wrap around.
pub open spec fn exp_spec(e: ExpView, s: IrState) -> (Option<i64>, IrState) {
    match e {
        ExpView::Atm(a) => atm_spec(a, s),
        ExpView::Prim { op, args } => {
            if op == op_add() && args.len() == 2 {
                let left = atm_spec(args[0], s);
                let right = atm_spec(args[1], left.1);
                match (left.0, right.0) {
                    (Some(a), Some(b)) => (Some(a.wrapping_add(b)), right.1),
                    _ => (None, right.1),
                }
            } else if op == op_neg() && args.len() == 1 {
                let inner = atm_spec(args[0], s);
                match inner.0 {
                    Some(a) => (Some(0i64.wrapping_sub(a)), inner.1),
                    None => (None, inner.1),
                }
            } else if op == op_read() && args.len() == 0 {
                let step = read_step(s.cache);
                let after = IrState { vars: s.vars, cache: step.1, errors: s.errors };
                match step.0 {
                    Ok(n) => (Some(n), after),
                    Err(msg) => (None, ir_error(after, msg)),
                }
            } else {
                (None, ir_error(s, primitive_message(op)))
            }
        },
    }
}

pub open spec fn target_message() -> Seq<char> {
    "Attempted to assign to what is no variable"@
}

/// Whether a statement could be run, and the state after it. An assignment
/// whose expression has a value binds its variable to it. It fails, with
/// an error, where the expression fails or where what is assigned to is no
/// variable; then nothing is bound.
pub open spec fn stmt_spec(st: StmtView, s: IrState) -> (bool, IrState) {
    match st {
        StmtView::Assign(lhs, rhs) => {
            let value = exp_spec(rhs, s);
            match (lhs, value.0) {
                (AtmView::Var { name }, Some(v)) => (
                    true,
                    IrState {
                        vars: value.1.vars.push((name, v)),
                        cache: value.1.cache,
                        errors: value.1.errors,
                    },
                ),
                (AtmView::Int(_), Some(_)) => (false, ir_error(value.1, target_message())),
                _ => (false, value.1),
            }
        },
    }
}

/// The value that a block returns and the state after running it. The
/// first statement that fails ends the run: the block then has no value,
/// and nothing behind that statement is run.
pub open spec fn tail_spec(t: TailView, s: IrState) -> (Option<i64>, IrState)
    decreases t,
{
    match t {
        TailView::Return(e) => exp_spec(e, s),
        TailView::Sequence(st, rest) => {
            let step = stmt_spec(st, s);
            if step.0 {
                tail_spec(*rest, step.1)
            } else {
                (None, step.1)
            }
        },
    }
}

/// The labels of a function, in order.
pub open spec fn label_names(f: IRFunctionView) -> Seq<Seq<char>> {
    Seq::new(f.labels.len(), |i: int| f.labels[i].0)
}

/// The names of a program's functions, in order.
pub open spec fn function_names(p: Seq<(Seq<char>, IRFunctionView)>) -> Seq<Seq<char>> {
    Seq::new(p.len(), |i: int| p[i].0)
}

/// A run of a program: the block under the first label of the entry
/// function, from the state as it stands. Without that function or that
/// block the run fails with one error.
pub open spec fn ir_run_spec(p: Seq<(Seq<char>, IRFunctionView)>, s: IrState) -> (
    Option<i64>,
    IrState,
) {
    match find_name(function_names(p), entry_name(), 0) {
        None => (None, ir_error(s, no_entry_message())),
        Some(f) => match find_name(label_names(p[f].1), first_label(), 0) {
            None => (None, ir_error(s, no_label_message())),
            Some(l) => tail_spec(p[f].1.labels[l].1, s),
        },
    }
}

/// The variables, the cache and the errors of a run.
struct Machine {
    errors: Vec<String>,
    vars: Vec<(String, i64)>,
    crc: CachedRuntimeCall,
}

impl View for Machine {
    type V = IrState;

    closed spec fn view(&self) -> IrState {
        IrState {
            vars: Seq::new(self.vars@.len(), |i: int| (self.vars@[i].0@, self.vars@[i].1)),
            cache: self.crc@,
            errors: names_view(self.errors@),
        }
    }
}

impl Machine {
    fn last_error(&self) -> (r: String)
        ensures
            r@ == (if self@.errors.len() > 0 {
                self@.errors.last()
            } else {
                Seq::empty()
            }),
    {
        if self.errors.len() > 0 {
            self.errors[self.errors.len() - 1].clone()
        } else {
            String::new()
        }
    }

    fn add_error(&mut self, err: String) -> (r: Option<i64>)
        ensures
            r is None,
            final(self)@ == ir_error(old(self)@, err@),
    {
        self.errors.push(err);
        assert(final(self)@.errors =~= old(self)@.errors.push(err@));
        None
    }

    /// The value that the variable `name` was assigned last.
    fn get_var_value(&mut self, name: &String) -> (r: Option<i64>)
        ensures
            r == atm_spec(AtmView::Var { name: name@ }, old(self)@).0,
            final(self)@ == atm_spec(AtmView::Var { name: name@ }, old(self)@).1,
    {
        let mut j: usize = self.vars.len();
        assert(self@.vars.take(j as int) =~= self@.vars);
        while j > 0
            invariant
                j <= self.vars@.len(),
                *self == *old(self),
                var_lookup(self@.vars, name@) == var_lookup(self@.vars.take(j as int), name@),
            decreases j,
        {
            let ghost head = self@.vars.take(j as int);
            assert(head.last() == self@.vars[j - 1]);
            assert(head.drop_last() =~= self@.vars.take(j - 1));
            if self.vars[j - 1].0 == *name {
                return Some(self.vars[j - 1].1);
            }
            j -= 1;
        }
        let mut msg = String::from_str("Attempted to use undeclared variable: '");
        msg.append(name.as_str());
        msg.append("'");
        self.add_error(msg)
    }

    /// The variable's name.
    fn extract_var(atm: &Atm) -> (r: Option<String>)
        ensures
            match atm@ {
                AtmView::Var { name } => r matches Some(n) && n@ == name,
                AtmView::Int(_) => r is None,
            },
    {
        match atm {
            Atm::Var { name } => Some(name.clone()),
            _ => None,
        }
    }

    /// The value of an atom.
    fn handle_atom(&mut self, atm: &Atm) -> (r: Option<i64>)
        ensures
            r == atm_spec(atm@, old(self)@).0,
            final(self)@ == atm_spec(atm@, old(self)@).1,
    {
        match atm {
            Atm::Int(n) => Some(*n),
            Atm::Var { name } => self.get_var_value(name),
        }
    }

    /// The sum of two atoms, or the negation of one.
    fn atm_aritmetic(&mut self, add: bool, args: &Vec<Atm>) -> (r: Option<i64>)
        requires
            add ==> args@.len() == 2,
            !add ==> args@.len() == 1,
        ensures
            r == exp_spec(
                ExpView::Prim {
                    op: if add {
                        op_add()
                    } else {
                        op_neg()
                    },
                    args: atoms_view(args@),
                },
                old(self)@,
            ).0,
            final(self)@ == exp_spec(
                ExpView::Prim {
                    op: if add {
                        op_add()
                    } else {
                        op_neg()
                    },
                    args: atoms_view(args@),
                },
                old(self)@,
            ).1,
    {
        proof {
            lemma_ops_differ();
        }
        if add {
            let larg_value = self.handle_atom(&args[0]);
            let rarg_value = self.handle_atom(&args[1]);
            match (larg_value, rarg_value) {
                (Some(a), Some(b)) => Some(a.wrapping_add(b)),
                _ => None,
            }
        } else {
            match self.handle_atom(&args[0]) {
                Some(a) => Some(0i64.wrapping_sub(a)),
                None => None,
            }
        }
    }

    /// The value of an expression.
    fn handle_exp(&mut self, exp: &Exp) -> (r: Option<i64>)
        ensures
            r == exp_spec(exp@, old(self)@).0,
            final(self)@ == exp_spec(exp@, old(self)@).1,
    {
        proof {
            lemma_ops_differ();
        }
        match exp {
            Exp::Atm(atm) => self.handle_atom(atm),
            Exp::Prim { op, args } => {
                if same_text(op, "+") && args.len() == 2 {
                    self.atm_aritmetic(true, args)
                } else if same_text(op, "-") && args.len() == 1 {
                    self.atm_aritmetic(false, args)
                } else if same_text(op, "read") && args.len() == 0 {
                    match self.crc.read_int() {
                        Ok(n) => Some(n),
                        Err(msg) => self.add_error(msg),
                    }
                } else {
                    let mut msg = String::from_str("handle_exp: unknown primitive: ");
                    msg.append(op.as_str());
                    self.add_error(msg)
                }
            },
        }
    }

    /// Runs one statement, and says whether it could be run.
    fn handle_stmt(&mut self, stmt: &Stmt) -> (ok: bool)
        ensures
            ok == stmt_spec(stmt@, old(self)@).0,
            final(self)@ == stmt_spec(stmt@, old(self)@).1,
    {
        match stmt {
            Stmt::Assign(atm, exp) => {
                let maybe_var = Self::extract_var(atm);
                let maybe_expr = self.handle_exp(exp);
                match (maybe_var, maybe_expr) {
                    (Some(var), Some(value)) => {
                        let ghost before = self@;
                        self.vars.push((var, value));
                        assert(final(self)@.vars =~= before.vars.push((var@, value)));
                        true
                    },
                    (None, Some(_)) => {
                        self.add_error(
                            String::from_str("Attempted to assign to what is no variable"),
                        );
                        false
                    },
                    _ => false,
                }
            },
        }
    }

    /// Runs a block, up to its return or to the first statement that fails.
    fn handle_tail(&mut self, tail: &Tail) -> (r: Option<i64>)
        ensures
            r == tail_spec(tail@, old(self)@).0,
            final(self)@ == tail_spec(tail@, old(self)@).1,
        decreases tail,
    {
        match tail {
            Tail::Sequence(stmt, rest) => {
                if self.handle_stmt(stmt) {
                    self.handle_tail(rest)
                } else {
                    None
                }
            },
            Tail::Return(exp) => self.handle_exp(exp),
        }
    }
}

/// Where the function called `name` stands in the program.
fn find_function(cprog: &IRProgram, name: &str) -> (r: Option<usize>)
    ensures
        r is Some <==> find_name(function_names(cprog@), name@, 0) is Some,
        r matches Some(i) ==> find_name(function_names(cprog@), name@, 0) == Some(i as int) && i
            < cprog.functions@.len(),
{
    let wanted = String::from_str(name);
    let mut i: usize = 0;
    while i < cprog.functions.len()
        invariant
            i <= cprog.functions@.len(),
            wanted@ == name@,
            find_name(function_names(cprog@), name@, 0) == find_name(
                function_names(cprog@),
                name@,
                i as int,
            ),
        decreases cprog.functions.len() - i,
    {
        if cprog.functions[i].0 == wanted {
            return Some(i);
        }
        i += 1;
    }
    None
}

/// Where the block labelled `name` stands in the function.
pub fn find_label(func: &IRFunction, name: &str) -> (r: Option<usize>)
    ensures
        r is Some <==> find_name(label_names(func@), name@, 0) is Some,
        r matches Some(i) ==> find_name(label_names(func@), name@, 0) == Some(i as int) && i
            < func.labels@.len(),
{
    let wanted = String::from_str(name);
    let mut i: usize = 0;
    while i < func.labels.len()
        invariant
            i <= func.labels@.len(),
            wanted@ == name@,
            find_name(label_names(func@), name@, 0) == find_name(label_names(func@), name@, i as int),
        decreases func.labels.len() - i,
    {
        if func.labels[i].0 == wanted {
            return Some(i);
        }
        i += 1;
    }
    None
}

/// The interpreter of a program in the intermediate form.
pub struct IrInterpreter {
    interpretation_error: bool,
    machine: Machine,
    cprog: IRProgram,
}

impl IrInterpreter {
    /// The program that is run.
    pub closed spec fn program(&self) -> Seq<(Seq<char>, IRFunctionView)> {
        self.cprog@
    }

    /// The variables, the cache and the errors as they stand.
    pub closed spec fn state(&self) -> IrState {
        self.machine@
    }

    /// Whether the error flag is up.
    pub closed spec fn flagged(&self) -> bool {
        self.interpretation_error
    }

    /// The flag is up exactly when there are errors.
    pub open spec fn consistent(&self) -> bool {
        self.flagged() == (self.state().errors.len() > 0)
    }

    pub fn new(cprog: IRProgram, crc: CachedRuntimeCall) -> (r: IrInterpreter)
        ensures
            r.program() == cprog@,
            r.state() == (IrState { vars: Seq::empty(), cache: crc@, errors: Seq::empty() }),
            r.consistent(),
    {
        let machine = Machine { errors: Vec::new(), vars: Vec::new(), crc };
        assert(machine@.vars =~= Seq::empty());
        assert(machine@.errors =~= Seq::empty());
        IrInterpreter { interpretation_error: false, machine, cprog }
    }

    /// Whether an error has occurred.
    pub fn has_error(&self) -> (r: bool)
        ensures
            r == self.flagged(),
    {
        self.interpretation_error
    }

    /// The error that occurred last, or the empty text.
    pub fn last_error(&self) -> (r: String)
        ensures
            r@ == (if self.state().errors.len() > 0 {
                self.state().errors.last()
            } else {
                Seq::empty()
            }),
    {
        self.machine.last_error()
    }

    /// Ends the interpreter and hands its cache on.
    pub fn into_cache(self) -> (r: CachedRuntimeCall)
        ensures
            r@ == self.state().cache,
    {
        self.machine.crc
    }

    /// Runs the program and reports the outcome.
    pub fn report(&mut self) -> (r: InterpretResult)
        ensures
            r.value == ir_run_spec(old(self).program(), old(self).state()).0,
            final(self).state() == ir_run_spec(old(self).program(), old(self).state()).1,
            names_view(r.errors@) == final(self).state().errors,
            r.had_error == (r.errors@.len() > 0),
            r.value is None ==> r.had_error,
            r.value is Some ==> names_view(r.errors@) == old(self).state().errors,
            final(self).program() == old(self).program(),
            final(self).consistent(),
    {
        proof {
            lemma_run_value_or_error(self.program(), self.state());
        }
        let value = match find_function(&self.cprog, "start") {
            None => self.machine.add_error(String::from_str("entry point 'start' not found!")),
            Some(f) => {
                assert(self.cprog@[f as int].1 == self.cprog.functions@[f as int].1@);
                match find_label(&self.cprog.functions[f].1, ".l1") {
                    None => self.machine.add_error(
                        String::from_str("entry label '.l1' not found!"),
                    ),
                    Some(l) => {
                        assert(self.cprog@[f as int].1.labels[l as int].1
                            == self.cprog.functions@[f as int].1.labels@[l as int].1@);
                        self.machine.handle_tail(&self.cprog.functions[f].1.labels[l].1)
                    },
                }
            },
        };
        self.interpretation_error = self.machine.errors.len() > 0;
        let errors = clone_names(&self.machine.errors);
        InterpretResult { value, had_error: self.interpretation_error, errors }
    }
}

impl Interpretable for IrInterpreter {
    open spec fn outcome(&self) -> Option<i64> {
        ir_run_spec(self.program(), self.state()).0
    }

    open spec fn run_errors(&self) -> Seq<Seq<char>> {
        ir_run_spec(self.program(), self.state()).1.errors
    }

    open spec fn left_by(&self, before: &Self) -> bool {
        &&& self.program() == before.program()
        &&& self.state() == ir_run_spec(before.program(), before.state()).1
        &&& self.consistent()
    }

    fn interpret(&mut self) -> (r: InterpretResult) {
        self.report()
    }
}

/// The first failure leaves no value: a block that has a value adds no
/// error, and a block that has none adds one at least.
pub proof fn lemma_ir_value_or_error(t: TailView, s: IrState)
    ensures
        tail_spec(t, s).0 is Some ==> tail_spec(t, s).1.errors == s.errors,
        tail_spec(t, s).0 is None ==> tail_spec(t, s).1.errors.len() > s.errors.len(),
    decreases t,
{
    match t {
        TailView::Return(e) => {
            lemma_exp_value_or_error(e, s);
        },
        TailView::Sequence(StmtView::Assign(lhs, rhs), rest) => {
            lemma_exp_value_or_error(rhs, s);
            let step = stmt_spec(StmtView::Assign(lhs, rhs), s);
            if step.0 {
                lemma_ir_value_or_error(*rest, step.1);
            }
        },
    }
}

/// An expression that has a value adds no error, and one that has none
/// adds one at least.
pub proof fn lemma_exp_value_or_error(e: ExpView, s: IrState)
    ensures
        exp_spec(e, s).0 is Some ==> exp_spec(e, s).1.errors == s.errors,
        exp_spec(e, s).0 is None ==> exp_spec(e, s).1.errors.len() > s.errors.len(),
{
}

/// A run that has a value adds no error, and a run that has none adds one
/// at least.
pub proof fn lemma_run_value_or_error(p: Seq<(Seq<char>, IRFunctionView)>, s: IrState)
    ensures
        ir_run_spec(p, s).0 is Some ==> ir_run_spec(p, s).1.errors == s.errors,
        ir_run_spec(p, s).0 is None ==> ir_run_spec(p, s).1.errors.len() > s.errors.len(),
{
    match find_name(function_names(p), entry_name(), 0) {
        Some(f) => match find_name(label_names(p[f].1), first_label(), 0) {
            Some(l) => {
                lemma_ir_value_or_error(p[f].1.labels[l].1, s);
            },
            None => {},
        },
        None => {},
    }
}

} // verus!
