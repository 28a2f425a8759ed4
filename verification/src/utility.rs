//! The passes in a row, from source text to each of the program's forms.

use crate::ast::Expr;
use crate::ast::Program;
use crate::ast::well_formed;
use crate::decomplify::check_decomplify;
use crate::decomplify::decomplify_program;
use crate::decomplify::rco_expr_spec;
use crate::explicate::explicate_control;
use crate::explicate::explicate_control_spec;
use crate::explicate::IRFunctionView;
use crate::explicate::IRProgram;
use crate::interp_ast::ast_run_spec;
use crate::interp_ast::AstInterpreter;
use crate::interp_ir::ir_run_spec;
use crate::interp_ir::IrInterpreter;
use crate::interp_ir::IrState;
use crate::interpreter::CachedRuntimeCall;
use crate::interpreter::CacheView;
use crate::interpreter::InterpretResult;
use crate::lexer::lex_spec;
use crate::lexer::Lexer;
use crate::natural::names_view;
use crate::parser::parse_program_spec;
use crate::parser::Parser;
use crate::partial_eval::fold_spec;
use crate::partial_eval::partially_evaluate;
use crate::uniquify::uniquify_program;
use crate::uniquify::uniquify_spec;
use crate::x64_backend::check_transformable;
use crate::x64_backend::ir_to_x64;
use crate::x64_backend::ir_to_x64_spec;
use crate::x64_backend::transformable;
use crate::x64_def::X64Program;
use crate::x64_print::program_printable;
use vstd::prelude::*;

verus! {

/// A pass over the tree form.
#[derive(PartialEq, Eq, Hash, Debug, Clone, Copy, Structural)]
pub enum AstStep {
    Uniquify,
    PartialEvaluation,
    Decomplify,
}

/// The program that a source text is.
pub open spec fn source_spec(text: Seq<char>) -> Expr {
    parse_program_spec(lex_spec(text))
}

/// The tree after a pass; nothing where the pass does not take the tree
/// (the removal of complex operands takes well-formed trees whose
/// temporaries can be numbered in 64 bits).
pub open spec fn step_spec(step: AstStep, e: Expr) -> Option<Expr> {
    match step {
        AstStep::Uniquify => Some(uniquify_spec(Seq::empty(), e)),
        AstStep::PartialEvaluation => Some(fold_spec(e, Seq::empty()).0),
        AstStep::Decomplify => if well_formed(e) && rco_expr_spec(e, 0).1 <= u64::MAX {
            Some(rco_expr_spec(e, 0).0)
        } else {
            None
        },
    }
}

/// The tree after the first `n` of the passes, in order.
pub open spec fn steps_spec(steps: Seq<AstStep>, n: nat, e: Expr) -> Option<Expr>
    decreases n,
{
    if n == 0 || n > steps.len() {
        Some(e)
    } else {
        match steps_spec(steps, (n - 1) as nat, e) {
            Some(before) => step_spec(steps[n - 1], before),
            None => None,
        }
    }
}

/// The tree form that the back end starts from: the source made unique,
/// folded, and freed of complex operands.
pub open spec fn frontend_spec(text: Seq<char>) -> Option<Expr> {
    step_spec(
        AstStep::Decomplify,
        fold_spec(uniquify_spec(Seq::empty(), source_spec(text)), Seq::empty()).0,
    )
}

/// The program of a source text after the given passes, in order.
pub fn test_ast_helper(prog: &str, transform: Vec<AstStep>) -> (r: Option<Program>)
    ensures
        match r {
            Some(p) => steps_spec(transform@, transform@.len(), source_spec(prog@)) == Some(p@),
            None => steps_spec(transform@, transform@.len(), source_spec(prog@)) is None,
        },
{
    let mut lexer = Lexer::new(prog);
    let mut parser = Parser::new(lexer.lex());
    let mut p = parser.parse();
    let mut i: usize = 0;
    while i < transform.len()
        invariant
            i <= transform@.len(),
            steps_spec(transform@, i as nat, source_spec(prog@)) == Some(p@),
        decreases transform.len() - i,
    {
        match transform[i] {
            AstStep::Uniquify => {
                p = uniquify_program(p);
            },
            AstStep::PartialEvaluation => {
                p = partially_evaluate(p);
            },
            AstStep::Decomplify => {
                if !check_decomplify(&p) {
                    proof {
                        lemma_steps_stop(
                            transform@,
                            (i + 1) as nat,
                            transform@.len(),
                            source_spec(prog@),
                        );
                    }
                    return None;
                }
                p = decomplify_program(p);
            },
        }
        i += 1;
    }
    Some(p)
}

/// Once a pass has not taken the tree, no later pass is made.
pub proof fn lemma_steps_stop(steps: Seq<AstStep>, m: nat, n: nat, e: Expr)
    requires
        m <= n <= steps.len(),
        steps_spec(steps, m, e) is None,
    ensures
        steps_spec(steps, n, e) is None,
    decreases n,
{
    if m < n {
        lemma_steps_stop(steps, m, (n - 1) as nat, e);
    }
}

/// The intermediate form of a source text.
pub fn test_ir_helper(prog: &str) -> (r: Option<IRProgram>)
    ensures
        match r {
            Some(ir) => frontend_spec(prog@) matches Some(e) && ir@ == explicate_control_spec(e),
            None => frontend_spec(prog@) is None,
        },
{
    let mut lexer = Lexer::new(prog);
    let mut parser = Parser::new(lexer.lex());
    let p = partially_evaluate(uniquify_program(parser.parse()));
    if !check_decomplify(&p) {
        return None;
    }
    Some(explicate_control(decomplify_program(p)))
}

/// Whether `ir_to_x64` takes every function of the program.
pub open spec fn all_transformable(p: Seq<(Seq<char>, IRFunctionView)>) -> bool {
    forall|i: int| 0 <= i < p.len() ==> transformable((#[trigger] p[i]).1)
}

/// Whether `ir_to_x64` takes every function of the program.
pub fn check_all_transformable(ir: &IRProgram) -> (r: bool)
    ensures
        r == all_transformable(ir@),
{
    let mut i: usize = 0;
    while i < ir.functions.len()
        invariant
            i <= ir.functions@.len(),
            forall|j: int| 0 <= j < i ==> transformable((#[trigger] ir@[j]).1),
        decreases ir.functions.len() - i,
    {
        assert(ir@[i as int].1 == ir.functions@[i as int].1@);
        if !check_transformable(&ir.functions[i].1) {
            return false;
        }
        i += 1;
    }
    true
}

/// The x86-64 program of a source text.
pub fn test_x64_helper(prog: &str) -> (r: Option<X64Program>)
    ensures
        match r {
            Some(x64) => frontend_spec(prog@) matches Some(e) && all_transformable(
                explicate_control_spec(e),
            ) && x64@ == ir_to_x64_spec(explicate_control_spec(e)) && program_printable(x64@),
            None => frontend_spec(prog@) matches Some(e) ==> !all_transformable(
                explicate_control_spec(e),
            ),
        },
{
    match test_ir_helper(prog) {
        Some(ir) => {
            if check_all_transformable(&ir) {
                Some(ir_to_x64(ir))
            } else {
                None
            }
        },
        None => None,
    }
}

/// The passes fit together. A source text that is parsed without error
/// goes through the front end unless its temporaries cannot be numbered in
/// 64 bits; what comes out is in A-normal form, and instructions can be
/// selected for its intermediate form.
pub proof fn lemma_passes_fit(text: Seq<char>)
    ensures
        !(source_spec(text) is Error) ==> well_formed(
            fold_spec(uniquify_spec(Seq::empty(), source_spec(text)), Seq::empty()).0,
        ),
        frontend_spec(text) matches Some(e) ==> crate::ast::anf(e)
            && crate::x64_backend::function_ok(explicate_control_spec(e)[0].1),
{
    let source = source_spec(text);
    if !(source is Error) {
        crate::parser::lemma_program_well_formed(lex_spec(text));
        crate::uniquify::lemma_uniquify_well_formed(Seq::empty(), source);
        crate::partial_eval::lemma_fold_well_formed(
            uniquify_spec(Seq::empty(), source),
            Seq::empty(),
        );
    }
    if frontend_spec(text) is Some {
        let folded = fold_spec(uniquify_spec(Seq::empty(), source), Seq::empty()).0;
        crate::decomplify::lemma_rco_anf(folded, 0);
        crate::emission::lemma_explicate_ok(rco_expr_spec(folded, 0).0);
    }
}

/// Runs both interpreters in a row: the tree interpreter on the program,
/// taking the lines of input, then the interpreter of the intermediate
/// form, on what the first run cached. Where the first run has a value the
/// second run has the same value, and neither reports an error.
pub fn interpret_both(program: Program, input: Vec<String>) -> (r: (
    InterpretResult,
    InterpretResult,
))
    requires
        crate::ast::anf(program@),
    ensures
        ({
            let first = ast_run_spec(
                program@,
                CacheView { write: true, log: Seq::empty(), input: names_view(input@) },
                Seq::empty(),
            );
            let second = ir_run_spec(
                explicate_control_spec(program@),
                IrState {
                    vars: Seq::empty(),
                    cache: CacheView { write: false, ..first.1.cache },
                    errors: Seq::empty(),
                },
            );
            &&& r.0.value == first.0
            &&& names_view(r.0.errors@) == first.1.errors
            &&& r.1.value == second.0
            &&& names_view(r.1.errors@) == second.1.errors
        }),
        r.0.had_error == (r.0.errors@.len() > 0),
        r.1.had_error == (r.1.errors@.len() > 0),
        r.0.value is Some ==> r.1.value == r.0.value && !r.0.had_error && !r.1.had_error
            && r.0.errors@.len() == 0 && r.1.errors@.len() == 0,
{
    proof {
        crate::agreement::lemma_interpreters_agree(program@, names_view(input@));
        crate::agreement::lemma_write_run(
            program@,
            crate::interp_ast::AstState {
                env: Seq::empty(),
                cache: CacheView { write: true, log: Seq::empty(), input: names_view(input@) },
                errors: Seq::empty(),
            },
        );
    }
    let mut tree = AstInterpreter::new(program.clone(), CachedRuntimeCall::new(input));
    let first = tree.report();
    let mut cache = tree.into_cache();
    cache.set_write_mode(false);
    let mut linear = IrInterpreter::new(explicate_control(program), cache);
    let second = linear.report();
    (first, second)
}

} // verus!
