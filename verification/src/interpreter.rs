//! The evaluator: small-step reduction to normal form under a
//! selectable strategy.
//!
//! `step` is the one-step reduction relation (as a function: reduction
//! is deterministic) and `run` iterates it, at most `fuel` times,
//! stopping early at a term that no rule reduces.  `interpret` drives
//! `run` executably under a caller-chosen step bound, so a diverging
//! term comes back, after that many steps, as it then stands.

use vstd::prelude::*;

use crate::ast::Constant;
use crate::ast::Expr;
use crate::ast::Term;
use crate::subst::subst;
use crate::subst::substitute;

verus! {

/// A value: a term that no reduction rule applies to at top level.  A
/// bare variable counts, so that open terms can be evaluated as they
/// stand.
pub open spec fn is_value_term(t: Term) -> bool {
    match t {
        Term::Var(_) => true,
        Term::Constant(_) => true,
        Term::Abs(_, _, _) => true,
        Term::App(_, _) => false,
        Term::If(_, _, _) => false,
    }
}

/// One reduction step, or `None` for a term that is a value or stuck.
///
/// An application first reduces its operator; under call-by-value it
/// then reduces its argument; once an abstraction faces a ready
/// argument, it is applied by substitution.  A conditional reduces its
/// condition to a boolean constant and then picks its branch.  A value
/// in operator position that is no abstraction, or a condition value
/// that is no boolean constant, is stuck.
pub open spec fn step(t: Term, by_value: bool) -> Option<Term>
    decreases t,
{
    match t {
        Term::Var(_) => None,
        Term::Constant(_) => None,
        Term::Abs(_, _, _) => None,
        Term::App(e1, e2) => if !is_value_term(*e1) {
            match step(*e1, by_value) {
                Some(n) => Some(Term::App(Box::new(n), e2)),
                None => None,
            }
        } else if by_value && !is_value_term(*e2) {
            match step(*e2, by_value) {
                Some(n) => Some(Term::App(e1, Box::new(n))),
                None => None,
            }
        } else {
            match *e1 {
                Term::Abs(x, _, body) => Some(subst(*body, x, *e2)),
                _ => None,
            }
        },
        Term::If(e1, e2, e3) => if !is_value_term(*e1) {
            match step(*e1, by_value) {
                Some(n) => Some(Term::If(Box::new(n), e2, e3)),
                None => None,
            }
        } else {
            match *e1 {
                Term::Constant(Constant::True) => Some(*e2),
                Term::Constant(Constant::False) => Some(*e3),
                _ => None,
            }
        },
    }
}

/// The term after at most `fuel` reduction steps: iteration stops early
/// at a term that no rule reduces, a value or a stuck term.
pub open spec fn run(t: Term, by_value: bool, fuel: nat) -> Term
    decreases fuel,
{
    if fuel == 0 {
        t
    } else {
        match step(t, by_value) {
            None => t,
            Some(n) => run(n, by_value, (fuel - 1) as nat),
        }
    }
}

/// A value takes no step.
pub proof fn lemma_value_no_step(t: Term, by_value: bool)
    requires
        is_value_term(t),
    ensures
        step(t, by_value) is None,
{
}

/// A term that takes no step is a fixed point of `run`; in particular a
/// value runs to itself under any fuel.
pub proof fn lemma_no_step_run(t: Term, by_value: bool, fuel: nat)
    ensures
        step(t, by_value) is None ==> run(t, by_value, fuel) == t,
{
}

/// Running twice is running once with the two budgets joined.
pub proof fn lemma_run_compose(t: Term, by_value: bool, n: nat, m: nat)
    ensures
        run(run(t, by_value, n), by_value, m) == run(t, by_value, n + m),
    decreases n,
{
    if n > 0 {
        match step(t, by_value) {
            None => {
                lemma_no_step_run(t, by_value, m);
            },
            Some(s) => {
                lemma_run_compose(s, by_value, (n - 1) as nat, m);
            },
        }
    }
}

/// Normal forms are final: once evaluation has reached a value, any
/// further evaluation returns that value unchanged.
pub proof fn lemma_eval_idempotent(t: Term, by_value: bool, n: nat, m: nat)
    requires
        is_value_term(run(t, by_value, n)),
    ensures
        run(run(t, by_value, n), by_value, m) == run(t, by_value, n),
{
    lemma_value_no_step(run(t, by_value, n), by_value);
    lemma_no_step_run(run(t, by_value, n), by_value, m);
}

/// Whether every application argument inside the term is already a
/// value.  On such a term call-by-value never has an argument left to
/// reduce, so the two strategies walk in lockstep.
pub open spec fn app_args_are_values(t: Term) -> bool
    decreases t,
{
    match t {
        Term::Var(_) => true,
        Term::Constant(_) => true,
        Term::Abs(_, _, e) => app_args_are_values(*e),
        Term::App(e1, e2) => app_args_are_values(*e1) && app_args_are_values(*e2)
            && is_value_term(*e2),
        Term::If(e1, e2, e3) => app_args_are_values(*e1) && app_args_are_values(*e2)
            && app_args_are_values(*e3),
    }
}

proof fn lemma_rename_keeps_value(t: Term, a: Seq<char>, b: Seq<char>)
    ensures
        is_value_term(crate::subst::rename_free(t, a, b)) == is_value_term(t),
{
    match t {
        Term::Var(_) => {},
        Term::Constant(_) => {},
        Term::Abs(_, _, _) => {},
        Term::App(_, _) => {},
        Term::If(_, _, _) => {},
    }
}

proof fn lemma_rename_keeps_app_args(t: Term, a: Seq<char>, b: Seq<char>)
    requires
        app_args_are_values(t),
    ensures
        app_args_are_values(crate::subst::rename_free(t, a, b)),
    decreases t,
{
    match t {
        Term::Var(_) => {},
        Term::Constant(_) => {},
        Term::Abs(y, _, e) => {
            if y != a {
                lemma_rename_keeps_app_args(*e, a, b);
            }
        },
        Term::App(e1, e2) => {
            lemma_rename_keeps_app_args(*e1, a, b);
            lemma_rename_keeps_app_args(*e2, a, b);
            lemma_rename_keeps_value(*e2, a, b);
        },
        Term::If(e1, e2, e3) => {
            lemma_rename_keeps_app_args(*e1, a, b);
            lemma_rename_keeps_app_args(*e2, a, b);
            lemma_rename_keeps_app_args(*e3, a, b);
        },
    }
}

proof fn lemma_subst_keeps_value(t: Term, x: Seq<char>, r: Term)
    requires
        is_value_term(t),
        is_value_term(r),
    ensures
        is_value_term(subst(t, x, r)),
{
    match t {
        Term::Var(_) => {},
        Term::Constant(_) => {},
        Term::Abs(_, _, _) => {},
        Term::App(_, _) => {},
        Term::If(_, _, _) => {},
    }
}

proof fn lemma_subst_keeps_app_args(t: Term, x: Seq<char>, r: Term)
    requires
        app_args_are_values(t),
        app_args_are_values(r),
        is_value_term(r),
    ensures
        app_args_are_values(subst(t, x, r)),
    decreases crate::ast::term_size(t),
{
    match t {
        Term::Var(_) => {},
        Term::Constant(_) => {},
        Term::App(e1, e2) => {
            lemma_subst_keeps_app_args(*e1, x, r);
            lemma_subst_keeps_app_args(*e2, x, r);
            lemma_subst_keeps_value(*e2, x, r);
        },
        Term::If(e1, e2, e3) => {
            lemma_subst_keeps_app_args(*e1, x, r);
            lemma_subst_keeps_app_args(*e2, x, r);
            lemma_subst_keeps_app_args(*e3, x, r);
        },
        Term::Abs(y, _, body) => {
            if y != x {
                if crate::ast::free_vars(r).contains(y) {
                    let avoid = crate::subst::subst_avoid(*body, x, r);
                    let fresh = crate::subst::fresh_from(y.push('1'), avoid);
                    crate::subst::lemma_subst_avoid_finite(*body, x, r);
                    crate::subst::lemma_rename_size(*body, y, fresh);
                    lemma_rename_keeps_app_args(*body, y, fresh);
                    lemma_subst_keeps_app_args(
                        crate::subst::rename_free(*body, y, fresh),
                        x,
                        r,
                    );
                } else {
                    lemma_subst_keeps_app_args(*body, x, r);
                }
            }
        },
    }
}

/// On a term whose application arguments are all values, the two
/// strategies choose the very same step.
pub proof fn lemma_step_strategy_agree(t: Term)
    requires
        app_args_are_values(t),
    ensures
        step(t, true) == step(t, false),
    decreases t,
{
    match t {
        Term::Var(_) => {},
        Term::Constant(_) => {},
        Term::Abs(_, _, _) => {},
        Term::App(e1, e2) => {
            if !is_value_term(*e1) {
                lemma_step_strategy_agree(*e1);
            }
        },
        Term::If(e1, e2, e3) => {
            if !is_value_term(*e1) {
                lemma_step_strategy_agree(*e1);
            }
        },
    }
}

proof fn lemma_step_keeps_app_args(t: Term, by_value: bool)
    requires
        app_args_are_values(t),
    ensures
        (match step(t, by_value) {
            Some(n) => app_args_are_values(n),
            None => true,
        }),
    decreases t,
{
    match t {
        Term::Var(_) => {},
        Term::Constant(_) => {},
        Term::Abs(_, _, _) => {},
        Term::App(e1, e2) => {
            if !is_value_term(*e1) {
                lemma_step_keeps_app_args(*e1, by_value);
            } else {
                if let Term::Abs(x, tz, body) = *e1 {
                    assert(app_args_are_values(*e1));
                    assert(app_args_are_values(Term::Abs(x, tz, body)));
                    lemma_subst_keeps_app_args(*body, x, *e2);
                }
            }
        },
        Term::If(e1, e2, e3) => {
            if !is_value_term(*e1) {
                lemma_step_keeps_app_args(*e1, by_value);
            }
        },
    }
}

/// On a term whose application arguments are all values, the two
/// strategies walk in lockstep: any step budget leaves both at the
/// same term.
pub proof fn lemma_run_strategy_agree(t: Term, fuel: nat)
    requires
        app_args_are_values(t),
    ensures
        run(t, true, fuel) == run(t, false, fuel),
    decreases fuel,
{
    if fuel > 0 {
        lemma_step_strategy_agree(t);
        if let Some(n) = step(t, true) {
            lemma_step_keeps_app_args(t, true);
            lemma_run_strategy_agree(n, (fuel - 1) as nat);
        }
    }
}

/// Strategy equivalence on argument-ready terms — the proven part of
/// the equivalence of the two strategies: on a term every one of whose
/// application arguments is already a value, whenever call-by-value
/// and call-by-name each reach a value, they reach the same value,
/// whatever their step budgets.
pub proof fn lemma_strategies_agree_on_ready_terms(t: Term, n: nat, m: nat)
    requires
        app_args_are_values(t),
        is_value_term(run(t, true, n)),
        is_value_term(run(t, false, m)),
    ensures
        run(t, true, n) == run(t, false, m),
{
    lemma_run_strategy_agree(t, n);
    lemma_normal_form_unique(t, false, n, m);
}

/// Within one strategy, reduction is deterministic: whatever two step
/// budgets both suffice to reach a value, they reach the same value.
pub proof fn lemma_normal_form_unique(t: Term, by_value: bool, n: nat, m: nat)
    requires
        is_value_term(run(t, by_value, n)),
        is_value_term(run(t, by_value, m)),
    ensures
        run(t, by_value, n) == run(t, by_value, m),
{
    lemma_eval_idempotent(t, by_value, n, m);
    lemma_eval_idempotent(t, by_value, m, n);
    lemma_run_compose(t, by_value, n, m);
    lemma_run_compose(t, by_value, m, n);
}

/// Whether this term is a value: a constant, a variable, or an
/// abstraction.
pub fn is_value(expr: &Expr) -> (r: bool)
    ensures
        r == is_value_term(expr@),
{
    matches!(expr, Expr::Constant(_) | Expr::Var(_) | Expr::Abs { .. })
}

/// One reduction step of `expr`, or `None` where no rule applies.
fn step_once(expr: &Expr, by_value: bool) -> (r: Option<Expr>)
    ensures
        (match r {
            Some(n) => step(expr@, by_value) == Some(n@),
            None => step(expr@, by_value) is None,
        }),
    decreases crate::ast::term_size(expr@), 1nat,
{
    match expr {
        Expr::Var(_) => None,
        Expr::Constant(_) => None,
        Expr::Abs { .. } => None,
        Expr::App { e1, e2 } => app(e1, e2, by_value),
        Expr::If { e1, e2, e3 } => if_(e1, e2, e3, by_value),
    }
}

/// One step of an application, as the rules of `step` have it: reduce
/// the operator, then (by value) the argument, then apply an
/// abstraction by substitution.
fn app(e1: &Expr, e2: &Expr, by_value: bool) -> (r: Option<Expr>)
    ensures
        (match r {
            Some(n) => step(Term::App(Box::new(e1@), Box::new(e2@)), by_value) == Some(n@),
            None => step(Term::App(Box::new(e1@), Box::new(e2@)), by_value) is None,
        }),
    decreases crate::ast::term_size(e1@) + crate::ast::term_size(e2@), 0nat,
{
    proof {
        crate::ast::lemma_term_size_pos(e1@);
        crate::ast::lemma_term_size_pos(e2@);
    }
    if !is_value(e1) {
        match step_once(e1, by_value) {
            Some(n) => Some(Expr::App { e1: Box::new(n), e2: Box::new(e2.duplicate()) }),
            None => None,
        }
    } else if by_value && !is_value(e2) {
        match step_once(e2, by_value) {
            Some(n) => Some(Expr::App { e1: Box::new(e1.duplicate()), e2: Box::new(n) }),
            None => None,
        }
    } else {
        match e1 {
            Expr::Abs { x, t: _, e } => Some(substitute(e, x, e2)),
            _ => None,
        }
    }
}

/// One step of a conditional: reduce the condition to a boolean
/// constant, then pick the branch it names.
fn if_(e1: &Expr, e2: &Expr, e3: &Expr, by_value: bool) -> (r: Option<Expr>)
    ensures
        (match r {
            Some(n) => step(
                Term::If(Box::new(e1@), Box::new(e2@), Box::new(e3@)),
                by_value,
            ) == Some(n@),
            None => step(
                Term::If(Box::new(e1@), Box::new(e2@), Box::new(e3@)),
                by_value,
            ) is None,
        }),
    decreases crate::ast::term_size(e1@) + crate::ast::term_size(e2@) + crate::ast::term_size(
        e3@,
    ), 0nat,
{
    proof {
        crate::ast::lemma_term_size_pos(e2@);
        crate::ast::lemma_term_size_pos(e3@);
    }
    if !is_value(e1) {
        match step_once(e1, by_value) {
            Some(n) => Some(
                Expr::If {
                    e1: Box::new(n),
                    e2: Box::new(e2.duplicate()),
                    e3: Box::new(e3.duplicate()),
                },
            ),
            None => None,
        }
    } else {
        match e1 {
            Expr::Constant(Constant::True) => Some(e2.duplicate()),
            Expr::Constant(Constant::False) => Some(e3.duplicate()),
            _ => None,
        }
    }
}

/// How an evaluation can fail to reach a value.
#[derive(Debug)]
pub enum EvalError {
    /// Reduction met this term, which is no value and which no rule
    /// reduces; only ill-typed input reaches it.
    StuckTerm(Expr),
    /// The step bound ran out; the term as it stood then, still
    /// reducible.
    StepLimit(Expr),
}

/// Reduce `expr` to a normal form under the chosen strategy, taking at
/// most `max_steps` reduction steps: the result is exactly where `run`
/// says `expr` stands after those steps, as a value, a stuck term, or
/// a still-reducible term when the bound ran out.
pub fn interpret(expr: &Expr, by_value: bool, max_steps: u64) -> (res: Result<Expr, EvalError>)
    ensures
        (match res {
            Ok(v) => run(expr@, by_value, max_steps as nat) == v@ && is_value_term(v@),
            Err(EvalError::StuckTerm(m)) => run(expr@, by_value, max_steps as nat) == m@
                && !is_value_term(m@) && step(m@, by_value) is None,
            Err(EvalError::StepLimit(m)) => run(expr@, by_value, max_steps as nat) == m@
                && !is_value_term(m@) && step(m@, by_value) is Some,
        }),
        is_value_term(expr@) ==> (res matches Ok(v) && v@ == expr@),
        // Progress and preservation at work: a closed well-typed term is
        // never stuck, and its value has the type the term had.
        crate::typer::type_of(Map::<Seq<char>, crate::ast::Type>::empty(), expr@) is Ok
            ==> (match res {
            Ok(v) => crate::typer::type_of(Map::<Seq<char>, crate::ast::Type>::empty(), v@)
                == crate::typer::type_of(Map::<Seq<char>, crate::ast::Type>::empty(), expr@),
            Err(e) => e matches EvalError::StepLimit(_),
        }),
{
    let mut cur = expr.duplicate();
    let mut steps: u64 = 0;
    loop
        invariant
            steps <= max_steps,
            run(expr@, by_value, max_steps as nat) == run(
                cur@,
                by_value,
                (max_steps - steps) as nat,
            ),
            is_value_term(expr@) ==> cur@ == expr@,
        decreases max_steps - steps,
    {
        if is_value(&cur) {
            proof {
                lemma_value_no_step(cur@, by_value);
                lemma_no_step_run(cur@, by_value, (max_steps - steps) as nat);
                if let Ok(tt) = crate::typer::type_of(
                    Map::<Seq<char>, crate::ast::Type>::empty(),
                    expr@,
                ) {
                    crate::soundness::lemma_run_preservation(
                        Map::<Seq<char>, crate::ast::Type>::empty(),
                        expr@,
                        by_value,
                        max_steps as nat,
                        tt,
                    );
                }
            }
            return Ok(cur);
        }
        match step_once(&cur, by_value) {
            None => {
                proof {
                    lemma_no_step_run(cur@, by_value, (max_steps - steps) as nat);
                    if crate::typer::type_of(
                        Map::<Seq<char>, crate::ast::Type>::empty(),
                        expr@,
                    ) is Ok {
                        // A well-typed term cannot be here: the term the
                        // run reached would both take a step and not.
                        crate::soundness::lemma_run_progress(
                            expr@,
                            by_value,
                            max_steps as nat,
                        );
                    }
                }
                return Err(EvalError::StuckTerm(cur));
            },
            Some(n) => {
                if steps == max_steps {
                    return Err(EvalError::StepLimit(cur));
                }
                proof {
                    assert(run(cur@, by_value, (max_steps - steps) as nat) == run(
                        n@,
                        by_value,
                        (max_steps - (steps + 1)) as nat,
                    ));
                }
                cur = n;
                steps = steps + 1;
            },
        }
    }
}

} // verus!
