//! Type soundness of the reduction engine.
//!
//! The two laws of the core: a closed well-typed term is never stuck
//! (progress), and reduction keeps its type (preservation).  Both rest
//! on the substitution lemma, which in turn rests on renaming a binder
//! to a fresh name leaving a term's type alone.

use vstd::prelude::*;

use crate::ast::Term;
use crate::ast::Type;
use crate::ast::all_vars;
use crate::ast::free_vars;
use crate::ast::lemma_vars_finite;
use crate::ast::term_size;
use crate::interpreter::is_value_term;
use crate::interpreter::run;
use crate::interpreter::step;
use crate::subst::fresh_from;
use crate::subst::lemma_fresh_from;
use crate::subst::lemma_rename_size;
use crate::subst::lemma_subst_avoid_finite;
use crate::subst::rename_free;
use crate::subst::subst;
use crate::subst::subst_avoid;
use crate::typer::TypeErrorView;
use crate::typer::type_of;

verus! {

/// Two contexts that agree on a set of names: the same names of the
/// set are bound, to the same types.
pub open spec fn agree_on(
    ctx1: Map<Seq<char>, Type>,
    ctx2: Map<Seq<char>, Type>,
    names: Set<Seq<char>>,
) -> bool {
    forall|x: Seq<char>| #[trigger]
        names.contains(x) ==> ctx1.dom().contains(x) == ctx2.dom().contains(x) && (
        ctx1.dom().contains(x) ==> ctx1[x] == ctx2[x])
}

/// A term's type depends only on what the context says about the
/// term's free variables.
pub proof fn lemma_type_of_agree(ctx1: Map<Seq<char>, Type>, ctx2: Map<Seq<char>, Type>, t: Term)
    requires
        agree_on(ctx1, ctx2, free_vars(t)),
    ensures
        type_of(ctx1, t) == type_of(ctx2, t),
    decreases t,
{
    match t {
        Term::Var(x) => {
            assert(free_vars(t).contains(x));
        },
        Term::Constant(_) => {},
        Term::App(e1, e2) => {
            assert(agree_on(ctx1, ctx2, free_vars(*e1))) by {
                assert forall|x: Seq<char>| #[trigger]
                    free_vars(*e1).contains(x) implies free_vars(t).contains(x) by {};
            };
            assert(agree_on(ctx1, ctx2, free_vars(*e2))) by {
                assert forall|x: Seq<char>| #[trigger]
                    free_vars(*e2).contains(x) implies free_vars(t).contains(x) by {};
            };
            lemma_type_of_agree(ctx1, ctx2, *e1);
            lemma_type_of_agree(ctx1, ctx2, *e2);
        },
        Term::Abs(y, ty, body) => {
            assert(agree_on(ctx1.insert(y, ty), ctx2.insert(y, ty), free_vars(*body))) by {
                assert forall|x: Seq<char>| #[trigger]
                    free_vars(*body).contains(x)
                        && x != y implies free_vars(t).contains(x) by {};
            };
            lemma_type_of_agree(ctx1.insert(y, ty), ctx2.insert(y, ty), *body);
        },
        Term::If(e1, e2, e3) => {
            assert(agree_on(ctx1, ctx2, free_vars(*e1))) by {
                assert forall|x: Seq<char>| #[trigger]
                    free_vars(*e1).contains(x) implies free_vars(t).contains(x) by {};
            };
            assert(agree_on(ctx1, ctx2, free_vars(*e2))) by {
                assert forall|x: Seq<char>| #[trigger]
                    free_vars(*e2).contains(x) implies free_vars(t).contains(x) by {};
            };
            assert(agree_on(ctx1, ctx2, free_vars(*e3))) by {
                assert forall|x: Seq<char>| #[trigger]
                    free_vars(*e3).contains(x) implies free_vars(t).contains(x) by {};
            };
            lemma_type_of_agree(ctx1, ctx2, *e1);
            lemma_type_of_agree(ctx1, ctx2, *e2);
            lemma_type_of_agree(ctx1, ctx2, *e3);
        },
    }
}

/// Renaming a bound name to one that occurs nowhere in the term leaves
/// the term's type alone: binding the fresh name instead of the old
/// one types the renamed body to the same type, and an ill-typed body
/// stays ill-typed.
pub proof fn lemma_type_of_rename(
    ctx: Map<Seq<char>, Type>,
    t: Term,
    a: Seq<char>,
    b: Seq<char>,
    ta: Type,
)
    requires
        !all_vars(t).contains(b),
    ensures
        (match type_of(ctx.insert(a, ta), t) {
            Ok(tt) => type_of(ctx.insert(b, ta), rename_free(t, a, b)) == Ok::<
                Type,
                TypeErrorView,
            >(tt),
            Err(_) => type_of(ctx.insert(b, ta), rename_free(t, a, b)) is Err,
        }),
    decreases t,
{
    lemma_vars_finite(t);
    match t {
        Term::Var(_) => {},
        Term::Constant(_) => {},
        Term::App(e1, e2) => {
            lemma_type_of_rename(ctx, *e1, a, b, ta);
            lemma_type_of_rename(ctx, *e2, a, b, ta);
        },
        Term::Abs(z, tz, body) => {
            lemma_vars_finite(*body);
            if z == a {
                // The binder shadows `a`; the body is untouched, and the
                // outer binding of `b` is invisible to it.
                assert(ctx.insert(a, ta).insert(z, tz) =~= ctx.insert(z, tz));
                assert(agree_on(
                    ctx.insert(b, ta).insert(z, tz),
                    ctx.insert(z, tz),
                    free_vars(*body),
                ));
                lemma_type_of_agree(
                    ctx.insert(b, ta).insert(z, tz),
                    ctx.insert(z, tz),
                    *body,
                );
            } else {
                lemma_type_of_rename(ctx.insert(z, tz), *body, a, b, ta);
                assert(ctx.insert(z, tz).insert(b, ta) =~= ctx.insert(b, ta).insert(z, tz));
                assert(ctx.insert(z, tz).insert(a, ta) =~= ctx.insert(a, ta).insert(z, tz));
            }
        },
        Term::If(e1, e2, e3) => {
            lemma_type_of_rename(ctx, *e1, a, b, ta);
            lemma_type_of_rename(ctx, *e2, a, b, ta);
            lemma_type_of_rename(ctx, *e3, a, b, ta);
        },
    }
}

/// The substitution lemma: substituting a term of the bound name's type
/// for that name preserves the type of the whole.
pub proof fn lemma_subst_type(
    ctx: Map<Seq<char>, Type>,
    t: Term,
    x: Seq<char>,
    sty: Type,
    r: Term,
    tt: Type,
)
    requires
        type_of(ctx.insert(x, sty), t) == Ok::<Type, TypeErrorView>(tt),
        type_of(ctx, r) == Ok::<Type, TypeErrorView>(sty),
    ensures
        type_of(ctx, subst(t, x, r)) == Ok::<Type, TypeErrorView>(tt),
    decreases term_size(t),
{
    lemma_vars_finite(r);
    match t {
        Term::Var(_) => {},
        Term::Constant(_) => {},
        Term::App(e1, e2) => {
            let ctx1 = ctx.insert(x, sty);
            if let Ok(t1) = type_of(ctx1, *e1) {
                if let Type::Fn(a, b) = t1 {
                    lemma_subst_type(ctx, *e1, x, sty, r, t1);
                    if let Ok(t2) = type_of(ctx1, *e2) {
                        lemma_subst_type(ctx, *e2, x, sty, r, t2);
                    }
                }
            }
        },
        Term::If(e1, e2, e3) => {
            let ctx1 = ctx.insert(x, sty);
            lemma_subst_type(ctx, *e1, x, sty, r, Type::Bool);
            if let Ok(t2) = type_of(ctx1, *e2) {
                lemma_subst_type(ctx, *e2, x, sty, r, t2);
            }
            if let Ok(t3) = type_of(ctx1, *e3) {
                lemma_subst_type(ctx, *e3, x, sty, r, t3);
            }
        },
        Term::Abs(y, tz, body) => {
            lemma_vars_finite(*body);
            let ctx1 = ctx.insert(x, sty);
            let inner = type_of(ctx1.insert(y, tz), *body);
            if y == x {
                // The binder shadows the substitution target.
                assert(ctx1.insert(y, tz) =~= ctx.insert(y, tz));
            } else if free_vars(r).contains(y) {
                let avoid = subst_avoid(*body, x, r);
                let fresh = fresh_from(y.push('1'), avoid);
                lemma_subst_avoid_finite(*body, x, r);
                lemma_fresh_from(y.push('1'), avoid);
                lemma_rename_size(*body, y, fresh);
                let renamed = rename_free(*body, y, fresh);
                if let Ok(t2) = inner {
                    // Rename the binder to the fresh name.
                    lemma_type_of_rename(ctx1, *body, y, fresh, tz);
                    assert(type_of(ctx1.insert(fresh, tz), renamed) == Ok::<
                        Type,
                        TypeErrorView,
                    >(t2));
                    assert(ctx1.insert(fresh, tz) =~= ctx.insert(fresh, tz).insert(x, sty));
                    // The replacement keeps its type under the fresh binding.
                    assert(agree_on(ctx, ctx.insert(fresh, tz), free_vars(r)));
                    lemma_type_of_agree(ctx, ctx.insert(fresh, tz), r);
                    lemma_subst_type(ctx.insert(fresh, tz), renamed, x, sty, r, t2);
                }
            } else {
                if let Ok(t2) = inner {
                    assert(ctx1.insert(y, tz) =~= ctx.insert(y, tz).insert(x, sty));
                    assert(type_of(ctx.insert(y, tz).insert(x, sty), *body) == Ok::<
                        Type,
                        TypeErrorView,
                    >(t2));
                    assert(agree_on(ctx, ctx.insert(y, tz), free_vars(r)));
                    lemma_type_of_agree(ctx, ctx.insert(y, tz), r);
                    lemma_subst_type(ctx.insert(y, tz), *body, x, sty, r, t2);
                }
            }
        },
    }
}

/// Progress: a closed well-typed term is a value or takes a step; the
/// reduction rules never leave it stuck.
pub proof fn lemma_progress(t: Term, by_value: bool)
    requires
        type_of(Map::<Seq<char>, Type>::empty(), t) is Ok,
        !is_value_term(t),
    ensures
        step(t, by_value) is Some,
    decreases t,
{
    let empty = Map::<Seq<char>, Type>::empty();
    match t {
        Term::Var(_) => {},
        Term::Constant(_) => {},
        Term::Abs(_, _, _) => {},
        Term::App(e1, e2) => {
            if !is_value_term(*e1) {
                lemma_progress(*e1, by_value);
            } else if by_value && !is_value_term(*e2) {
                lemma_progress(*e2, by_value);
            } else {
                // A closed value of function type is an abstraction.
                match *e1 {
                    Term::Var(x) => {
                        assert(!empty.dom().contains(x));
                    },
                    _ => {},
                }
            }
        },
        Term::If(e1, e2, e3) => {
            if !is_value_term(*e1) {
                lemma_progress(*e1, by_value);
            } else {
                // A closed value of type Bool is a boolean constant.
                match *e1 {
                    Term::Var(x) => {
                        assert(!empty.dom().contains(x));
                    },
                    _ => {},
                }
            }
        },
    }
}

/// Preservation: one reduction step keeps the term's type, under any
/// context.
pub proof fn lemma_preservation(ctx: Map<Seq<char>, Type>, t: Term, by_value: bool, tt: Type)
    requires
        type_of(ctx, t) == Ok::<Type, TypeErrorView>(tt),
    ensures
        (match step(t, by_value) {
            Some(n) => type_of(ctx, n) == Ok::<Type, TypeErrorView>(tt),
            None => true,
        }),
    decreases t,
{
    match t {
        Term::Var(_) => {},
        Term::Constant(_) => {},
        Term::Abs(_, _, _) => {},
        Term::App(e1, e2) => {
            if let Ok(t1) = type_of(ctx, *e1) {
                if !is_value_term(*e1) {
                    lemma_preservation(ctx, *e1, by_value, t1);
                } else if by_value && !is_value_term(*e2) {
                    if let Ok(t2) = type_of(ctx, *e2) {
                        lemma_preservation(ctx, *e2, by_value, t2);
                    }
                } else {
                    if let Term::Abs(x, tz, body) = *e1 {
                        if let Type::Fn(a, b) = t1 {
                            lemma_subst_type(ctx, *body, x, tz, *e2, *b);
                        }
                    }
                }
            }
        },
        Term::If(e1, e2, e3) => {
            if !is_value_term(*e1) {
                lemma_preservation(ctx, *e1, by_value, Type::Bool);
            }
        },
    }
}

/// Preservation along a whole run: however many steps are taken, the
/// term `run` reaches still has the type the start had.
pub proof fn lemma_run_preservation(
    ctx: Map<Seq<char>, Type>,
    t: Term,
    by_value: bool,
    fuel: nat,
    tt: Type,
)
    requires
        type_of(ctx, t) == Ok::<Type, TypeErrorView>(tt),
    ensures
        type_of(ctx, run(t, by_value, fuel)) == Ok::<Type, TypeErrorView>(tt),
    decreases fuel,
{
    if fuel > 0 {
        if let Some(n) = step(t, by_value) {
            lemma_preservation(ctx, t, by_value, tt);
            lemma_run_preservation(ctx, n, by_value, (fuel - 1) as nat, tt);
        }
    }
}

/// Progress along a whole run: starting from a closed well-typed term,
/// reduction never reaches a stuck state — wherever a run stops short
/// of a value, another step is still possible.
pub proof fn lemma_run_progress(t: Term, by_value: bool, fuel: nat)
    requires
        type_of(Map::<Seq<char>, Type>::empty(), t) is Ok,
    ensures
        is_value_term(run(t, by_value, fuel)) || step(run(t, by_value, fuel), by_value) is Some,
{
    let m = run(t, by_value, fuel);
    if let Ok(tt) = type_of(Map::<Seq<char>, Type>::empty(), t) {
        lemma_run_preservation(Map::<Seq<char>, Type>::empty(), t, by_value, fuel, tt);
        if !is_value_term(m) {
            lemma_progress(m, by_value);
        }
    }
}

} // verus!
