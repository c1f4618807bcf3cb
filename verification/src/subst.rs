//! Capture-avoiding substitution.
//!
//! `substitute` replaces the free occurrences of a name inside a term by
//! another term.  A binder whose name occurs free in the replacement is
//! first renamed to a fresh name, so that no free variable of the
//! replacement is ever captured; `lemma_subst_free_vars` states that
//! guarantee exactly.

use vstd::prelude::*;

use crate::ast::Expr;
use crate::ast::Term;
use crate::ast::all_vars;
use crate::ast::free_vars;
use crate::ast::lemma_vars_finite;
use crate::ast::term_size;

verus! {

/// The set of names held by a list of strings.
pub open spec fn name_set(names: Seq<String>) -> Set<Seq<char>> {
    Set::new(|s: Seq<char>| exists|i: int| 0 <= i < names.len() && names[i]@ == s)
}

proof fn lemma_name_set_push(names: Seq<String>, x: String)
    ensures
        name_set(names.push(x)) == name_set(names).insert(x@),
{
    assert forall|s: Seq<char>| #[trigger]
        name_set(names.push(x)).contains(s) implies name_set(names).insert(x@).contains(s) by {
        let i = choose|i: int| 0 <= i < names.push(x).len() && names.push(x)[i]@ == s;
        if i < names.len() {
            assert(names[i]@ == s);
        }
    };
    assert forall|s: Seq<char>| #[trigger]
        name_set(names).insert(x@).contains(s) implies name_set(names.push(x)).contains(s) by {
        if s == x@ {
            assert(names.push(x)[names.len() as int]@ == s);
        } else {
            let i = choose|i: int| 0 <= i < names.len() && names[i]@ == s;
            assert(names.push(x)[i]@ == s);
        }
    };
    assert(name_set(names.push(x)) =~= name_set(names).insert(x@));
}

proof fn lemma_name_set_append(a: Seq<String>, b: Seq<String>)
    ensures
        name_set(a + b) == name_set(a).union(name_set(b)),
{
    assert forall|s: Seq<char>| #[trigger]
        name_set(a + b).contains(s) implies name_set(a).union(name_set(b)).contains(s) by {
        let i = choose|i: int| 0 <= i < (a + b).len() && (a + b)[i]@ == s;
        if i < a.len() {
            assert(a[i]@ == s);
        } else {
            assert(b[i - a.len()]@ == s);
        }
    };
    assert forall|s: Seq<char>| #[trigger]
        name_set(a).union(name_set(b)).contains(s) implies name_set(a + b).contains(s) by {
        if name_set(a).contains(s) {
            let i = choose|i: int| 0 <= i < a.len() && a[i]@ == s;
            assert((a + b)[i]@ == s);
        } else {
            let i = choose|i: int| 0 <= i < b.len() && b[i]@ == s;
            assert((a + b)[a.len() + i]@ == s);
        }
    };
    assert(name_set(a + b) =~= name_set(a).union(name_set(b)));
}

proof fn lemma_name_set_finite(names: Seq<String>)
    ensures
        name_set(names).finite(),
    decreases names.len(),
{
    if names.len() == 0 {
        assert(name_set(names) =~= Set::empty());
    } else {
        lemma_name_set_finite(names.drop_last());
        lemma_name_set_push(names.drop_last(), names.last());
        assert(names.drop_last().push(names.last()) =~= names);
    }
}

/// Whether one of the listed names is `target`.
fn contains_name(names: &Vec<String>, target: &String) -> (r: bool)
    ensures
        r == name_set(names@).contains(target@),
{
    let n = names.len();
    let mut i: usize = 0;
    while i < n
        invariant
            i <= n,
            n == names@.len(),
            forall|j: int| 0 <= j < i ==> names@[j]@ != target@,
        decreases n - i,
    {
        if names[i].eq(target) {
            assert(name_set(names@).contains(target@)) by {
                assert(names@[i as int]@ == target@);
            };
            return true;
        }
        i += 1;
    }
    assert(!name_set(names@).contains(target@)) by {
        if name_set(names@).contains(target@) {
            let j = choose|j: int| 0 <= j < names@.len() && names@[j]@ == target@;
        }
    };
    false
}

/// The free variables of a term, as a list of names.
pub fn fv(expr: &Expr) -> (r: Vec<String>)
    ensures
        name_set(r@) == free_vars(expr@),
    decreases expr,
{
    match expr {
        Expr::Var(x) => {
            let mut v: Vec<String> = Vec::new();
            v.push(x.clone());
            proof {
                lemma_name_set_push(Seq::empty(), *x);
                assert(name_set(Seq::<String>::empty()) =~= Set::empty());
                assert(v@ == Seq::<String>::empty().push(*x));
            }
            v
        },
        Expr::Constant(_) => {
            let v: Vec<String> = Vec::new();
            proof {
                assert(name_set(v@) =~= Set::empty());
            }
            v
        },
        Expr::App { e1, e2 } => {
            let mut v = fv(e1);
            let mut v2 = fv(e2);
            proof {
                lemma_name_set_append(v@, v2@);
            }
            v.append(&mut v2);
            v
        },
        Expr::Abs { x, t: _, e } => {
            let inner = fv(e);
            remove_name(inner, x)
        },
        Expr::If { e1, e2, e3 } => {
            let mut v = fv(e1);
            let mut v2 = fv(e2);
            let mut v3 = fv(e3);
            proof {
                lemma_name_set_append(v@, v2@);
                lemma_name_set_append(v@ + v2@, v3@);
            }
            v.append(&mut v2);
            v.append(&mut v3);
            v
        },
    }
}

/// Every name occurring in a term, free, bound or as a binder.
pub fn vars(expr: &Expr) -> (r: Vec<String>)
    ensures
        name_set(r@) == all_vars(expr@),
    decreases expr,
{
    match expr {
        Expr::Var(x) => {
            let mut v: Vec<String> = Vec::new();
            v.push(x.clone());
            proof {
                lemma_name_set_push(Seq::empty(), *x);
                assert(name_set(Seq::<String>::empty()) =~= Set::empty());
                assert(v@ == Seq::<String>::empty().push(*x));
            }
            v
        },
        Expr::Constant(_) => {
            let v: Vec<String> = Vec::new();
            proof {
                assert(name_set(v@) =~= Set::empty());
            }
            v
        },
        Expr::App { e1, e2 } => {
            let mut v = vars(e1);
            let mut v2 = vars(e2);
            proof {
                lemma_name_set_append(v@, v2@);
            }
            v.append(&mut v2);
            v
        },
        Expr::Abs { x, t: _, e } => {
            let mut v = vars(e);
            proof {
                lemma_name_set_push(v@, *x);
            }
            v.push(x.clone());
            v
        },
        Expr::If { e1, e2, e3 } => {
            let mut v = vars(e1);
            let mut v2 = vars(e2);
            let mut v3 = vars(e3);
            proof {
                lemma_name_set_append(v@, v2@);
                lemma_name_set_append(v@ + v2@, v3@);
            }
            v.append(&mut v2);
            v.append(&mut v3);
            v
        },
    }
}

/// The listed names with every occurrence of `x` left out.
fn remove_name(v: Vec<String>, x: &String) -> (r: Vec<String>)
    ensures
        name_set(r@) == name_set(v@).remove(x@),
{
    let n = v.len();
    let mut out: Vec<String> = Vec::new();
    let mut i: usize = 0;
    proof {
        assert(name_set(out@) =~= name_set(v@.take(0)).remove(x@)) by {
            assert(name_set(out@) =~= Set::empty());
            assert(name_set(v@.take(0)) =~= Set::empty());
        };
    }
    while i < n
        invariant
            i <= n,
            n == v@.len(),
            name_set(out@) == name_set(v@.take(i as int)).remove(x@),
        decreases n - i,
    {
        proof {
            assert(v@.take(i + 1) =~= v@.take(i as int).push(v@[i as int]));
            lemma_name_set_push(v@.take(i as int), v@[i as int]);
        }
        if !v[i].eq(x) {
            proof {
                lemma_name_set_push(out@, v@[i as int]);
                assert(name_set(out@).insert(v@[i as int]@) =~= name_set(
                    v@.take(i + 1),
                ).remove(x@));
            }
            let s = v[i].clone();
            out.push(s);
        } else {
            proof {
                assert(name_set(out@) =~= name_set(v@.take(i + 1)).remove(x@));
            }
        }
        i += 1;
    }
    proof {
        assert(v@.take(n as int) =~= v@);
    }
    out
}

/// The size of the part of `avoid` that a candidate of this length has
/// not yet walked past; the measure under which the fresh-name search
/// terminates.
pub open spec fn fresh_measure(cand: Seq<char>, avoid: Set<Seq<char>>) -> nat {
    avoid.filter(|s: Seq<char>| cand.len() <= s.len()).len()
}

/// The first name, starting from `cand` and appending `'1'` as often as
/// needed, that is not in `avoid`.
pub open spec fn fresh_from(cand: Seq<char>, avoid: Set<Seq<char>>) -> Seq<char>
    decreases fresh_measure(cand, avoid),
        when avoid.finite()
    via fresh_from_dec
{
    if avoid.contains(cand) {
        fresh_from(cand.push('1'), avoid)
    } else {
        cand
    }
}

#[via_fn]
proof fn fresh_from_dec(cand: Seq<char>, avoid: Set<Seq<char>>) {
    if avoid.contains(cand) {
        lemma_fresh_measure_shrinks(cand, avoid);
    }
}

proof fn lemma_fresh_measure_shrinks(cand: Seq<char>, avoid: Set<Seq<char>>)
    requires
        avoid.finite(),
        avoid.contains(cand),
    ensures
        fresh_measure(cand.push('1'), avoid) < fresh_measure(cand, avoid),
{
    let f1 = avoid.filter(|s: Seq<char>| cand.len() <= s.len());
    let f2 = avoid.filter(|s: Seq<char>| cand.push('1').len() <= s.len());
    assert(f1.contains(cand));
    assert(f2.subset_of(f1.remove(cand)));
    assert(f1.finite()) by {
        avoid.lemma_len_filter(|s: Seq<char>| cand.len() <= s.len());
    };
    vstd::set_lib::lemma_len_subset(f2, f1.remove(cand));
}

pub proof fn lemma_fresh_from(cand: Seq<char>, avoid: Set<Seq<char>>)
    requires
        avoid.finite(),
    ensures
        !avoid.contains(fresh_from(cand, avoid)),
    decreases fresh_measure(cand, avoid),
{
    if avoid.contains(cand) {
        lemma_fresh_measure_shrinks(cand, avoid);
        lemma_fresh_from(cand.push('1'), avoid);
    }
}

/// The first name, starting from `cand` and appending `"1"` as often as
/// needed, that is not among `avoid`.
fn fresh_search(cand: String, avoid: &Vec<String>) -> (r: String)
    ensures
        r@ == fresh_from(cand@, name_set(avoid@)),
    decreases fresh_measure(cand@, name_set(avoid@)),
{
    proof {
        lemma_name_set_finite(avoid@);
    }
    let ghost base = cand@;
    if contains_name(avoid, &cand) {
        let mut c2 = cand;
        c2.append("1");
        proof {
            reveal_strlit("1");
            assert(c2@ =~= base.push('1'));
            lemma_fresh_measure_shrinks(base, name_set(avoid@));
        }
        fresh_search(c2, avoid)
    } else {
        cand
    }
}

/// Plain renaming of the free occurrences of `from` to `to`.  It is
/// capture-free only when `to` occurs nowhere in the term; substitution
/// uses it with a name fresh for the whole body.
pub open spec fn rename_free(t: Term, from: Seq<char>, to: Seq<char>) -> Term
    decreases t,
{
    match t {
        Term::Var(y) => if y == from {
            Term::Var(to)
        } else {
            t
        },
        Term::Constant(_) => t,
        Term::App(e1, e2) => Term::App(
            Box::new(rename_free(*e1, from, to)),
            Box::new(rename_free(*e2, from, to)),
        ),
        Term::Abs(y, ty, e) => if y == from {
            t
        } else {
            Term::Abs(y, ty, Box::new(rename_free(*e, from, to)))
        },
        Term::If(e1, e2, e3) => Term::If(
            Box::new(rename_free(*e1, from, to)),
            Box::new(rename_free(*e2, from, to)),
            Box::new(rename_free(*e3, from, to)),
        ),
    }
}

pub proof fn lemma_rename_size(t: Term, from: Seq<char>, to: Seq<char>)
    ensures
        term_size(rename_free(t, from, to)) == term_size(t),
    decreases t,
{
    match t {
        Term::Var(_) => {},
        Term::Constant(_) => {},
        Term::App(e1, e2) => {
            lemma_rename_size(*e1, from, to);
            lemma_rename_size(*e2, from, to);
        },
        Term::Abs(_, _, e) => {
            lemma_rename_size(*e, from, to);
        },
        Term::If(e1, e2, e3) => {
            lemma_rename_size(*e1, from, to);
            lemma_rename_size(*e2, from, to);
            lemma_rename_size(*e3, from, to);
        },
    }
}

/// The names a fresh binder must stay away from when substituting `r`
/// for `x` under a binder over `body`: every name of `body`, the free
/// variables of `r`, and `x` itself.
pub open spec fn subst_avoid(body: Term, x: Seq<char>, r: Term) -> Set<Seq<char>> {
    all_vars(body).union(free_vars(r)).insert(x)
}

pub proof fn lemma_subst_avoid_finite(body: Term, x: Seq<char>, r: Term)
    ensures
        subst_avoid(body, x, r).finite(),
{
    lemma_vars_finite(body);
    lemma_vars_finite(r);
}

/// Capture-avoiding substitution of `r` for the free occurrences of `x`.
///
/// A binder equal to `x` shadows the substitution and its body is left
/// alone.  A binder whose name is free in `r` is renamed, before the
/// substitution goes on below it, to the first name of the shape
/// `y1`, `y11`, ... that collides neither with a name of the body nor
/// with a free variable of `r` nor with `x`.
pub open spec fn subst(t: Term, x: Seq<char>, r: Term) -> Term
    decreases term_size(t),
{
    match t {
        Term::Var(y) => if y == x {
            r
        } else {
            t
        },
        Term::Constant(_) => t,
        Term::App(e1, e2) => Term::App(
            Box::new(subst(*e1, x, r)),
            Box::new(subst(*e2, x, r)),
        ),
        Term::Abs(y, ty, body) => if y == x {
            t
        } else if free_vars(r).contains(y) {
            proof {
                lemma_subst_avoid_finite(*body, x, r);
                lemma_rename_size(
                    *body,
                    y,
                    fresh_from(y.push('1'), subst_avoid(*body, x, r)),
                );
            }
            let fresh = fresh_from(y.push('1'), subst_avoid(*body, x, r));
            Term::Abs(fresh, ty, Box::new(subst(rename_free(*body, y, fresh), x, r)))
        } else {
            Term::Abs(y, ty, Box::new(subst(*body, x, r)))
        },
        Term::If(e1, e2, e3) => Term::If(
            Box::new(subst(*e1, x, r)),
            Box::new(subst(*e2, x, r)),
            Box::new(subst(*e3, x, r)),
        ),
    }
}

/// What renaming does to the free variables: under a name fresh for the
/// whole term, exactly the free occurrences of `from` change to `to`.
pub proof fn lemma_rename_free_vars(t: Term, a: Seq<char>, b: Seq<char>)
    requires
        !all_vars(t).contains(b),
    ensures
        free_vars(rename_free(t, a, b)) == (if free_vars(t).contains(a) {
            free_vars(t).remove(a).insert(b)
        } else {
            free_vars(t)
        }),
    decreases t,
{
    match t {
        Term::Var(_) => {
            if free_vars(t).contains(a) {
                assert(free_vars(rename_free(t, a, b)) =~= free_vars(t).remove(a).insert(b));
            }
        },
        Term::Constant(_) => {},
        Term::App(e1, e2) => {
            lemma_vars_finite(*e1);
            lemma_vars_finite(*e2);
            lemma_rename_free_vars(*e1, a, b);
            lemma_rename_free_vars(*e2, a, b);
            if free_vars(t).contains(a) {
                assert(free_vars(rename_free(t, a, b)) =~= free_vars(t).remove(a).insert(b));
            } else {
                assert(free_vars(rename_free(t, a, b)) =~= free_vars(t));
            }
        },
        Term::Abs(y, _, e) => {
            lemma_vars_finite(*e);
            if y != a {
                lemma_rename_free_vars(*e, a, b);
            }
            if free_vars(t).contains(a) {
                assert(free_vars(rename_free(t, a, b)) =~= free_vars(t).remove(a).insert(b));
            } else {
                assert(free_vars(rename_free(t, a, b)) =~= free_vars(t));
            }
        },
        Term::If(e1, e2, e3) => {
            lemma_vars_finite(*e1);
            lemma_vars_finite(*e2);
            lemma_vars_finite(*e3);
            lemma_rename_free_vars(*e1, a, b);
            lemma_rename_free_vars(*e2, a, b);
            lemma_rename_free_vars(*e3, a, b);
            if free_vars(t).contains(a) {
                assert(free_vars(rename_free(t, a, b)) =~= free_vars(t).remove(a).insert(b));
            } else {
                assert(free_vars(rename_free(t, a, b)) =~= free_vars(t));
            }
        },
    }
}

/// Substitution is capture-free: the free variables of `subst(t, x, r)`
/// are exactly those of `t` less `x`, joined with those of `r` where
/// `x` was in fact free in `t`.  In particular every variable free in
/// the replacement is still free in the result, never bound by a binder
/// of `t`.
pub proof fn lemma_subst_free_vars(t: Term, x: Seq<char>, r: Term)
    ensures
        free_vars(subst(t, x, r)) == (if free_vars(t).contains(x) {
            free_vars(t).remove(x).union(free_vars(r))
        } else {
            free_vars(t)
        }),
    decreases term_size(t),
{
    match t {
        Term::Var(y) => {
            if y == x {
                assert(free_vars(subst(t, x, r)) =~= free_vars(t).remove(x).union(free_vars(r)));
            }
        },
        Term::Constant(_) => {},
        Term::App(e1, e2) => {
            lemma_subst_free_vars(*e1, x, r);
            lemma_subst_free_vars(*e2, x, r);
            if free_vars(t).contains(x) {
                assert(free_vars(subst(t, x, r)) =~= free_vars(t).remove(x).union(free_vars(r)));
            } else {
                assert(free_vars(subst(t, x, r)) =~= free_vars(t));
            }
        },
        Term::If(e1, e2, e3) => {
            lemma_subst_free_vars(*e1, x, r);
            lemma_subst_free_vars(*e2, x, r);
            lemma_subst_free_vars(*e3, x, r);
            if free_vars(t).contains(x) {
                assert(free_vars(subst(t, x, r)) =~= free_vars(t).remove(x).union(free_vars(r)));
            } else {
                assert(free_vars(subst(t, x, r)) =~= free_vars(t));
            }
        },
        Term::Abs(y, ty, body) => {
            lemma_vars_finite(*body);
            lemma_vars_finite(r);
            if y == x {
                assert(!free_vars(t).contains(x));
            } else if free_vars(r).contains(y) {
                let avoid = subst_avoid(*body, x, r);
                let fresh = fresh_from(y.push('1'), avoid);
                lemma_subst_avoid_finite(*body, x, r);
                lemma_fresh_from(y.push('1'), avoid);
                assert(!all_vars(*body).contains(fresh));
                assert(!free_vars(r).contains(fresh));
                assert(fresh != x);
                assert(fresh != y);
                assert(!free_vars(*body).contains(fresh));
                let renamed = rename_free(*body, y, fresh);
                lemma_rename_free_vars(*body, y, fresh);
                lemma_rename_size(*body, y, fresh);
                lemma_subst_free_vars(renamed, x, r);
                if free_vars(t).contains(x) {
                    assert(free_vars(subst(t, x, r)) =~= free_vars(t).remove(x).union(
                        free_vars(r),
                    ));
                } else {
                    assert(free_vars(subst(t, x, r)) =~= free_vars(t));
                }
            } else {
                lemma_subst_free_vars(*body, x, r);
                if free_vars(t).contains(x) {
                    assert(free_vars(subst(t, x, r)) =~= free_vars(t).remove(x).union(
                        free_vars(r),
                    ));
                } else {
                    assert(free_vars(subst(t, x, r)) =~= free_vars(t));
                }
            }
        },
    }
}

/// Plain renaming of the free occurrences of `from` to `to`.
fn rename(expr: &Expr, from: &String, to: &String) -> (r: Expr)
    ensures
        r@ == rename_free(expr@, from@, to@),
    decreases expr,
{
    match expr {
        Expr::Var(x) => if x.eq(from) {
            Expr::Var(to.clone())
        } else {
            expr.duplicate()
        },
        Expr::Constant(_) => expr.duplicate(),
        Expr::App { e1, e2 } => Expr::App {
            e1: Box::new(rename(e1, from, to)),
            e2: Box::new(rename(e2, from, to)),
        },
        Expr::Abs { x, t, e } => if x.eq(from) {
            expr.duplicate()
        } else {
            Expr::Abs { x: x.clone(), t: t.duplicate(), e: Box::new(rename(e, from, to)) }
        },
        Expr::If { e1, e2, e3 } => Expr::If {
            e1: Box::new(rename(e1, from, to)),
            e2: Box::new(rename(e2, from, to)),
            e3: Box::new(rename(e3, from, to)),
        },
    }
}

/// Replace the free occurrences of `old` inside `expr` by `new`,
/// renaming binders of `expr` where needed so that no free variable of
/// `new` is captured.
pub fn substitute(expr: &Expr, old: &String, new: &Expr) -> (r: Expr)
    ensures
        r@ == subst(expr@, old@, new@),
    decreases term_size(expr@),
{
    match expr {
        Expr::Var(x) => if x.eq(old) {
            new.duplicate()
        } else {
            expr.duplicate()
        },
        Expr::Constant(_) => expr.duplicate(),
        Expr::App { e1, e2 } => Expr::App {
            e1: Box::new(substitute(e1, old, new)),
            e2: Box::new(substitute(e2, old, new)),
        },
        Expr::Abs { x, t, e } => {
            if x.eq(old) {
                expr.duplicate()
            } else {
                let fv_new = fv(new);
                if contains_name(&fv_new, x) {
                    let mut avoid = vars(e);
                    let mut fvn = fv_new;
                    proof {
                        lemma_name_set_append(avoid@, fvn@);
                    }
                    avoid.append(&mut fvn);
                    proof {
                        lemma_name_set_push(avoid@, *old);
                    }
                    avoid.push(old.clone());
                    let mut base = x.clone();
                    base.append("1");
                    proof {
                        reveal_strlit("1");
                        assert(base@ =~= x@.push('1'));
                        assert(name_set(avoid@) =~= subst_avoid(e@, old@, new@));
                    }
                    let freshn = fresh_search(base, &avoid);
                    let renamed = rename(e, x, &freshn);
                    proof {
                        lemma_rename_size(e@, x@, freshn@);
                    }
                    Expr::Abs {
                        x: freshn,
                        t: t.duplicate(),
                        e: Box::new(substitute(&renamed, old, new)),
                    }
                } else {
                    Expr::Abs {
                        x: x.clone(),
                        t: t.duplicate(),
                        e: Box::new(substitute(e, old, new)),
                    }
                }
            }
        },
        Expr::If { e1, e2, e3 } => Expr::If {
            e1: Box::new(substitute(e1, old, new)),
            e2: Box::new(substitute(e2, old, new)),
            e3: Box::new(substitute(e3, old, new)),
        },
    }
}

} // verus!
