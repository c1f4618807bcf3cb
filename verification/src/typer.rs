//! The type checker: booleans and function types, assigned under a
//! typing context with stack discipline.
//!
//! `type_of` is the typing function every contract speaks about; the
//! `Typer` walks a term and returns exactly what `type_of` says, while
//! keeping its context stack as it found it, on success and on failure
//! alike.

use vstd::prelude::*;

use crate::ast::Constant;
use crate::ast::Expr;
use crate::ast::Term;
use crate::ast::Type;
use crate::ast::expr_eq;
use crate::ast::type_eq;

verus! {

/// Why a term is ill-typed.
#[derive(Debug)]
pub enum TypeError {
    /// A variable occurrence with no binding in scope, with its name.
    UnboundVariable(String),
    /// The term in operator position of an application whose type is
    /// not a function type.
    NotAFunction(Expr),
    /// The domain a function expects, and the type its argument has.
    ArgumentTypeMismatch(Type, Type),
    /// The type a conditional's condition has instead of `Bool`.
    ConditionNotBoolean(Type),
    /// The types of the two branches of a conditional that disagree.
    BranchTypeMismatch(Type, Type),
}

/// The model of a type error, with the variable name as its characters.
pub enum TypeErrorView {
    UnboundVariable(Seq<char>),
    NotAFunction(Term),
    ArgumentTypeMismatch(Type, Type),
    ConditionNotBoolean(Type),
    BranchTypeMismatch(Type, Type),
}

impl View for TypeError {
    type V = TypeErrorView;

    open spec fn view(&self) -> TypeErrorView {
        match self {
            TypeError::UnboundVariable(x) => TypeErrorView::UnboundVariable(x@),
            TypeError::NotAFunction(e) => TypeErrorView::NotAFunction(e@),
            TypeError::ArgumentTypeMismatch(a, b) => TypeErrorView::ArgumentTypeMismatch(*a, *b),
            TypeError::ConditionNotBoolean(t) => TypeErrorView::ConditionNotBoolean(*t),
            TypeError::BranchTypeMismatch(a, b) => TypeErrorView::BranchTypeMismatch(*a, *b),
        }
    }
}

impl PartialEq for TypeError {
    fn eq(&self, other: &TypeError) -> (r: bool) {
        match (self, other) {
            (TypeError::UnboundVariable(x), TypeError::UnboundVariable(y)) => x.eq(y),
            (TypeError::NotAFunction(t), TypeError::NotAFunction(u)) => expr_eq(t, u),
            (
                TypeError::ArgumentTypeMismatch(a, b),
                TypeError::ArgumentTypeMismatch(c, d),
            ) => type_eq(a, c) && type_eq(b, d),
            (
                TypeError::ConditionNotBoolean(t),
                TypeError::ConditionNotBoolean(u),
            ) => type_eq(t, u),
            (
                TypeError::BranchTypeMismatch(a, b),
                TypeError::BranchTypeMismatch(c, d),
            ) => type_eq(a, c) && type_eq(b, d),
            _ => false,
        }
    }
}

impl vstd::std_specs::cmp::PartialEqSpecImpl for TypeError {
    open spec fn obeys_eq_spec() -> bool {
        true
    }

    open spec fn eq_spec(&self, other: &TypeError) -> bool {
        self@ == other@
    }
}

/// The type of a term under a typing context, or the first type error
/// the checker meets, walking operators before operands and then-
/// branches before else-branches.
pub open spec fn type_of(ctx: Map<Seq<char>, Type>, t: Term) -> Result<Type, TypeErrorView>
    decreases t,
{
    match t {
        Term::Var(x) => if ctx.dom().contains(x) {
            Ok(ctx[x])
        } else {
            Err(TypeErrorView::UnboundVariable(x))
        },
        Term::Constant(_) => Ok(Type::Bool),
        Term::App(e1, e2) => match type_of(ctx, *e1) {
            Ok(t1) => match t1 {
                Type::Fn(a, b) => match type_of(ctx, *e2) {
                    Ok(t2) => if *a == t2 {
                        Ok(*b)
                    } else {
                        Err(TypeErrorView::ArgumentTypeMismatch(*a, t2))
                    },
                    Err(e) => Err(e),
                },
                Type::Bool => Err(TypeErrorView::NotAFunction(*e1)),
            },
            Err(e) => Err(e),
        },
        Term::Abs(x, t1, body) => match type_of(ctx.insert(x, t1), *body) {
            Ok(t2) => Ok(Type::Fn(Box::new(t1), Box::new(t2))),
            Err(e) => Err(e),
        },
        Term::If(e1, e2, e3) => match type_of(ctx, *e1) {
            Ok(t1) => match t1 {
                Type::Bool => match type_of(ctx, *e2) {
                    Ok(t2) => match type_of(ctx, *e3) {
                        Ok(t3) => if t2 == t3 {
                            Ok(t2)
                        } else {
                            Err(TypeErrorView::BranchTypeMismatch(t2, t3))
                        },
                        Err(e) => Err(e),
                    },
                    Err(e) => Err(e),
                },
                Type::Fn(_, _) => Err(TypeErrorView::ConditionNotBoolean(t1)),
            },
            Err(e) => Err(e),
        },
    }
}

/// The typing context a stack of entries stands for: a later entry for
/// the same name shadows an earlier one.
pub open spec fn ctx_map(entries: Seq<(String, Type)>) -> Map<Seq<char>, Type>
    decreases entries.len(),
{
    if entries.len() == 0 {
        Map::empty()
    } else {
        ctx_map(entries.drop_last()).insert(entries.last().0@, entries.last().1)
    }
}

proof fn lemma_ctx_map_prefix(entries: Seq<(String, Type)>, i: int, x: Seq<char>)
    requires
        0 <= i <= entries.len(),
        forall|j: int| i <= j < entries.len() ==> entries[j].0@ != x,
    ensures
        ctx_map(entries).dom().contains(x) == ctx_map(entries.take(i)).dom().contains(x),
        ctx_map(entries).dom().contains(x) ==> ctx_map(entries)[x] == ctx_map(entries.take(i))[x],
    decreases entries.len() - i,
{
    if i < entries.len() {
        lemma_ctx_map_prefix(entries, i + 1, x);
        assert(entries.take(i + 1).drop_last() =~= entries.take(i));
        assert(entries.take(i + 1).last() == entries[i]);
    } else {
        assert(entries.take(i) =~= entries);
    }
}

/// The type checker, with its context of variable bindings.
pub struct Typer {
    context: Vec<(String, Type)>,
}

impl View for Typer {
    type V = Map<Seq<char>, Type>;

    closed spec fn view(&self) -> Map<Seq<char>, Type> {
        ctx_map(self.context@)
    }
}

impl Typer {
    /// The context as the stack of bindings it holds.
    pub closed spec fn stack(&self) -> Seq<(String, Type)> {
        self.context@
    }
}

impl Default for Typer {
    /// A checker with an empty context.
    fn default() -> (r: Typer)
        ensures
            r@ == Map::<Seq<char>, Type>::empty(),
            r.stack() == Seq::<(String, Type)>::empty(),
    {
        Typer { context: Vec::new() }
    }
}

impl Typer {
    /// The type of `e` under the current context: exactly what
    /// `type_of` says, with the context stack left as it was.
    pub fn typecheck(&mut self, e: &Expr) -> (res: Result<Type, TypeError>)
        ensures
            final(self).stack() == old(self).stack(),
            final(self)@ == old(self)@,
            (match res {
                Ok(t) => type_of(old(self)@, e@) == Ok::<Type, TypeErrorView>(t),
                Err(er) => type_of(old(self)@, e@) == Err::<Type, TypeErrorView>(er@),
            }),
        decreases crate::ast::term_size(e@), 1nat,
    {
        match e {
            Expr::Var(x) => self.var(x),
            Expr::Constant(c) => self.constant(c),
            Expr::App { e1, e2 } => self.app(e1, e2),
            Expr::Abs { x, t, e } => self.abs(x, t, e),
            Expr::If { e1, e2, e3 } => self.if_(e1, e2, e3),
        }
    }

    fn var(&self, var: &String) -> (res: Result<Type, TypeError>)
        ensures
            (match res {
                Ok(t) => type_of(self@, Term::Var(var@)) == Ok::<Type, TypeErrorView>(t),
                Err(er) => type_of(self@, Term::Var(var@)) == Err::<Type, TypeErrorView>(er@),
            }),
    {
        let n = self.context.len();
        let mut i: usize = n;
        while i > 0
            invariant
                i <= n,
                n == self.context@.len(),
                forall|j: int| i <= j < n ==> self.context@[j].0@ != var@,
            decreases i,
        {
            i -= 1;
            if self.context[i].0.eq(var) {
                proof {
                    lemma_ctx_map_prefix(self.context@, i + 1, var@);
                    assert(self.context@.take(i + 1).drop_last() =~= self.context@.take(i as int));
                    assert(self.context@.take(i + 1).last() == self.context@[i as int]);
                }
                return Ok(self.context[i].1.duplicate());
            }
        }
        proof {
            lemma_ctx_map_prefix(self.context@, 0, var@);
            assert(self.context@.take(0) =~= Seq::empty());
        }
        Err(TypeError::UnboundVariable(var.clone()))
    }

    fn constant(&self, _constant: &Constant) -> (res: Result<Type, TypeError>)
        ensures
            res == Ok::<Type, TypeError>(Type::Bool),
    {
        Ok(Type::Bool)
    }

    fn app(&mut self, e1: &Expr, e2: &Expr) -> (res: Result<Type, TypeError>)
        ensures
            final(self).stack() == old(self).stack(),
            final(self)@ == old(self)@,
            (match res {
                Ok(t) => type_of(old(self)@, Term::App(Box::new(e1@), Box::new(e2@)))
                    == Ok::<Type, TypeErrorView>(t),
                Err(er) => type_of(old(self)@, Term::App(Box::new(e1@), Box::new(e2@)))
                    == Err::<Type, TypeErrorView>(er@),
            }),
        decreases crate::ast::term_size(e1@) + crate::ast::term_size(e2@), 0nat,
    {
        match self.typecheck(e1) {
            Ok(t1) => match t1 {
                Type::Fn(a, b) => match self.typecheck(e2) {
                    Ok(t2) => {
                        if type_eq(&a, &t2) {
                            Ok(*b)
                        } else {
                            Err(TypeError::ArgumentTypeMismatch(*a, t2))
                        }
                    },
                    Err(er) => Err(er),
                },
                Type::Bool => Err(TypeError::NotAFunction(e1.duplicate())),
            },
            Err(er) => Err(er),
        }
    }

    fn abs(&mut self, x: &String, t: &Type, e: &Expr) -> (res: Result<Type, TypeError>)
        ensures
            final(self).stack() == old(self).stack(),
            final(self)@ == old(self)@,
            (match res {
                Ok(u) => type_of(old(self)@, Term::Abs(x@, *t, Box::new(e@)))
                    == Ok::<Type, TypeErrorView>(u),
                Err(er) => type_of(old(self)@, Term::Abs(x@, *t, Box::new(e@)))
                    == Err::<Type, TypeErrorView>(er@),
            }),
        decreases crate::ast::term_size(e@), 2nat,
    {
        let ghost entries = self.context@;
        self.context.push((x.clone(), t.duplicate()));
        proof {
            assert(entries.push((*x, *t)).drop_last() =~= entries);
            assert(ctx_map(self.context@) == ctx_map(entries).insert(x@, *t));
        }
        let r = self.typecheck(e);
        let _ = self.context.pop();
        proof {
            assert(entries.push((*x, *t)).drop_last() =~= entries);
        }
        match r {
            Ok(t2) => Ok(Type::Fn(Box::new(t.duplicate()), Box::new(t2))),
            Err(er) => Err(er),
        }
    }

    fn if_(&mut self, e1: &Expr, e2: &Expr, e3: &Expr) -> (res: Result<Type, TypeError>)
        ensures
            final(self).stack() == old(self).stack(),
            final(self)@ == old(self)@,
            (match res {
                Ok(t) => type_of(
                    old(self)@,
                    Term::If(Box::new(e1@), Box::new(e2@), Box::new(e3@)),
                ) == Ok::<Type, TypeErrorView>(t),
                Err(er) => type_of(
                    old(self)@,
                    Term::If(Box::new(e1@), Box::new(e2@), Box::new(e3@)),
                ) == Err::<Type, TypeErrorView>(er@),
            }),
        decreases crate::ast::term_size(e1@) + crate::ast::term_size(e2@)
            + crate::ast::term_size(e3@), 0nat,
    {
        match self.typecheck(e1) {
            Ok(t1) => match t1 {
                Type::Bool => match self.typecheck(e2) {
                    Ok(t2) => match self.typecheck(e3) {
                        Ok(t3) => {
                            if type_eq(&t2, &t3) {
                                Ok(t2)
                            } else {
                                Err(TypeError::BranchTypeMismatch(t2, t3))
                            }
                        },
                        Err(er) => Err(er),
                    },
                    Err(er) => Err(er),
                },
                Type::Fn(_, _) => Err(TypeError::ConditionNotBoolean(t1)),
            },
            Err(er) => Err(er),
        }
    }
}

} // verus!
