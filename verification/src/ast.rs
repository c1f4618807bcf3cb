//! The term and type model of a simply-typed lambda calculus with booleans.
//!
//! `Expr` and `Type` are the trees the parser builds; `Term` is the
//! mathematical model of an `Expr`, with variable names as character
//! sequences, and is what every contract in this crate speaks about.

use vstd::prelude::*;
use vstd::string::StringExecFns;

verus! {

/// A boolean literal of the object language.
#[derive(Debug, Clone, Copy, PartialEq, Eq, Structural)]
pub enum Constant {
    True,
    False,
}

/// A type of the object language: booleans, or a function type.
#[derive(Debug)]
pub enum Type {
    Bool,
    Fn(Box<Type>, Box<Type>),
}

/// A term of the object language, as the parser builds it.
#[derive(Debug)]
pub enum Expr {
    /// x
    Var(String),
    /// true | false
    Constant(Constant),
    /// e1 e2
    App { e1: Box<Expr>, e2: Box<Expr> },
    /// \x:t.e
    Abs { x: String, t: Type, e: Box<Expr> },
    /// if e1 then e2 else e3
    If { e1: Box<Expr>, e2: Box<Expr>, e3: Box<Expr> },
}

/// The model of a term: the same tree as `Expr`, with each variable
/// name abstracted to its character sequence.
pub enum Term {
    Var(Seq<char>),
    Constant(Constant),
    App(Box<Term>, Box<Term>),
    Abs(Seq<char>, Type, Box<Term>),
    If(Box<Term>, Box<Term>, Box<Term>),
}

/// The model of a tree of `Expr` nodes.
pub open spec fn term_of(e: Expr) -> Term
    decreases e,
{
    match e {
        Expr::Var(x) => Term::Var(x@),
        Expr::Constant(c) => Term::Constant(c),
        Expr::App { e1, e2 } => Term::App(Box::new(term_of(*e1)), Box::new(term_of(*e2))),
        Expr::Abs { x, t, e } => Term::Abs(x@, t, Box::new(term_of(*e))),
        Expr::If { e1, e2, e3 } => Term::If(
            Box::new(term_of(*e1)),
            Box::new(term_of(*e2)),
            Box::new(term_of(*e3)),
        ),
    }
}

impl View for Expr {
    type V = Term;

    open spec fn view(&self) -> Term {
        term_of(*self)
    }
}

/// The number of nodes of a term; the measure under which substitution
/// recurses.
pub open spec fn term_size(t: Term) -> nat
    decreases t,
{
    match t {
        Term::Var(_) => 1,
        Term::Constant(_) => 1,
        Term::App(e1, e2) => 1 + term_size(*e1) + term_size(*e2),
        Term::Abs(_, _, e) => 1 + term_size(*e),
        Term::If(e1, e2, e3) => 1 + term_size(*e1) + term_size(*e2) + term_size(*e3),
    }
}

/// The free variables of a term: occurrences not bound by an enclosing
/// abstraction of the same name.
pub open spec fn free_vars(t: Term) -> Set<Seq<char>>
    decreases t,
{
    match t {
        Term::Var(x) => Set::empty().insert(x),
        Term::Constant(_) => Set::empty(),
        Term::App(e1, e2) => free_vars(*e1).union(free_vars(*e2)),
        Term::Abs(x, _, e) => free_vars(*e).remove(x),
        Term::If(e1, e2, e3) => free_vars(*e1).union(free_vars(*e2)).union(free_vars(*e3)),
    }
}

/// Every variable name occurring anywhere in a term, free, bound or as
/// a binder.  A name outside this set can be bound in the term without
/// touching any existing occurrence.
pub open spec fn all_vars(t: Term) -> Set<Seq<char>>
    decreases t,
{
    match t {
        Term::Var(x) => Set::empty().insert(x),
        Term::Constant(_) => Set::empty(),
        Term::App(e1, e2) => all_vars(*e1).union(all_vars(*e2)),
        Term::Abs(x, _, e) => all_vars(*e).insert(x),
        Term::If(e1, e2, e3) => all_vars(*e1).union(all_vars(*e2)).union(all_vars(*e3)),
    }
}

pub proof fn lemma_term_size_pos(t: Term)
    ensures
        term_size(t) >= 1,
{
    match t {
        Term::Var(_) => {},
        Term::Constant(_) => {},
        Term::App(_, _) => {},
        Term::Abs(_, _, _) => {},
        Term::If(_, _, _) => {},
    }
}

pub proof fn lemma_vars_finite(t: Term)
    ensures
        free_vars(t).finite(),
        all_vars(t).finite(),
        free_vars(t).subset_of(all_vars(t)),
    decreases t,
{
    match t {
        Term::Var(_) => {},
        Term::Constant(_) => {},
        Term::App(e1, e2) => {
            lemma_vars_finite(*e1);
            lemma_vars_finite(*e2);
        },
        Term::Abs(_, _, e) => {
            lemma_vars_finite(*e);
        },
        Term::If(e1, e2, e3) => {
            lemma_vars_finite(*e1);
            lemma_vars_finite(*e2);
            lemma_vars_finite(*e3);
        },
    }
}

/// Structural equality of types, used by the `PartialEq` impl.
pub fn type_eq(a: &Type, b: &Type) -> (r: bool)
    ensures
        r == (a == b),
    decreases a,
{
    match (a, b) {
        (Type::Bool, Type::Bool) => true,
        (Type::Fn(a1, b1), Type::Fn(a2, b2)) => type_eq(a1, a2) && type_eq(b1, b2),
        _ => false,
    }
}

impl PartialEq for Type {
    fn eq(&self, other: &Type) -> (r: bool) {
        type_eq(self, other)
    }
}

impl vstd::std_specs::cmp::PartialEqSpecImpl for Type {
    open spec fn obeys_eq_spec() -> bool {
        true
    }

    open spec fn eq_spec(&self, other: &Type) -> bool {
        self == other
    }
}

/// Structural equality of terms; names are compared by their characters.
pub fn expr_eq(a: &Expr, b: &Expr) -> (r: bool)
    ensures
        r == (a@ == b@),
    decreases a,
{
    match (a, b) {
        (Expr::Var(x), Expr::Var(y)) => x.eq(y),
        (Expr::Constant(c), Expr::Constant(d)) => *c == *d,
        (Expr::App { e1, e2 }, Expr::App { e1: f1, e2: f2 }) => expr_eq(e1, f1) && expr_eq(
            e2,
            f2,
        ),
        (Expr::Abs { x, t, e }, Expr::Abs { x: y, t: u, e: f }) => x.eq(y) && type_eq(t, u)
            && expr_eq(e, f),
        (Expr::If { e1, e2, e3 }, Expr::If { e1: f1, e2: f2, e3: f3 }) => expr_eq(e1, f1)
            && expr_eq(e2, f2) && expr_eq(e3, f3),
        _ => false,
    }
}

impl PartialEq for Expr {
    fn eq(&self, other: &Expr) -> (r: bool) {
        expr_eq(self, other)
    }
}

impl vstd::std_specs::cmp::PartialEqSpecImpl for Expr {
    open spec fn obeys_eq_spec() -> bool {
        true
    }

    open spec fn eq_spec(&self, other: &Expr) -> bool {
        self@ == other@
    }
}

impl Type {
    /// A copy of this type, equal to the original.
    pub fn duplicate(&self) -> (r: Type)
        ensures
            r == *self,
        decreases self,
    {
        match self {
            Type::Bool => Type::Bool,
            Type::Fn(a, b) => Type::Fn(Box::new(a.duplicate()), Box::new(b.duplicate())),
        }
    }
}

impl Expr {
    /// A copy of this term, equal to the original.
    pub fn duplicate(&self) -> (r: Expr)
        ensures
            r == *self,
        decreases self,
    {
        match self {
            Expr::Var(x) => Expr::Var(x.clone()),
            Expr::Constant(c) => Expr::Constant(*c),
            Expr::App { e1, e2 } => Expr::App {
                e1: Box::new(e1.duplicate()),
                e2: Box::new(e2.duplicate()),
            },
            Expr::Abs { x, t, e } => Expr::Abs {
                x: x.clone(),
                t: t.duplicate(),
                e: Box::new(e.duplicate()),
            },
            Expr::If { e1, e2, e3 } => Expr::If {
                e1: Box::new(e1.duplicate()),
                e2: Box::new(e2.duplicate()),
                e3: Box::new(e3.duplicate()),
            },
        }
    }
}

/// The canonical rendering of a type: the keyword `bool`, with a
/// function type's domain parenthesized exactly when it is itself a
/// function type.
pub open spec fn type_text(t: Type) -> Seq<char>
    decreases t,
{
    match t {
        Type::Bool => "bool"@,
        Type::Fn(a, b) => match *a {
            Type::Fn(_, _) => "("@ + type_text(*a) + ") -> "@ + type_text(*b),
            Type::Bool => type_text(*a) + " -> "@ + type_text(*b),
        },
    }
}

/// The rendering of a boolean literal.
pub open spec fn constant_text(c: Constant) -> Seq<char> {
    match c {
        Constant::True => "true"@,
        Constant::False => "false"@,
    }
}

/// The canonical rendering of a term.  Only the two sides of an
/// application are parenthesized, and only when they are not a
/// variable or a constant.
pub open spec fn expr_text(t: Term) -> Seq<char>
    decreases t, 0nat,
{
    match t {
        Term::Var(x) => x,
        Term::Constant(c) => constant_text(c),
        Term::App(e1, e2) => atom_text(*e1) + " "@ + atom_text(*e2),
        Term::Abs(x, ty, e) => "\\"@ + x + ": "@ + type_text(ty) + "."@ + expr_text(*e),
        Term::If(e1, e2, e3) => "if "@ + expr_text(*e1) + " then "@ + expr_text(*e2) + " else "@
            + expr_text(*e3),
    }
}

/// A term as it stands on a side of an application: parenthesized
/// unless it is a variable or a constant.
pub open spec fn atom_text(t: Term) -> Seq<char>
    decreases t, 1nat,
{
    match t {
        Term::Var(_) => expr_text(t),
        Term::Constant(_) => expr_text(t),
        _ => "("@ + expr_text(t) + ")"@,
    }
}

impl Type {
    /// This type in canonical concrete syntax.
    pub fn to_string(&self) -> (r: String)
        ensures
            r@ == type_text(*self),
        decreases self,
    {
        match self {
            Type::Bool => String::from_str("bool"),
            Type::Fn(a, b) => {
                let mut s = String::new();
                let at = a.to_string();
                let bt = b.to_string();
                match &**a {
                    Type::Fn(_, _) => {
                        s.append("(");
                        s.append(at.as_str());
                        s.append(") -> ");
                    },
                    Type::Bool => {
                        s.append(at.as_str());
                        s.append(" -> ");
                    },
                }
                s.append(bt.as_str());
                proof {
                    assert(s@ =~= type_text(*self));
                }
                s
            },
        }
    }
}

impl Constant {
    /// This literal in concrete syntax.
    pub fn to_string(&self) -> (r: String)
        ensures
            r@ == constant_text(*self),
    {
        match self {
            Constant::True => String::from_str("true"),
            Constant::False => String::from_str("false"),
        }
    }
}

impl Expr {
    /// This term in canonical concrete syntax.
    pub fn to_string(&self) -> (r: String)
        ensures
            r@ == expr_text(self@),
        decreases self, 0nat,
    {
        match self {
            Expr::Var(x) => x.clone(),
            Expr::Constant(c) => c.to_string(),
            Expr::App { e1, e2 } => {
                let mut s = maybe_parenthesize(e1);
                s.append(" ");
                let rt = maybe_parenthesize(e2);
                s.append(rt.as_str());
                proof {
                    assert(s@ =~= expr_text(self@));
                }
                s
            },
            Expr::Abs { x, t, e } => {
                let mut s = String::from_str("\\");
                s.append(x.as_str());
                s.append(": ");
                let tt = t.to_string();
                s.append(tt.as_str());
                s.append(".");
                let et = e.to_string();
                s.append(et.as_str());
                proof {
                    assert(s@ =~= expr_text(self@));
                }
                s
            },
            Expr::If { e1, e2, e3 } => {
                let mut s = String::from_str("if ");
                let t1 = e1.to_string();
                s.append(t1.as_str());
                s.append(" then ");
                let t2 = e2.to_string();
                s.append(t2.as_str());
                s.append(" else ");
                let t3 = e3.to_string();
                s.append(t3.as_str());
                proof {
                    assert(s@ =~= expr_text(self@));
                }
                s
            },
        }
    }
}

/// A side of an application, parenthesized unless it is a variable or
/// a constant.
fn maybe_parenthesize(expr: &Expr) -> (r: String)
    ensures
        r@ == atom_text(expr@),
    decreases expr, 1nat,
{
    match expr {
        Expr::Var(_) => expr.to_string(),
        Expr::Constant(_) => expr.to_string(),
        _ => {
            let mut s = String::from_str("(");
            let t = expr.to_string();
            s.append(t.as_str());
            s.append(")");
            proof {
                assert(s@ =~= atom_text(expr@));
            }
            s
        },
    }
}

} // verus!
