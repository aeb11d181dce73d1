use vstd::prelude::*;

verus! {

/// Line and column where a term starts in the source text.
#[derive(Debug, Clone, Copy, PartialEq, Eq, Structural)]
pub struct LineInfo(pub usize, pub usize);

/// Types of the optionally typed calculus.
#[derive(Debug)]
pub enum Type {
    /// The wildcard: it matches every type.
    Any,
    /// An atomic type name, or the name of an alias.
    Variable(String),
    /// A function type: parameter type and return type.
    Abstraction(Box<Type>, Box<Type>),
}

/// Terms of the lambda calculus, each with its source position.
#[derive(Debug)]
pub enum Term {
    Abstraction(String, Option<Type>, Box<Term>, LineInfo),
    Application(Box<Term>, Box<Term>, LineInfo),
    Variable(String, Option<Type>, LineInfo),
}

/// A top-level statement of a program.
#[derive(Debug)]
pub enum Expr {
    Assignment(String, Option<Type>, Term),
    TypeDef(String, Type),
    Term(Term),
}

/// A program is an ordered list of statements.
pub type Program = Vec<Expr>;

/// The mathematical model of a `Type`: names are character sequences.
pub enum SpecType {
    Any,
    Variable(Seq<char>),
    Abstraction(Box<SpecType>, Box<SpecType>),
}

/// The mathematical model of a `Term`.
pub enum SpecTerm {
    Abstraction(Seq<char>, Option<SpecType>, Box<SpecTerm>, LineInfo),
    Application(Box<SpecTerm>, Box<SpecTerm>, LineInfo),
    Variable(Seq<char>, Option<SpecType>, LineInfo),
}

/// The mathematical model of an `Expr`.
pub enum SpecExpr {
    Assignment(Seq<char>, Option<SpecType>, SpecTerm),
    TypeDef(Seq<char>, SpecType),
    Term(SpecTerm),
}

pub open spec fn type_model(t: Type) -> SpecType
    decreases t,
{
    match t {
        Type::Any => SpecType::Any,
        Type::Variable(n) => SpecType::Variable(n@),
        Type::Abstraction(p, r) => SpecType::Abstraction(
            Box::new(type_model(*p)),
            Box::new(type_model(*r)),
        ),
    }
}

pub open spec fn opt_type_model(t: Option<Type>) -> Option<SpecType> {
    match t {
        Some(t) => Some(type_model(t)),
        None => None,
    }
}

pub open spec fn term_model(t: Term) -> SpecTerm
    decreases t,
{
    match t {
        Term::Abstraction(p, ty, b, i) => SpecTerm::Abstraction(
            p@,
            opt_type_model(ty),
            Box::new(term_model(*b)),
            i,
        ),
        Term::Application(f, a, i) => SpecTerm::Application(
            Box::new(term_model(*f)),
            Box::new(term_model(*a)),
            i,
        ),
        Term::Variable(n, ty, i) => SpecTerm::Variable(n@, opt_type_model(ty), i),
    }
}

impl View for Type {
    type V = SpecType;

    open spec fn view(&self) -> SpecType {
        type_model(*self)
    }
}

impl View for Term {
    type V = SpecTerm;

    open spec fn view(&self) -> SpecTerm {
        term_model(*self)
    }
}

impl View for Expr {
    type V = SpecExpr;

    open spec fn view(&self) -> SpecExpr {
        match *self {
            Expr::Assignment(n, ty, b) => SpecExpr::Assignment(n@, opt_type_model(ty), b@),
            Expr::TypeDef(n, ty) => SpecExpr::TypeDef(n@, ty@),
            Expr::Term(t) => SpecExpr::Term(t@),
        }
    }
}

/// Whether the statement is a type definition.
pub open spec fn is_type_def(e: Expr) -> bool {
    e is TypeDef
}

/// The statements of `prog` that are not type definitions, in order.
pub open spec fn strip_type_defs(prog: Seq<Expr>) -> Seq<Expr> {
    prog.filter(|e: Expr| !is_type_def(e))
}

impl SpecTerm {
    /// Number of nodes of the term.
    pub open spec fn size(self) -> nat
        decreases self,
    {
        match self {
            SpecTerm::Abstraction(_, _, b, _) => 1 + b.size(),
            SpecTerm::Application(f, a, _) => 1 + f.size() + a.size(),
            SpecTerm::Variable(_, _, _) => 1,
        }
    }

    /// Source position of the term.
    pub open spec fn info(self) -> LineInfo {
        match self {
            SpecTerm::Abstraction(_, _, _, i) => i,
            SpecTerm::Application(_, _, i) => i,
            SpecTerm::Variable(_, _, i) => i,
        }
    }
}

impl Clone for Type {
    fn clone(&self) -> (r: Type)
        ensures
            r == *self,
        decreases self,
    {
        match self {
            Type::Any => Type::Any,
            Type::Variable(n) => Type::Variable(n.clone()),
            Type::Abstraction(p, r) => Type::Abstraction(
                Box::new((&**p).clone()),
                Box::new((&**r).clone()),
            ),
        }
    }
}

/// An exact copy of an optional type.
pub fn clone_opt_type(t: &Option<Type>) -> (r: Option<Type>)
    ensures
        r == *t,
{
    match t {
        Some(t) => Some(t.clone()),
        None => None,
    }
}

impl Clone for Term {
    fn clone(&self) -> (r: Term)
        ensures
            r == *self,
        decreases self,
    {
        match self {
            Term::Abstraction(p, ty, b, i) => Term::Abstraction(
                p.clone(),
                clone_opt_type(ty),
                Box::new((&**b).clone()),
                *i,
            ),
            Term::Application(f, a, i) => Term::Application(
                Box::new((&**f).clone()),
                Box::new((&**a).clone()),
                *i,
            ),
            Term::Variable(n, ty, i) => Term::Variable(n.clone(), clone_opt_type(ty), *i),
        }
    }
}

impl Clone for Expr {
    fn clone(&self) -> (r: Expr)
        ensures
            r == *self,
    {
        match self {
            Expr::Assignment(n, ty, b) => Expr::Assignment(n.clone(), clone_opt_type(ty), b.clone()),
            Expr::TypeDef(n, ty) => Expr::TypeDef(n.clone(), ty.clone()),
            Expr::Term(t) => Expr::Term(t.clone()),
        }
    }
}

/// Structural equality of types, names compared by their characters.
pub fn type_eq(a: &Type, b: &Type) -> (r: bool)
    ensures
        r == (a@ == b@),
    decreases a,
{
    match a {
        Type::Any => match b {
            Type::Any => true,
            _ => false,
        },
        Type::Variable(x) => match b {
            Type::Variable(y) => *x == *y,
            _ => false,
        },
        Type::Abstraction(pa, ra) => match b {
            Type::Abstraction(pb, rb) => type_eq(pa, pb) && type_eq(ra, rb),
            _ => false,
        },
    }
}

fn opt_type_eq(a: &Option<Type>, b: &Option<Type>) -> (r: bool)
    ensures
        r == (opt_type_model(*a) == opt_type_model(*b)),
{
    match (a, b) {
        (Some(x), Some(y)) => type_eq(x, y),
        (None, None) => true,
        _ => false,
    }
}

/// Structural equality of terms, positions included.
pub fn term_eq(a: &Term, b: &Term) -> (r: bool)
    ensures
        r == (a@ == b@),
    decreases a,
{
    match a {
        Term::Abstraction(pa, t1, b1, i1) => match b {
            Term::Abstraction(pb, t2, b2, i2) => {
                *pa == *pb && opt_type_eq(t1, t2) && term_eq(b1, b2) && *i1 == *i2
            },
            _ => false,
        },
        Term::Application(f1, a1, i1) => match b {
            Term::Application(f2, a2, i2) => term_eq(f1, f2) && term_eq(a1, a2) && *i1 == *i2,
            _ => false,
        },
        Term::Variable(n1, t1, i1) => match b {
            Term::Variable(n2, t2, i2) => *n1 == *n2 && opt_type_eq(t1, t2) && *i1 == *i2,
            _ => false,
        },
    }
}

impl PartialEq for Type {
    fn eq(&self, o: &Type) -> (r: bool) {
        type_eq(self, o)
    }
}

impl vstd::std_specs::cmp::PartialEqSpecImpl for Type {
    open spec fn obeys_eq_spec() -> bool {
        true
    }

    open spec fn eq_spec(&self, o: &Type) -> bool {
        self@ == o@
    }
}

impl PartialEq for Term {
    fn eq(&self, o: &Term) -> (r: bool) {
        term_eq(self, o)
    }
}

impl vstd::std_specs::cmp::PartialEqSpecImpl for Term {
    open spec fn obeys_eq_spec() -> bool {
        true
    }

    open spec fn eq_spec(&self, o: &Term) -> bool {
        self@ == o@
    }
}

/// Structural equality of statements.
pub fn expr_eq(a: &Expr, b: &Expr) -> (r: bool)
    ensures
        r == (a@ == b@),
{
    match a {
        Expr::Assignment(n1, t1, b1) => match b {
            Expr::Assignment(n2, t2, b2) => *n1 == *n2 && opt_type_eq(t1, t2) && term_eq(b1, b2),
            _ => false,
        },
        Expr::TypeDef(n1, t1) => match b {
            Expr::TypeDef(n2, t2) => *n1 == *n2 && type_eq(t1, t2),
            _ => false,
        },
        Expr::Term(t1) => match b {
            Expr::Term(t2) => term_eq(t1, t2),
            _ => false,
        },
    }
}

impl PartialEq for Expr {
    fn eq(&self, o: &Expr) -> (r: bool) {
        expr_eq(self, o)
    }
}

impl vstd::std_specs::cmp::PartialEqSpecImpl for Expr {
    open spec fn obeys_eq_spec() -> bool {
        true
    }

    open spec fn eq_spec(&self, o: &Expr) -> bool {
        self@ == o@
    }
}

impl Term {
    /// The line and column where this term starts.
    pub fn info(&self) -> (r: &LineInfo)
        ensures
            *r == self@.info(),
    {
        match self {
            Term::Abstraction(_, _, _, info) => info,
            Term::Application(_, _, info) => info,
            Term::Variable(_, _, info) => info,
        }
    }
}

} // verus!
