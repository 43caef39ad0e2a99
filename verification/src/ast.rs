use vstd::prelude::*;

use crate::error::Error;
use crate::error::ErrView;
use crate::error::err_view;

verus! {

broadcast use vstd::seq::axiom_seq_index_decreases, vstd::seq::axiom_seq_subrange_decreases;

/// The catalog of native operations. Every callable value names one of these.
#[derive(Clone, Copy, Debug, PartialEq, Eq, Structural)]
pub enum Builtin {
    Add,
    Sub,
    Mul,
    Div,
    Equal,
    Less,
    LessEq,
    Greater,
    GreaterEq,
    Not,
    And,
    Or,
    Print,
}

/// An interned name, used both as a literal value and, in head position,
/// as a reference into the environment.
#[derive(Clone, Debug, PartialEq, Eq, Hash)]
pub struct Symbol(pub String);

/// An immediate value. Floating-point atoms carry the IEEE 754 double
/// bit pattern of their value, so that the tree itself stays free of
/// machine floating point.
#[derive(Clone, Debug, PartialEq)]
pub enum Atom {
    Bool(bool),
    Int(i64),
    Flt(u64),
    Str(String),
    Sym(Symbol),
    Nil,
}

/// A callable value: an optional human-readable name and a native operation.
#[derive(Clone, Debug, PartialEq)]
pub struct Function {
    pub name: Option<String>,
    pub op: Builtin,
}

/// An expression tree.
#[derive(Debug, PartialEq)]
pub enum Expr {
    Func(Function),
    Atom(Atom),
    List(List),
    Vector(Vector),
    Quote(Quote),
}

/// An application form `(f a b ...)`.
#[derive(Debug, PartialEq)]
pub struct List(pub Vec<Expr>);

/// A literal aggregate `[a b ...]`; its elements are never evaluated.
#[derive(Debug, PartialEq)]
pub struct Vector(pub Vec<Expr>);

/// A wrapped subtree that evaluates to itself.
#[derive(Debug, PartialEq)]
pub struct Quote(pub Box<Expr>);

/// The mathematical model of an expression: text as character sequences,
/// aggregates as sequences of models.
pub ghost enum Ast {
    Bool(bool),
    Int(i64),
    Flt(u64),
    Str(Seq<char>),
    Sym(Seq<char>),
    Nil,
    Fun(Option<Seq<char>>, Builtin),
    Lst(Seq<Ast>),
    Vtr(Seq<Ast>),
    Qt(Box<Ast>),
}

impl View for Symbol {
    type V = Seq<char>;

    open spec fn view(&self) -> Seq<char> {
        self.0@
    }
}

pub open spec fn atom_view(a: Atom) -> Ast {
    match a {
        Atom::Bool(b) => Ast::Bool(b),
        Atom::Int(i) => Ast::Int(i),
        Atom::Flt(bits) => Ast::Flt(bits),
        Atom::Str(s) => Ast::Str(s@),
        Atom::Sym(s) => Ast::Sym(s@),
        Atom::Nil => Ast::Nil,
    }
}

pub open spec fn name_view(n: Option<String>) -> Option<Seq<char>> {
    match n {
        Some(s) => Some(s@),
        None => None,
    }
}

pub open spec fn expr_view(e: Expr) -> Ast
    decreases e,
{
    match e {
        Expr::Func(f) => Ast::Fun(name_view(f.name), f.op),
        Expr::Atom(a) => atom_view(a),
        Expr::List(l) => Ast::Lst(exprs_view(l.0@)),
        Expr::Vector(v) => Ast::Vtr(exprs_view(v.0@)),
        Expr::Quote(q) => Ast::Qt(Box::new(expr_view(*q.0))),
    }
}

pub open spec fn exprs_view(s: Seq<Expr>) -> Seq<Ast>
    decreases s,
{
    if s.len() == 0 {
        Seq::empty()
    } else {
        seq![expr_view(s[0])] + exprs_view(s.subrange(1, s.len() as int))
    }
}

pub broadcast proof fn lemma_exprs_view(s: Seq<Expr>)
    ensures
        (#[trigger] exprs_view(s)).len() == s.len(),
        forall|i: int| 0 <= i < s.len() ==> exprs_view(s)[i] == expr_view(s[i]),
    decreases s,
{
    if s.len() > 0 {
        lemma_exprs_view(s.subrange(1, s.len() as int));
    }
}

impl View for Expr {
    type V = Ast;

    open spec fn view(&self) -> Ast {
        expr_view(*self)
    }
}

/// The model of an evaluation or operation outcome.
pub open spec fn res_view(r: Result<Expr, Error>) -> Result<Ast, ErrView> {
    match r {
        Ok(e) => Ok(expr_view(e)),
        Err(e) => Err(err_view(e)),
    }
}

impl Symbol {
    pub fn duplicate(&self) -> (r: Symbol)
        ensures
            r == *self,
    {
        Symbol(self.0.clone())
    }
}

impl Atom {
    pub fn is_boolean(&self) -> (r: bool)
        ensures
            r == (atom_view(*self) is Bool),
    {
        matches!(self, Atom::Bool(_))
    }

    pub fn is_int(&self) -> (r: bool)
        ensures
            r == (atom_view(*self) is Int),
    {
        matches!(self, Atom::Int(_))
    }

    pub fn is_flt(&self) -> (r: bool)
        ensures
            r == (atom_view(*self) is Flt),
    {
        matches!(self, Atom::Flt(_))
    }

    pub fn is_str(&self) -> (r: bool)
        ensures
            r == (atom_view(*self) is Str),
    {
        matches!(self, Atom::Str(_))
    }

    /// True on the two numeric atom kinds.
    pub fn is_num(&self) -> (r: bool)
        ensures
            r == (atom_view(*self) is Int || atom_view(*self) is Flt),
    {
        matches!(self, Atom::Int(_) | Atom::Flt(_))
    }

    pub fn boolean(&self) -> (r: Option<bool>)
        ensures
            match r {
                Some(b) => atom_view(*self) == Ast::Bool(b),
                None => !(atom_view(*self) is Bool),
            },
    {
        if let Atom::Bool(x) = self {
            Some(*x)
        } else {
            None
        }
    }

    pub fn int_val(&self) -> (r: Option<i64>)
        ensures
            match r {
                Some(i) => atom_view(*self) == Ast::Int(i),
                None => !(atom_view(*self) is Int),
            },
    {
        if let Atom::Int(x) = self {
            Some(*x)
        } else {
            None
        }
    }

    /// The IEEE 754 double bit pattern of a floating-point atom.
    pub fn flt(&self) -> (r: Option<u64>)
        ensures
            match r {
                Some(bits) => atom_view(*self) == Ast::Flt(bits),
                None => !(atom_view(*self) is Flt),
            },
    {
        if let Atom::Flt(x) = self {
            Some(*x)
        } else {
            None
        }
    }

    pub fn str(&self) -> (r: Option<&str>)
        ensures
            match r {
                Some(s) => atom_view(*self) == Ast::Str(s@),
                None => !(atom_view(*self) is Str),
            },
    {
        if let Atom::Str(x) = self {
            Some(x.as_str())
        } else {
            None
        }
    }

    pub fn duplicate(&self) -> (r: Atom)
        ensures
            r == *self,
    {
        match self {
            Atom::Bool(b) => Atom::Bool(*b),
            Atom::Int(i) => Atom::Int(*i),
            Atom::Flt(bits) => Atom::Flt(*bits),
            Atom::Str(s) => Atom::Str(s.clone()),
            Atom::Sym(s) => Atom::Sym(s.duplicate()),
            Atom::Nil => Atom::Nil,
        }
    }
}

impl Function {
    pub fn new(name: Option<String>, op: Builtin) -> (r: Function)
        ensures
            r.name == name,
            r.op == op,
    {
        Function { name, op }
    }

    pub fn duplicate(&self) -> (r: Function)
        ensures
            r == *self,
    {
        let name: Option<String> = match &self.name {
            Some(s) => Some(s.clone()),
            None => None,
        };
        Function { name, op: self.op }
    }
}

impl View for Function {
    type V = Option<Seq<char>>;

    open spec fn view(&self) -> Option<Seq<char>> {
        name_view(self.name)
    }
}

impl Expr {
    pub fn atom(&self) -> (r: Option<&Atom>)
        ensures
            match r {
                Some(a) => *self == Expr::Atom(*a),
                None => !(self@ is Bool || self@ is Int || self@ is Flt || self@ is Str
                    || self@ is Sym || self@ is Nil),
            },
    {
        if let Expr::Atom(x) = self {
            Some(x)
        } else {
            None
        }
    }

    pub fn list(&self) -> (r: Option<&List>)
        ensures
            match r {
                Some(l) => *self == Expr::List(*l),
                None => !(self@ is Lst),
            },
    {
        if let Expr::List(x) = self {
            Some(x)
        } else {
            None
        }
    }

    pub fn quote(&self) -> (r: Option<&Quote>)
        ensures
            match r {
                Some(q) => *self == Expr::Quote(*q),
                None => !(self@ is Qt),
            },
    {
        if let Expr::Quote(x) = self {
            Some(x)
        } else {
            None
        }
    }

    pub fn vector(&self) -> (r: Option<&Vector>)
        ensures
            match r {
                Some(v) => *self == Expr::Vector(*v),
                None => !(self@ is Vtr),
            },
    {
        if let Expr::Vector(x) = self {
            Some(x)
        } else {
            None
        }
    }

    pub fn func(&self) -> (r: Option<&Function>)
        ensures
            match r {
                Some(f) => *self == Expr::Func(*f),
                None => !(self@ is Fun),
            },
    {
        if let Expr::Func(x) = self {
            Some(x)
        } else {
            None
        }
    }

    /// A deep copy; its model is the model of the copied tree.
    pub fn duplicate(&self) -> (r: Expr)
        ensures
            r@ == self@,
        decreases *self,
    {
        match self {
            Expr::Func(f) => Expr::Func(f.duplicate()),
            Expr::Atom(a) => Expr::Atom(a.duplicate()),
            Expr::List(l) => {
                let v = &l.0;
                let mut kids: Vec<Expr> = Vec::new();
                let mut i: usize = 0;
                while i < v.len()
                    invariant
                        self is List,
                        *v == (*self)->List_0.0,
                        i <= v@.len(),
                        kids@.len() == i,
                        forall|j: int| 0 <= j < i ==> #[trigger] expr_view(kids@[j]) == expr_view(v@[j]),
                    decreases v@.len() - i,
                {
                    proof {
                        assert(decreases_to!(*self => v@[i as int]));
                    }
                    let d = v[i].duplicate();
                    kids.push(d);
                    i = i + 1;
                }
                proof {
                    lemma_exprs_view(l.0@);
                    lemma_exprs_view(kids@);
                    assert(exprs_view(kids@) =~= exprs_view(l.0@));
                }
                Expr::List(List(kids))
            },
            Expr::Vector(w) => {
                let v = &w.0;
                let mut kids: Vec<Expr> = Vec::new();
                let mut i: usize = 0;
                while i < v.len()
                    invariant
                        self is Vector,
                        *v == (*self)->Vector_0.0,
                        i <= v@.len(),
                        kids@.len() == i,
                        forall|j: int| 0 <= j < i ==> #[trigger] expr_view(kids@[j]) == expr_view(v@[j]),
                    decreases v@.len() - i,
                {
                    proof {
                        assert(decreases_to!(*self => v@[i as int]));
                    }
                    let d = v[i].duplicate();
                    kids.push(d);
                    i = i + 1;
                }
                proof {
                    lemma_exprs_view(w.0@);
                    lemma_exprs_view(kids@);
                    assert(exprs_view(kids@) =~= exprs_view(w.0@));
                }
                Expr::Vector(Vector(kids))
            },
            Expr::Quote(q) => Expr::Quote(Quote(Box::new(q.0.duplicate()))),
        }
    }
}

} // verus!
