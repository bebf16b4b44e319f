//! Expressions and their models.

use vstd::prelude::*;

verus! {

/// The built-in operators, fixed by the grammar.
#[derive(Debug, Clone, Copy, PartialEq, Eq, Structural)]
pub enum Ops {
    Sub,
    Mul,
    Div,
    Add,
    Rem,
    Defun,
    Nth,
    List,
    Eval,
    Car,
    Mapcar,
}

#[derive(Debug, Clone, Copy, PartialEq, Eq, Structural)]
pub enum Bool {
    True,
    Nil,
}

/// A number: a 64-bit signed integer, or a binary64 float held as its
/// IEEE-754 bit pattern.
#[derive(Debug, Clone, Copy, PartialEq, Eq, Structural)]
pub enum Num {
    Double(u64),
    Int(i64),
}

#[derive(Debug, PartialEq)]
pub enum Atom {
    Name(String),
    Quoted(String),
    Op(Ops),
    Number(Num),
    Boolean(Bool),
}

#[derive(Debug, PartialEq)]
pub enum Expr {
    Atomic(Atom),
    Qexpr(Vec<Expr>),
    List(Vec<Expr>),
}

/// The model of a number. The value of a float is left to the host that
/// does binary64 arithmetic, so the model keeps only that it is a float.
pub enum NumV {
    Int(i64),
    Float,
}

pub enum AtomV {
    Name(Seq<char>),
    Quoted(Seq<char>),
    Op(Ops),
    Number(NumV),
    Boolean(Bool),
}

pub enum ExprV {
    Atomic(AtomV),
    Qexpr(Seq<ExprV>),
    List(Seq<ExprV>),
}

impl View for Num {
    type V = NumV;

    open spec fn view(&self) -> NumV {
        match self {
            Num::Double(_) => NumV::Float,
            Num::Int(i) => NumV::Int(*i),
        }
    }
}

impl View for Atom {
    type V = AtomV;

    open spec fn view(&self) -> AtomV {
        match self {
            Atom::Name(s) => AtomV::Name(s@),
            Atom::Quoted(s) => AtomV::Quoted(s@),
            Atom::Op(o) => AtomV::Op(*o),
            Atom::Number(n) => AtomV::Number(n@),
            Atom::Boolean(b) => AtomV::Boolean(*b),
        }
    }
}

/// The models of a vector of expressions, element by element.
pub open spec fn views(v: &Vec<Expr>) -> Seq<ExprV>
    decreases v, 0int,
{
    Seq::new(v.len() as nat, |i: int| if 0 <= i < v.len() { v[i]@ } else { ExprV::List(seq![]) })
}

impl View for Expr {
    type V = ExprV;

    open spec fn view(&self) -> ExprV
        decreases self, 1int,
    {
        match self {
            Expr::Atomic(a) => ExprV::Atomic(a@),
            Expr::Qexpr(v) => ExprV::Qexpr(views(v)),
            Expr::List(v) => ExprV::List(views(v)),
        }
    }
}

impl Atom {
    pub fn duplicate(&self) -> (r: Atom)
        ensures
            r@ == self@,
    {
        match self {
            Atom::Name(s) => Atom::Name(s.clone()),
            Atom::Quoted(s) => Atom::Quoted(s.clone()),
            Atom::Op(o) => Atom::Op(*o),
            Atom::Number(n) => Atom::Number(*n),
            Atom::Boolean(b) => Atom::Boolean(*b),
        }
    }
}

impl Clone for Atom {
    fn clone(&self) -> (r: Atom)
        ensures
            r@ == self@,
    {
        self.duplicate()
    }
}

impl Clone for Expr {
    fn clone(&self) -> (r: Expr)
        ensures
            r@ == self@,
    {
        self.duplicate()
    }
}

impl Expr {
    pub fn duplicate(&self) -> (r: Expr)
        ensures
            r@ == self@,
        decreases self,
    {
        match self {
            Expr::Atomic(a) => Expr::Atomic(a.duplicate()),
            Expr::Qexpr(v) => Expr::Qexpr(duplicate_all(v)),
            Expr::List(v) => Expr::List(duplicate_all(v)),
        }
    }
}

pub fn duplicate_all(v: &Vec<Expr>) -> (r: Vec<Expr>)
    ensures
        views(&r) == views(v),
    decreases v,
{
    let mut r: Vec<Expr> = Vec::new();
    let mut i: usize = 0;
    while i < v.len()
        invariant
            i <= v@.len(),
            r@.len() == i,
            forall|j: int| 0 <= j < i ==> #[trigger] r@[j]@ == v@[j]@,
        decreases v@.len() - i,
    {
        r.push(v[i].duplicate());
        i = i + 1;
    }
    assert forall|j: int| 0 <= j < v.len() implies views(&r)[j] == views(v)[j] by {
        assert(r@[j]@ == v@[j]@);
        assert(views(&r)[j] == r[j]@);
    }
    assert(views(&r) =~= views(v));
    r
}

} // verus!

verus! {

/// The models of a sequence of expressions.
pub open spec fn seq_views(s: Seq<Expr>) -> Seq<ExprV> {
    s.map_values(|e: Expr| e@)
}

pub proof fn lemma_views(v: &Vec<Expr>)
    ensures
        views(v) == seq_views(v@),
        views(v).len() == v@.len(),
        forall|i: int| 0 <= i < v@.len() ==> #[trigger] views(v)[i] == v@[i]@,
{
    assert(views(v) =~= seq_views(v@));
}

} // verus!
