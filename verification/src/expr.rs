//! The expression tree and its mathematical model.

use vstd::prelude::*;

verus! {

/// The five infix operators of the tree.
#[derive(Clone, Copy, Debug, PartialEq, Eq, Structural)]
pub enum Operator {
    Add,
    Sub,
    Mul,
    Div,
    Pow,
}

/// An arithmetic expression.
///
/// A `Number` holds the bit pattern of a binary64 value. Every node owns its
/// children, so a tree is finite and has no sharing.
#[derive(Debug)]
pub enum Expr {
    Number(u64),
    Variable(String),
    Add(Box<Expr>, Box<Expr>),
    Sub(Box<Expr>, Box<Expr>),
    Mul(Box<Expr>, Box<Expr>),
    Div(Box<Expr>, Box<Expr>),
    Pow(Box<Expr>, Box<Expr>),
    Func(String, Vec<Expr>),
}

/// The model of an expression: names are character sequences, the arguments
/// of a call are a sequence, and the infix variants share one shape.
pub ghost enum Term {
    Number(u64),
    Variable(Seq<char>),
    Binary(Operator, Box<Term>, Box<Term>),
    Call(Seq<char>, Seq<Term>),
}

/// The model of the children of a call, in order.
pub open spec fn terms_of(args: Seq<Expr>) -> Seq<Term>
    decreases args,
{
    Seq::new(
        args.len(),
        |i: int|
            if 0 <= i < args.len() {
                term_of(args[i])
            } else {
                Term::Number(0)
            },
    )
}

/// The model of an expression.
pub open spec fn term_of(e: Expr) -> Term
    decreases e,
{
    match e {
        Expr::Number(bits) => Term::Number(bits),
        Expr::Variable(name) => Term::Variable(name@),
        Expr::Add(l, r) => Term::Binary(Operator::Add, Box::new(term_of(*l)), Box::new(term_of(*r))),
        Expr::Sub(l, r) => Term::Binary(Operator::Sub, Box::new(term_of(*l)), Box::new(term_of(*r))),
        Expr::Mul(l, r) => Term::Binary(Operator::Mul, Box::new(term_of(*l)), Box::new(term_of(*r))),
        Expr::Div(l, r) => Term::Binary(Operator::Div, Box::new(term_of(*l)), Box::new(term_of(*r))),
        Expr::Pow(l, r) => Term::Binary(Operator::Pow, Box::new(term_of(*l)), Box::new(term_of(*r))),
        Expr::Func(name, args) => Term::Call(name@, terms_of(args@)),
    }
}

impl View for Expr {
    type V = Term;

    open spec fn view(&self) -> Term {
        term_of(*self)
    }
}

impl Clone for Expr {
    /// A copy of the whole tree, children included.
    fn clone(&self) -> (copy: Self)
        ensures
            copy@ == self@,
        decreases self,
    {
        match self {
            Expr::Number(bits) => Expr::Number(*bits),
            Expr::Variable(name) => Expr::Variable(name.clone()),
            Expr::Add(l, r) => Expr::Add(Box::new((**l).clone()), Box::new((**r).clone())),
            Expr::Sub(l, r) => Expr::Sub(Box::new((**l).clone()), Box::new((**r).clone())),
            Expr::Mul(l, r) => Expr::Mul(Box::new((**l).clone()), Box::new((**r).clone())),
            Expr::Div(l, r) => Expr::Div(Box::new((**l).clone()), Box::new((**r).clone())),
            Expr::Pow(l, r) => Expr::Pow(Box::new((**l).clone()), Box::new((**r).clone())),
            Expr::Func(name, args) => {
                let mut copies: Vec<Expr> = Vec::new();
                let mut i: usize = 0;
                while i < args.len()
                    invariant
                        i <= args.len(),
                        self is Func,
                        self->Func_1 == *args,
                        copies@.len() == i,
                        forall|j: int| 0 <= j < i ==> (#[trigger] copies@[j])@ == args@[j]@,
                    decreases args.len() - i,
                {
                    proof {
                        assert(decreases_to!(*self => self->Func_1));
                        assert(decreases_to!(*args => args[i as int]));
                    }
                    copies.push(args[i].clone());
                    i += 1;
                }
                assert(terms_of(copies@) =~= terms_of(args@));
                Expr::Func(name.clone(), copies)
            },
        }
    }
}

} // verus!
