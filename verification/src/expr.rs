//! Expression terms.
//!
//! A term is an immutable tree: the free variable `x`, a numeric constant, a
//! binary operation on two sub-terms, or a trigonometric function applied to
//! one sub-term.

use vstd::prelude::*;

use crate::num::Real;

pub mod combinator;
pub mod derive;
pub mod display;

verus! {

/// The six binary operators.
#[derive(Clone, Copy, Debug, PartialEq, Eq, Structural)]
pub enum Bin {
    Add,
    Sub,
    Div,
    Mul,
    /// The power operator: the first operand is the base, the second the
    /// exponent.
    Exp,
    /// The logarithm: the first operand is the base, the second the argument.
    Log,
}

/// The six trigonometric functions.
#[derive(Clone, Copy, Debug, PartialEq, Eq, Structural)]
pub enum Trig {
    Sin,
    Cos,
    Tan,
    Csc,
    Sec,
    Cot,
}

impl Bin {
    /// Binding strength, as a specification value: additive operators bind
    /// loosest, then the multiplicative ones, then powers and logarithms.
    pub open spec fn prec(self) -> int {
        match self {
            Bin::Add | Bin::Sub => 1,
            Bin::Div | Bin::Mul => 2,
            Bin::Exp | Bin::Log => 3,
        }
    }

    /// Binding strength of the operator.
    pub fn precedence(&self) -> (r: usize)
        ensures
            r == self.prec(),
    {
        match self {
            Bin::Add | Bin::Sub => 1,
            Bin::Div | Bin::Mul => 2,
            Bin::Exp | Bin::Log => 3,
        }
    }
}

/// An expression term.
#[derive(Debug)]
pub enum Expr {
    Bin(Bin, Box<Expr>, Box<Expr>),
    Trig(Trig, Box<Expr>),
    Var,
    Num(Real),
}

impl Expr {
    /// Every numeric constant in the term is in canonical form.
    pub open spec fn wf(self) -> bool
        decreases self,
    {
        match self {
            Expr::Bin(_, a, b) => a.wf() && b.wf(),
            Expr::Trig(_, a) => a.wf(),
            Expr::Var => true,
            Expr::Num(n) => n.wf(),
        }
    }

    /// Binding strength, as a specification value: atoms bind tightest, a
    /// trigonometric application binds like a power.
    pub open spec fn prec(self) -> int {
        match self {
            Expr::Bin(t, _, _) => t.prec(),
            Expr::Trig(_, _) => 3,
            Expr::Var | Expr::Num(_) => 100,
        }
    }

    /// Whether the term is an atom: a number or the variable.
    pub fn is_unit(&self) -> (r: bool)
        ensures
            r == (self is Num || self is Var),
    {
        self.is_num() || self.is_var()
    }

    /// Whether the term is a numeric constant.
    pub fn is_num(&self) -> (r: bool)
        ensures
            r == (self is Num),
    {
        matches!(self, Expr::Num(_))
    }

    /// Whether the term is the free variable.
    pub fn is_var(&self) -> (r: bool)
        ensures
            r == (self is Var),
    {
        matches!(self, Expr::Var)
    }

    /// Binding strength of the term.
    pub fn precedence(&self) -> (r: usize)
        ensures
            r == self.prec(),
    {
        match self {
            Expr::Bin(t, _, _) => t.precedence(),
            Expr::Trig(_, _) => 3,
            Expr::Var | Expr::Num(_) => 100,
        }
    }
}

impl Clone for Expr {
    /// An exact copy of the whole tree.
    fn clone(&self) -> (r: Expr)
        ensures
            r == *self,
        decreases *self,
    {
        match self {
            Expr::Bin(t, a, b) => Expr::Bin(*t, Box::new((**a).clone()), Box::new((**b).clone())),
            Expr::Trig(t, a) => Expr::Trig(*t, Box::new((**a).clone())),
            Expr::Var => Expr::Var,
            Expr::Num(n) => Expr::Num(n.clone()),
        }
    }
}

impl PartialEq for Expr {
    /// Structural equality: same shape, same operators, same constants.
    fn eq(&self, other: &Self) -> (r: bool)
        decreases *self,
    {
        match (self, other) {
            (Expr::Bin(t1, a1, b1), Expr::Bin(t2, a2, b2)) => *t1 == *t2 && (&**a1).eq(&**a2)
                && (&**b1).eq(&**b2),
            (Expr::Trig(t1, a1), Expr::Trig(t2, a2)) => *t1 == *t2 && (&**a1).eq(&**a2),
            (Expr::Var, Expr::Var) => true,
            (Expr::Num(m), Expr::Num(n)) => m.eq(n),
            _ => false,
        }
    }
}

impl vstd::std_specs::cmp::PartialEqSpecImpl for Expr {
    open spec fn obeys_eq_spec() -> bool {
        true
    }

    open spec fn eq_spec(&self, other: &Self) -> bool {
        *self == *other
    }
}

} // verus!
