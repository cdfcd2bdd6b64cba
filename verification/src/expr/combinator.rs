//! Fluent builders for terms.

use vstd::prelude::*;

use crate::expr::{Bin, Expr, Trig};
use crate::num::{dec_half, dec_neg_one, dec_one, Real};

verus! {

/// `a + b` as a term.
pub open spec fn s_add(a: Expr, b: Expr) -> Expr {
    Expr::Bin(Bin::Add, Box::new(a), Box::new(b))
}

/// `a - b` as a term.
pub open spec fn s_sub(a: Expr, b: Expr) -> Expr {
    Expr::Bin(Bin::Sub, Box::new(a), Box::new(b))
}

/// `a / b` as a term.
pub open spec fn s_div(a: Expr, b: Expr) -> Expr {
    Expr::Bin(Bin::Div, Box::new(a), Box::new(b))
}

/// `a * b` as a term.
pub open spec fn s_mul(a: Expr, b: Expr) -> Expr {
    Expr::Bin(Bin::Mul, Box::new(a), Box::new(b))
}

/// `a ^ b` as a term.
pub open spec fn s_exp(a: Expr, b: Expr) -> Expr {
    Expr::Bin(Bin::Exp, Box::new(a), Box::new(b))
}

/// The logarithm of `arg` in base `base`, as a term.
pub open spec fn s_log(base: Expr, arg: Expr) -> Expr {
    Expr::Bin(Bin::Log, Box::new(base), Box::new(arg))
}

/// The natural logarithm of `a`, as a term.
pub open spec fn s_ln(a: Expr) -> Expr {
    s_log(Expr::Num(Real::E), a)
}

/// A trigonometric function applied to `a`, as a term.
pub open spec fn s_trig(func: Trig, a: Expr) -> Expr {
    Expr::Trig(func, Box::new(a))
}

/// `-a`, written as the product of `a` and minus one.
pub open spec fn s_neg(a: Expr) -> Expr {
    s_mul(a, Expr::Num(Real::Dec(dec_neg_one())))
}

impl Expr {
    /// Add another term to this one.
    pub fn add(self, f: Expr) -> (r: Expr)
        ensures
            r == s_add(self, f),
    {
        Expr::Bin(Bin::Add, Box::new(self), Box::new(f))
    }

    /// Subtract another term from this one.
    pub fn sub(self, f: Expr) -> (r: Expr)
        ensures
            r == s_sub(self, f),
    {
        Expr::Bin(Bin::Sub, Box::new(self), Box::new(f))
    }

    /// Divide this term by another.
    pub fn div(self, f: Expr) -> (r: Expr)
        ensures
            r == s_div(self, f),
    {
        Expr::Bin(Bin::Div, Box::new(self), Box::new(f))
    }

    /// Multiply this term by another.
    pub fn mul(self, f: Expr) -> (r: Expr)
        ensures
            r == s_mul(self, f),
    {
        Expr::Bin(Bin::Mul, Box::new(self), Box::new(f))
    }

    /// Raise this term to a power: `self ^ f`.
    pub fn exp(self, f: Expr) -> (r: Expr)
        ensures
            r == s_exp(self, f),
    {
        Expr::Bin(Bin::Exp, Box::new(self), Box::new(f))
    }

    /// The `f`-th root of this term, written as the power `self ^ (1 / f)`.
    pub fn root(self, f: Expr) -> (r: Expr)
        ensures
            r == s_exp(self, s_div(Expr::Num(Real::Dec(dec_one())), f)),
    {
        let one = Expr::Num(Real::Dec(crate::num::Dec::one()));
        Expr::Bin(Bin::Exp, Box::new(self), Box::new(one.div(f)))
    }

    /// The square root of this term, written as the power `self ^ 0.5`.
    pub fn sprt(self) -> (r: Expr)
        ensures
            r == s_exp(self, Expr::Num(Real::Dec(dec_half()))),
    {
        let half = Expr::Num(Real::Dec(crate::num::Dec::half()));
        Expr::Bin(Bin::Exp, Box::new(self), Box::new(half))
    }

    /// The logarithm of this term in base `f`: `log_f self`.
    pub fn log(self, f: Expr) -> (r: Expr)
        ensures
            r == s_log(f, self),
    {
        Expr::Bin(Bin::Log, Box::new(f), Box::new(self))
    }

    /// The natural logarithm of this term.
    pub fn ln(self) -> (r: Expr)
        ensures
            r == s_ln(self),
    {
        Expr::Bin(Bin::Log, Box::new(Expr::Num(Real::E)), Box::new(self))
    }

    /// A trigonometric function applied to this term.
    pub fn trig(self, func: Trig) -> (r: Expr)
        ensures
            r == s_trig(func, self),
    {
        Expr::Trig(func, Box::new(self))
    }

    /// This term negated: multiplied by minus one.
    pub fn neg(self) -> (r: Expr)
        ensures
            r == s_neg(self),
    {
        let m = Expr::Num(Real::Dec(crate::num::Dec::neg_one()));
        self.mul(m)
    }
}

} // verus!
