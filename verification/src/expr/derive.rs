//! Symbolic differentiation with respect to the free variable.
//!
//! `derive_of` states the rewrite rules; `Expr::derive` computes exactly that
//! term. The rules are tried in a fixed priority order: a constant factor is
//! extracted before the general product rule, and the atom-shaped cases of
//! powers and logarithms come before the fully general ones. The output is
//! deliberately raw: nothing is simplified afterwards.

use vstd::prelude::*;

use crate::expr::combinator::{s_add, s_div, s_exp, s_ln, s_log, s_mul, s_neg, s_sub, s_trig};
use crate::expr::{Bin, Expr, Trig};
use crate::num::{dec_one, dec_two, dec_zero, lemma_sub_one, sub_one_of, Dec, Real};

verus! {

/// The term for a plain decimal constant.
pub open spec fn s_dec(d: Dec) -> Expr {
    Expr::Num(Real::Dec(d))
}

/// The term for the constant one.
pub open spec fn s_one() -> Expr {
    s_dec(dec_one())
}

/// The term for the constant two.
pub open spec fn s_two() -> Expr {
    s_dec(dec_two())
}

/// The derivative of a power whose exponent is a numeric constant.
///
/// For the exponent `n` the factor in front is `n` itself and the new
/// exponent is `n - 1`; for a decimal that difference is computed exactly,
/// while for the constant `e` it is left as the symbolic term `e - 1`.
/// A new exponent of zero or one is folded away, as the power rule is
/// usually written.
pub open spec fn derive_pow_num(f: Expr, n: Real) -> Expr
    decreases f, 1int,
{
    let lowered = match n {
        Real::Dec(d) => s_dec(sub_one_of(d)),
        Real::E => s_sub(Expr::Num(Real::E), s_one()),
    };
    if n is Dec && sub_one_of(n->Dec_0) == dec_zero() {
        match f {
            Expr::Var => Expr::Num(n),
            _ => s_mul(Expr::Num(n), derive_of(f)),
        }
    } else if n is Dec && sub_one_of(n->Dec_0) == dec_one() {
        match f {
            Expr::Var => s_mul(Expr::Num(n), Expr::Var),
            _ => s_mul(s_mul(Expr::Num(n), f), derive_of(f)),
        }
    } else {
        match f {
            Expr::Var => s_mul(Expr::Num(n), s_exp(Expr::Var, lowered)),
            _ => s_mul(s_mul(Expr::Num(n), s_exp(f, lowered)), derive_of(f)),
        }
    }
}

/// The derivative rules, one for every shape of term.
pub open spec fn derive_of(e: Expr) -> Expr
    decreases e, 0int,
{
    match e {
        Expr::Bin(op, f, g) => match op {
            Bin::Mul => if *f is Num {
                s_mul(*f, derive_of(*g))
            } else if *g is Num {
                s_mul(*g, derive_of(*f))
            } else {
                s_add(s_mul(derive_of(*f), *g), s_mul(derive_of(*g), *f))
            },
            Bin::Add => s_add(derive_of(*f), derive_of(*g)),
            Bin::Sub => s_sub(derive_of(*f), derive_of(*g)),
            Bin::Div => s_div(
                s_sub(s_mul(derive_of(*f), *g), s_mul(derive_of(*g), *f)),
                s_exp(*g, s_two()),
            ),
            Bin::Exp => match (*f, *g) {
                (f2, Expr::Num(n)) => derive_pow_num(f2, n),
                (Expr::Num(Real::E), Expr::Var) => s_exp(Expr::Num(Real::E), Expr::Var),
                (Expr::Num(Real::E), g2) => s_mul(s_exp(Expr::Num(Real::E), g2), derive_of(g2)),
                (Expr::Num(a), Expr::Var) => s_mul(
                    s_exp(Expr::Num(a), Expr::Var),
                    s_ln(Expr::Num(a)),
                ),
                (Expr::Num(a), g2) => s_mul(
                    s_mul(s_exp(Expr::Num(a), g2), s_ln(Expr::Num(a))),
                    derive_of(g2),
                ),
                (f2, g2) => s_mul(
                    s_exp(f2, g2),
                    s_add(
                        s_mul(derive_of(g2), s_ln(f2)),
                        s_div(s_mul(derive_of(f2), g2), f2),
                    ),
                ),
            },
            Bin::Log => match (*f, *g) {
                (Expr::Num(Real::E), Expr::Var) => s_div(s_one(), Expr::Var),
                (Expr::Num(Real::E), g2) => s_div(derive_of(g2), g2),
                (Expr::Num(a), Expr::Var) => s_div(s_one(), s_mul(Expr::Var, s_ln(Expr::Num(a)))),
                (Expr::Num(a), g2) => s_div(derive_of(g2), s_mul(g2, s_ln(Expr::Num(a)))),
                (Expr::Var, Expr::Num(a)) => s_div(
                    s_ln(Expr::Num(a)),
                    s_mul(Expr::Var, s_exp(s_ln(Expr::Var), s_two())),
                ),
                (f2, Expr::Num(a)) => s_mul(
                    s_div(s_ln(Expr::Num(a)), s_mul(f2, s_exp(s_ln(f2), s_two()))),
                    derive_of(f2),
                ),
                (f2, g2) => s_div(
                    s_sub(
                        s_div(s_mul(derive_of(g2), s_ln(f2)), g2),
                        s_div(s_mul(derive_of(f2), s_ln(g2)), f2),
                    ),
                    s_exp(s_ln(f2), s_two()),
                ),
            },
        },
        Expr::Trig(func, f) => s_mul(
            match func {
                Trig::Sin => s_trig(Trig::Cos, *f),
                Trig::Tan => s_exp(s_trig(Trig::Sec, *f), s_two()),
                Trig::Sec => s_mul(s_trig(Trig::Sec, *f), s_trig(Trig::Tan, *f)),
                Trig::Cos => s_neg(s_trig(Trig::Sin, *f)),
                Trig::Cot => s_neg(s_exp(s_trig(Trig::Csc, *f), s_two())),
                Trig::Csc => s_neg(s_mul(s_trig(Trig::Csc, *f), s_trig(Trig::Cot, *f))),
            },
            derive_of(*f),
        ),
        Expr::Var => s_one(),
        Expr::Num(_) => s_dec(dec_zero()),
    }
}

impl Expr {
    /// The symbolic derivative of this term with respect to `x`.
    pub fn derive(self) -> (r: Expr)
        requires
            self.wf(),
        ensures
            r == derive_of(self),
            r.wf(),
        decreases self, 0int,
    {
        proof {
            reveal_with_fuel(Expr::wf, 3);
            lemma_derive_wf(self);
        }
        match self {
            Expr::Bin(op, f, g) => match op {
                Bin::Mul => {
                    if f.is_num() {
                        f.mul(g.derive())
                    } else if g.is_num() {
                        g.mul(f.derive())
                    } else {
                        let fc = (*f).clone();
                        let gc = (*g).clone();
                        f.derive().mul(gc).add(g.derive().mul(fc))
                    }
                },
                Bin::Add => f.derive().add(g.derive()),
                Bin::Sub => f.derive().sub(g.derive()),
                Bin::Div => {
                    let fc = (*f).clone();
                    let gc1 = (*g).clone();
                    let gc2 = (*g).clone();
                    let two = Expr::Num(Real::Dec(Dec::two()));
                    fc.derive().mul(gc1).sub(gc2.derive().mul(*f)).div(g.exp(two))
                },
                Bin::Exp => match (*f, *g) {
                    (f2, Expr::Num(n)) => {
                        proof {
                            assert(f2.wf());
                            assert(n.wf());
                        }
                        Expr::derive_pow(f2, n)
                    },
                    (Expr::Num(Real::E), Expr::Var) => Expr::Num(Real::E).exp(Expr::Var),
                    (Expr::Num(Real::E), g2) => {
                        let gc = g2.clone();
                        Expr::Num(Real::E).exp(gc).mul(g2.derive())
                    },
                    (Expr::Num(a), Expr::Var) => {
                        let ac = a.clone();
                        Expr::Num(a).exp(Expr::Var).mul(Expr::Num(ac).ln())
                    },
                    (Expr::Num(a), g2) => {
                        let ac = a.clone();
                        let gc = g2.clone();
                        Expr::Num(a).exp(gc).mul(Expr::Num(ac).ln()).mul(g2.derive())
                    },
                    (f2, g2) => {
                        let fc1 = f2.clone();
                        let fc2 = f2.clone();
                        let fc3 = f2.clone();
                        let gc1 = g2.clone();
                        let gc2 = g2.clone();
                        fc1.exp(gc1).mul(gc2.derive().mul(fc2.ln()).add(fc3.derive().mul(g2).div(
                            f2,
                        )))
                    },
                },
                Bin::Log => match (*f, *g) {
                    (Expr::Num(Real::E), Expr::Var) => Expr::Num(Real::Dec(Dec::one())).div(
                        Expr::Var,
                    ),
                    (Expr::Num(Real::E), g2) => {
                        let gc = g2.clone();
                        gc.derive().div(g2)
                    },
                    (Expr::Num(a), Expr::Var) => Expr::Num(Real::Dec(Dec::one())).div(
                        Expr::Var.mul(Expr::Num(a).ln()),
                    ),
                    (Expr::Num(a), g2) => {
                        let gc = g2.clone();
                        gc.derive().div(g2.mul(Expr::Num(a).ln()))
                    },
                    (Expr::Var, Expr::Num(a)) => Expr::Num(a).ln().div(
                        Expr::Var.mul(Expr::Var.ln().exp(Expr::Num(Real::Dec(Dec::two())))),
                    ),
                    (f2, Expr::Num(a)) => {
                        let fc1 = f2.clone();
                        let fc2 = f2.clone();
                        Expr::Num(a).ln().div(fc1.mul(fc2.ln().exp(Expr::Num(Real::Dec(
                            Dec::two(),
                        ))))).mul(f2.derive())
                    },
                    (f2, g2) => {
                        let fc1 = f2.clone();
                        let fc2 = f2.clone();
                        let fc3 = f2.clone();
                        let gc1 = g2.clone();
                        let gc2 = g2.clone();
                        gc1.derive().mul(fc1.ln()).div(gc2).sub(fc2.derive().mul(g2.ln()).div(
                            fc3,
                        )).div(f2.ln().exp(Expr::Num(Real::Dec(Dec::two()))))
                    },
                },
            },
            Expr::Trig(func, f) => {
                let two = Expr::Num(Real::Dec(Dec::two()));
                let fc = (*f).clone();
                let inner = match func {
                    Trig::Sin => fc.trig(Trig::Cos),
                    Trig::Tan => fc.trig(Trig::Sec).exp(two),
                    Trig::Sec => {
                        let fd = fc.clone();
                        fc.trig(Trig::Sec).mul(fd.trig(Trig::Tan))
                    },
                    Trig::Cos => fc.trig(Trig::Sin).neg(),
                    Trig::Cot => fc.trig(Trig::Csc).exp(two).neg(),
                    Trig::Csc => {
                        let fd = fc.clone();
                        fc.trig(Trig::Csc).mul(fd.trig(Trig::Cot)).neg()
                    },
                };
                inner.mul(f.derive())
            },
            Expr::Var => Expr::Num(Real::Dec(Dec::one())),
            Expr::Num(_) => Expr::Num(Real::Dec(Dec::zero())),
        }
    }

    /// The power rule for a numeric exponent, with the exponent lowered by
    /// exactly one.
    fn derive_pow(f: Expr, n: Real) -> (r: Expr)
        requires
            f.wf(),
            n.wf(),
        ensures
            r == derive_pow_num(f, n),
        decreases f, 1int,
    {
        let lowered = match &n {
            Real::Dec(d) => Some(d.sub_one()),
            Real::E => None,
        };
        match lowered {
            Some(d) => {
                if d.is_zero() {
                    match f {
                        Expr::Var => Expr::Num(n),
                        _ => Expr::Num(n).mul(f.derive()),
                    }
                } else if d.is_one() {
                    match f {
                        Expr::Var => Expr::Num(n).mul(Expr::Var),
                        _ => {
                            let fc = f.clone();
                            Expr::Num(n).mul(fc).mul(f.derive())
                        },
                    }
                } else {
                    match f {
                        Expr::Var => Expr::Num(n).mul(Expr::Var.exp(Expr::Num(Real::Dec(d)))),
                        _ => {
                            let fc = f.clone();
                            Expr::Num(n).mul(fc.exp(Expr::Num(Real::Dec(d)))).mul(f.derive())
                        },
                    }
                }
            },
            None => {
                let lowered_e = Expr::Num(Real::E).sub(Expr::Num(Real::Dec(Dec::one())));
                match f {
                    Expr::Var => Expr::Num(n).mul(Expr::Var.exp(lowered_e)),
                    _ => {
                        let fc = f.clone();
                        Expr::Num(n).mul(fc.exp(lowered_e)).mul(f.derive())
                    },
                }
            },
        }
    }
}

/// Differentiation preserves canonical numbers: the derivative of a
/// well-formed term is well-formed.
pub proof fn lemma_derive_wf(e: Expr)
    requires
        e.wf(),
    ensures
        derive_of(e).wf(),
    decreases e,
{
    reveal_with_fuel(Expr::wf, 8);
    crate::num::lemma_const_wf();
    match e {
        Expr::Bin(op, f, g) => {
            lemma_derive_wf(*f);
            lemma_derive_wf(*g);
            if op == Bin::Exp && *g is Num {
                let n = (*g)->Num_0;
                match n {
                    Real::Dec(d) => {
                        lemma_sub_one(d);
                    },
                    Real::E => (),
                }
                assert(derive_pow_num(*f, n).wf());
            }
        },
        Expr::Trig(_, f) => {
            lemma_derive_wf(*f);
        },
        Expr::Var => (),
        Expr::Num(_) => (),
    }
}

} // verus!

verus! {

/// The derivative of any numeric constant is zero, and the derivative of the
/// free variable is one.
pub proof fn lemma_derive_atoms(c: Real)
    ensures
        derive_of(Expr::Num(c)) == s_dec(dec_zero()),
        derive_of(Expr::Var) == s_one(),
{
}

/// Sum rule, for every pair of terms: the derivative of `f + g` is the sum
/// of the derivatives.
pub proof fn lemma_derive_add(f: Expr, g: Expr)
    ensures
        derive_of(s_add(f, g)) == s_add(derive_of(f), derive_of(g)),
{
}

/// Difference rule, for every pair of terms.
pub proof fn lemma_derive_sub(f: Expr, g: Expr)
    ensures
        derive_of(s_sub(f, g)) == s_sub(derive_of(f), derive_of(g)),
{
}

/// Quotient rule, for every pair of terms: the derivative of `f / g` is
/// `(f'·g − g'·f) / g²`.
pub proof fn lemma_derive_div(f: Expr, g: Expr)
    ensures
        derive_of(s_div(f, g)) == s_div(
            s_sub(s_mul(derive_of(f), g), s_mul(derive_of(g), f)),
            s_exp(g, s_two()),
        ),
{
}

/// Product rule, for every pair of terms that are not bare constants: the
/// derivative of `f · g` is `f'·g + g'·f`. When one factor is a constant the
/// differentiator extracts it instead and yields `c · f'`, which denotes the
/// same function.
pub proof fn lemma_derive_mul(f: Expr, g: Expr)
    requires
        !(f is Num),
        !(g is Num),
    ensures
        derive_of(s_mul(f, g)) == s_add(s_mul(derive_of(f), g), s_mul(derive_of(g), f)),
{
}

/// Constant-factor rule, for every term: a constant on either side of a
/// product is kept and only the other factor is differentiated. A constant
/// on the left wins when both sides are constants.
pub proof fn lemma_derive_const_factor(c: Real, g: Expr)
    ensures
        derive_of(s_mul(Expr::Num(c), g)) == s_mul(Expr::Num(c), derive_of(g)),
        !(g is Num) ==> derive_of(s_mul(g, Expr::Num(c))) == s_mul(
            Expr::Num(c),
            derive_of(g),
        ),
{
}

} // verus!
