//! Exact numbers for expression terms.
//!
//! A numeric constant is either the base of the natural logarithm `e`, kept
//! as its own symbol so that the differentiator and the printer can recognise
//! it exactly, or a finite signed decimal. A decimal stores its digits in two
//! base-ten digit lists, one for the part before the point and one for the
//! part after it, so lexing, printing and the one arithmetic step the
//! differentiator needs (taking one off an exponent) are all exact.

use vstd::prelude::*;

verus! {

/// Digits of a natural number in base ten, least significant digit first.
#[derive(Debug)]
pub enum Digits {
    Nil,
    Cons(u8, Box<Digits>),
}

/// `10^n`.
pub open spec fn pow10(n: nat) -> nat
    decreases n,
{
    if n == 0 {
        1
    } else {
        10 * pow10((n - 1) as nat)
    }
}

impl Digits {
    /// The number the digit list denotes.
    pub open spec fn val(self) -> nat
        decreases self,
    {
        match self {
            Digits::Nil => 0,
            Digits::Cons(d, rest) => (d + 10 * rest.val()) as nat,
        }
    }

    /// How many digits the list holds.
    pub open spec fn len(self) -> nat
        decreases self,
    {
        match self {
            Digits::Nil => 0,
            Digits::Cons(_, rest) => 1 + rest.len(),
        }
    }

    /// Every digit is below ten.
    pub open spec fn digits_ok(self) -> bool
        decreases self,
    {
        match self {
            Digits::Nil => true,
            Digits::Cons(d, rest) => d < 10 && rest.digits_ok(),
        }
    }

    /// The deepest (most significant) digit is not zero.
    pub open spec fn top_nonzero(self) -> bool
        decreases self,
    {
        match self {
            Digits::Nil => true,
            Digits::Cons(d, rest) => if (*rest) is Nil {
                d != 0
            } else {
                rest.top_nonzero()
            },
        }
    }

    /// Canonical form for the part before the point: no leading printed zero.
    pub open spec fn whole_wf(self) -> bool {
        self.digits_ok() && self.top_nonzero()
    }

    /// Canonical form for the part after the point: no trailing printed zero,
    /// which is the head of the list here.
    pub open spec fn frac_wf(self) -> bool {
        self.digits_ok() && (match self {
            Digits::Nil => true,
            Digits::Cons(d, _) => d != 0,
        })
    }

    /// The canonical digit list of a machine integer.
    pub fn from_u64(n: u64) -> (r: Digits)
        ensures
            r.whole_wf(),
            r.val() == n,
        decreases n,
    {
        if n == 0 {
            Digits::Nil
        } else {
            Digits::Cons((n % 10) as u8, Box::new(Digits::from_u64(n / 10)))
        }
    }
}

/// The digit list denoting one more than `d` denotes.
pub open spec fn succ_of(d: Digits) -> Digits
    decreases d,
{
    match d {
        Digits::Nil => Digits::Cons(1, Box::new(Digits::Nil)),
        Digits::Cons(x, rest) => if x < 9 {
            Digits::Cons((x + 1) as u8, rest)
        } else {
            Digits::Cons(0, Box::new(succ_of(*rest)))
        },
    }
}

/// The digit list denoting one less than `d` denotes; `d` must denote at
/// least one.
pub open spec fn pred_of(d: Digits) -> Digits
    decreases d,
{
    match d {
        Digits::Nil => Digits::Nil,
        Digits::Cons(x, rest) => if x > 0 {
            if (*rest) is Nil && x == 1 {
                Digits::Nil
            } else {
                Digits::Cons((x - 1) as u8, rest)
            }
        } else {
            Digits::Cons(9, Box::new(pred_of(*rest)))
        },
    }
}

/// Each digit replaced by its difference from nine.
pub open spec fn nines_of(d: Digits) -> Digits
    decreases d,
{
    match d {
        Digits::Nil => Digits::Nil,
        Digits::Cons(x, rest) => Digits::Cons((9 - x) as u8, Box::new(nines_of(*rest))),
    }
}

/// The digit list denoting `10^len − val`: the fraction that completes `d`
/// to one.
pub open spec fn compl_of(d: Digits) -> Digits {
    match d {
        Digits::Nil => Digits::Nil,
        Digits::Cons(x, rest) => Digits::Cons((10 - x) as u8, Box::new(nines_of(*rest))),
    }
}

pub proof fn lemma_val_pos(d: Digits)
    requires
        d.whole_wf(),
        d is Cons,
    ensures
        d.val() >= 1,
    decreases d,
{
    match d {
        Digits::Nil => (),
        Digits::Cons(x, rest) => {
            if *rest is Cons {
                lemma_val_pos(*rest);
            }
        },
    }
}

pub proof fn lemma_succ(d: Digits)
    requires
        d.whole_wf(),
    ensures
        succ_of(d).whole_wf(),
        succ_of(d).val() == d.val() + 1,
        succ_of(d) is Cons,
    decreases d,
{
    match d {
        Digits::Nil => (),
        Digits::Cons(x, rest) => {
            if x >= 9 {
                lemma_succ(*rest);
            }
        },
    }
}

pub proof fn lemma_pred(d: Digits)
    requires
        d.whole_wf(),
        d is Cons,
    ensures
        pred_of(d).whole_wf(),
        pred_of(d).val() == d.val() - 1,
    decreases d,
{
    lemma_val_pos(d);
    match d {
        Digits::Nil => (),
        Digits::Cons(x, rest) => {
            if x == 0 {
                lemma_pred(*rest);
            }
        },
    }
}

pub proof fn lemma_nines(d: Digits)
    requires
        d.digits_ok(),
    ensures
        nines_of(d).digits_ok(),
        nines_of(d).len() == d.len(),
        nines_of(d).val() == pow10(d.len()) - 1 - d.val(),
    decreases d,
{
    match d {
        Digits::Nil => (),
        Digits::Cons(x, rest) => {
            lemma_nines(*rest);
        },
    }
}

pub proof fn lemma_compl(d: Digits)
    requires
        d.frac_wf(),
        d is Cons,
    ensures
        compl_of(d).frac_wf(),
        compl_of(d).len() == d.len(),
        compl_of(d).val() == pow10(d.len()) - d.val(),
    decreases d,
{
    match d {
        Digits::Nil => (),
        Digits::Cons(x, rest) => {
            lemma_nines(*rest);
        },
    }
}

/// A finite signed decimal: the digits before and after the point.
#[derive(Debug)]
pub struct Dec {
    pub neg: bool,
    pub whole: Digits,
    pub frac: Digits,
}

impl Dec {
    /// Canonical form: both digit lists canonical, and zero is never negative.
    pub open spec fn wf(self) -> bool {
        self.whole.whole_wf() && self.frac.frac_wf() && (self.neg ==> !(self.whole is Nil
            && self.frac is Nil))
    }

    /// The denominator exponent: the number of digits after the point.
    pub open spec fn scale(self) -> nat {
        self.frac.len()
    }

    /// The magnitude, scaled to an integer: `|value| * 10^scale`.
    pub open spec fn mag(self) -> nat {
        self.whole.val() * pow10(self.frac.len()) + self.frac.val()
    }

    /// The signed value, scaled to an integer: `value * 10^scale`.
    pub open spec fn num(self) -> int {
        if self.neg {
            -(self.mag() as int)
        } else {
            self.mag() as int
        }
    }

    /// The decimal denoting a machine integer.
    pub fn from_u64(n: u64) -> (r: Dec)
        ensures
            r.wf(),
            r.num() == n,
            r.scale() == 0,
            r.neg == false,
    {
        let r = Dec { neg: false, whole: Digits::from_u64(n), frac: Digits::Nil };
        assert(r.mag() == r.whole.val() * 1 + 0);
        r
    }

    /// Whether this decimal denotes zero.
    pub fn is_zero(&self) -> (r: bool)
        requires
            self.wf(),
        ensures
            r == (self.num() == 0),
            r == (*self == dec_zero()),
    {
        proof {
            if self.whole is Cons {
                lemma_val_pos(self.whole);
                assert(self.mag() >= self.whole.val() * pow10(self.frac.len()));
                assert(self.whole.val() * pow10(self.frac.len()) >= 1 * pow10(self.frac.len()))
                    by (nonlinear_arith)
                    requires
                        self.whole.val() >= 1,
                        pow10(self.frac.len()) >= 0,
                ;
                lemma_pow10_pos(self.frac.len());
            }
            if self.frac is Cons {
                assert(self.frac.val() >= 1);
            }
        }
        match (&self.whole, &self.frac) {
            (Digits::Nil, Digits::Nil) => true,
            _ => false,
        }
    }
}

pub proof fn lemma_pow10_pos(n: nat)
    ensures
        pow10(n) >= 1,
    decreases n,
{
    if n > 0 {
        lemma_pow10_pos((n - 1) as nat);
    }
}

/// The decimal denoting one less than `d` denotes. The scale is kept, so in
/// scaled terms the result denotes `num − 10^scale`.
pub open spec fn sub_one_of(d: Dec) -> Dec {
    if d.neg {
        Dec { neg: true, whole: succ_of(d.whole), frac: d.frac }
    } else if d.whole is Cons {
        let w = pred_of(d.whole);
        Dec { neg: false, whole: w, frac: d.frac }
    } else if d.frac is Cons {
        Dec { neg: true, whole: Digits::Nil, frac: compl_of(d.frac) }
    } else {
        Dec { neg: true, whole: Digits::Cons(1, Box::new(Digits::Nil)), frac: Digits::Nil }
    }
}

pub proof fn lemma_sub_one(d: Dec)
    requires
        d.wf(),
    ensures
        sub_one_of(d).wf(),
        sub_one_of(d).scale() == d.scale(),
        sub_one_of(d).num() == d.num() - pow10(d.scale()),
{
    let p = pow10(d.frac.len());
    lemma_pow10_pos(d.frac.len());
    let r = sub_one_of(d);
    if d.neg {
        lemma_succ(d.whole);
        assert((succ_of(d.whole).val()) * p == d.whole.val() * p + p) by (nonlinear_arith)
            requires
                succ_of(d.whole).val() == d.whole.val() + 1,
        ;
        assert(r.mag() == succ_of(d.whole).val() * p + d.frac.val());
        assert(r.num() == d.num() - p);
    } else if d.whole is Cons {
        lemma_pred(d.whole);
        lemma_val_pos(d.whole);
        assert((pred_of(d.whole).val()) * p == d.whole.val() * p - p) by (nonlinear_arith)
            requires
                pred_of(d.whole).val() == d.whole.val() - 1,
                d.whole.val() >= 1,
        ;
        assert(r.mag() == pred_of(d.whole).val() * p + d.frac.val());
        assert(r.num() == d.num() - p);
    } else if d.frac is Cons {
        lemma_compl(d.frac);
        assert(compl_of(d.frac) is Cons);
        assert(r.mag() == Digits::Nil.val() * pow10(compl_of(d.frac).len()) + compl_of(
            d.frac,
        ).val());
        assert(r.mag() == p - d.frac.val());
        assert(d.mag() == 0 * p + d.frac.val());
        assert(r.num() == d.num() - p);
    } else {
        assert(r.mag() == Digits::Cons(1, Box::new(Digits::Nil)).val() * pow10(0nat) + 0);
        assert(Digits::Cons(1, Box::new(Digits::Nil)).val() == 1);
        assert(r.num() == d.num() - p);
    }
}

impl Dec {
    /// One less than this decimal: the only arithmetic the differentiator
    /// performs, used to lower a power's exponent.
    pub fn sub_one(&self) -> (r: Dec)
        requires
            self.wf(),
        ensures
            r == sub_one_of(*self),
            r.wf(),
            r.scale() == self.scale(),
            r.num() == self.num() - pow10(self.scale()),
    {
        proof {
            lemma_sub_one(*self);
        }
        if self.neg {
            Dec { neg: true, whole: self.whole.succ(), frac: self.frac.clone() }
        } else {
            match &self.whole {
                Digits::Cons(_, _) => Dec {
                    neg: false,
                    whole: self.whole.pred(),
                    frac: self.frac.clone(),
                },
                Digits::Nil => match &self.frac {
                    Digits::Cons(_, _) => Dec {
                        neg: true,
                        whole: Digits::Nil,
                        frac: self.frac.compl(),
                    },
                    Digits::Nil => Dec {
                        neg: true,
                        whole: Digits::Cons(1, Box::new(Digits::Nil)),
                        frac: Digits::Nil,
                    },
                },
            }
        }
    }
}

impl Digits {
    /// One more, as digits.
    pub fn succ(&self) -> (r: Digits)
        ensures
            r == succ_of(*self),
        decreases *self,
    {
        match self {
            Digits::Nil => Digits::Cons(1, Box::new(Digits::Nil)),
            Digits::Cons(x, rest) => if *x < 9 {
                Digits::Cons(x + 1, Box::new((**rest).clone()))
            } else {
                Digits::Cons(0, Box::new(rest.succ()))
            },
        }
    }

    /// One less, as digits.
    pub fn pred(&self) -> (r: Digits)
        ensures
            r == pred_of(*self),
        decreases *self,
    {
        match self {
            Digits::Nil => Digits::Nil,
            Digits::Cons(x, rest) => if *x > 0 {
                if matches!(**rest, Digits::Nil) && *x == 1 {
                    Digits::Nil
                } else {
                    Digits::Cons(x - 1, Box::new((**rest).clone()))
                }
            } else {
                Digits::Cons(9, Box::new(rest.pred()))
            },
        }
    }

    /// Each digit replaced by its difference from nine.
    pub fn nines(&self) -> (r: Digits)
        requires
            self.digits_ok(),
        ensures
            r == nines_of(*self),
        decreases *self,
    {
        match self {
            Digits::Nil => Digits::Nil,
            Digits::Cons(x, rest) => Digits::Cons(9 - x, Box::new(rest.nines())),
        }
    }

    /// The complement to one of a fraction's digits.
    pub fn compl(&self) -> (r: Digits)
        requires
            self.digits_ok(),
        ensures
            r == compl_of(*self),
    {
        match self {
            Digits::Nil => Digits::Nil,
            Digits::Cons(x, rest) => Digits::Cons(10 - x, Box::new(rest.nines())),
        }
    }
}

/// A numeric constant of the expression language: the base of the natural
/// logarithm, or a finite decimal.
#[derive(Debug)]
pub enum Real {
    E,
    Dec(Dec),
}

impl Real {
    /// Canonical form.
    pub open spec fn wf(self) -> bool {
        match self {
            Real::E => true,
            Real::Dec(d) => d.wf(),
        }
    }

    /// The constant denoting a machine integer.
    pub fn from_u64(n: u64) -> (r: Real)
        ensures
            r.wf(),
            r is Dec,
            r->Dec_0.num() == n,
            r->Dec_0.scale() == 0,
            r->Dec_0.neg == false,
    {
        Real::Dec(Dec::from_u64(n))
    }
}

/// The canonical decimal for zero.
pub open spec fn dec_zero() -> Dec {
    Dec { neg: false, whole: Digits::Nil, frac: Digits::Nil }
}

/// The canonical decimal for one.
pub open spec fn dec_one() -> Dec {
    Dec { neg: false, whole: Digits::Cons(1, Box::new(Digits::Nil)), frac: Digits::Nil }
}

impl Dec {
    /// Whether this decimal is the canonical form of one.
    pub fn is_one(&self) -> (r: bool)
        ensures
            r == (*self == dec_one()),
    {
        if self.neg {
            false
        } else {
            match (&self.whole, &self.frac) {
                (Digits::Cons(d, rest), Digits::Nil) => *d == 1 && matches!(**rest, Digits::Nil),
                _ => false,
            }
        }
    }
}

} // verus!

verus! {

impl Clone for Digits {
    /// An exact copy.
    fn clone(&self) -> (r: Digits)
        ensures
            r == *self,
        decreases *self,
    {
        match self {
            Digits::Nil => Digits::Nil,
            Digits::Cons(d, rest) => Digits::Cons(*d, Box::new((**rest).clone())),
        }
    }
}

impl Clone for Dec {
    /// An exact copy.
    fn clone(&self) -> (r: Dec)
        ensures
            r == *self,
    {
        Dec { neg: self.neg, whole: self.whole.clone(), frac: self.frac.clone() }
    }
}

impl Clone for Real {
    /// An exact copy.
    fn clone(&self) -> (r: Real)
        ensures
            r == *self,
    {
        match self {
            Real::E => Real::E,
            Real::Dec(d) => Real::Dec(d.clone()),
        }
    }
}

} // verus!

verus! {

impl PartialEq for Digits {
    /// Structural equality: the same digits.
    fn eq(&self, other: &Self) -> (r: bool)
        decreases *self,
    {
        match (self, other) {
            (Digits::Nil, Digits::Nil) => true,
            (Digits::Cons(a, r1), Digits::Cons(b, r2)) => *a == *b && (&**r1).eq(&**r2),
            _ => false,
        }
    }
}

impl vstd::std_specs::cmp::PartialEqSpecImpl for Digits {
    open spec fn obeys_eq_spec() -> bool {
        true
    }

    open spec fn eq_spec(&self, other: &Self) -> bool {
        *self == *other
    }
}

impl PartialEq for Dec {
    /// Structural equality: same sign and the same digits on both sides of
    /// the point.
    fn eq(&self, other: &Self) -> (r: bool) {
        self.neg == other.neg && self.whole.eq(&other.whole) && self.frac.eq(&other.frac)
    }
}

impl vstd::std_specs::cmp::PartialEqSpecImpl for Dec {
    open spec fn obeys_eq_spec() -> bool {
        true
    }

    open spec fn eq_spec(&self, other: &Self) -> bool {
        *self == *other
    }
}

impl PartialEq for Real {
    /// Structural equality; the constant `e` equals only itself.
    fn eq(&self, other: &Self) -> (r: bool) {
        match (self, other) {
            (Real::E, Real::E) => true,
            (Real::Dec(a), Real::Dec(b)) => a.eq(b),
            _ => false,
        }
    }
}

impl vstd::std_specs::cmp::PartialEqSpecImpl for Real {
    open spec fn obeys_eq_spec() -> bool {
        true
    }

    open spec fn eq_spec(&self, other: &Self) -> bool {
        *self == *other
    }
}

} // verus!

verus! {

/// The canonical decimal for two.
pub open spec fn dec_two() -> Dec {
    Dec { neg: false, whole: Digits::Cons(2, Box::new(Digits::Nil)), frac: Digits::Nil }
}

/// The canonical decimal for ten.
pub open spec fn dec_ten() -> Dec {
    Dec {
        neg: false,
        whole: Digits::Cons(0, Box::new(Digits::Cons(1, Box::new(Digits::Nil)))),
        frac: Digits::Nil,
    }
}

/// The canonical decimal for one half.
pub open spec fn dec_half() -> Dec {
    Dec { neg: false, whole: Digits::Nil, frac: Digits::Cons(5, Box::new(Digits::Nil)) }
}

/// The canonical decimal for minus one.
pub open spec fn dec_neg_one() -> Dec {
    Dec { neg: true, whole: Digits::Cons(1, Box::new(Digits::Nil)), frac: Digits::Nil }
}

impl Dec {
    /// The decimal zero.
    pub fn zero() -> (r: Dec)
        ensures
            r == dec_zero(),
    {
        Dec { neg: false, whole: Digits::Nil, frac: Digits::Nil }
    }

    /// The decimal one.
    pub fn one() -> (r: Dec)
        ensures
            r == dec_one(),
    {
        Dec { neg: false, whole: Digits::Cons(1, Box::new(Digits::Nil)), frac: Digits::Nil }
    }

    /// The decimal two.
    pub fn two() -> (r: Dec)
        ensures
            r == dec_two(),
    {
        Dec { neg: false, whole: Digits::Cons(2, Box::new(Digits::Nil)), frac: Digits::Nil }
    }

    /// The decimal ten.
    pub fn ten() -> (r: Dec)
        ensures
            r == dec_ten(),
    {
        Dec {
            neg: false,
            whole: Digits::Cons(0, Box::new(Digits::Cons(1, Box::new(Digits::Nil)))),
            frac: Digits::Nil,
        }
    }

    /// The decimal one half.
    pub fn half() -> (r: Dec)
        ensures
            r == dec_half(),
    {
        Dec { neg: false, whole: Digits::Nil, frac: Digits::Cons(5, Box::new(Digits::Nil)) }
    }

    /// The decimal minus one.
    pub fn neg_one() -> (r: Dec)
        ensures
            r == dec_neg_one(),
    {
        Dec { neg: true, whole: Digits::Cons(1, Box::new(Digits::Nil)), frac: Digits::Nil }
    }
}

} // verus!

verus! {

/// The named decimal constants are all canonical.
pub proof fn lemma_const_wf()
    ensures
        dec_zero().wf(),
        dec_one().wf(),
        dec_two().wf(),
        dec_ten().wf(),
        dec_half().wf(),
        dec_neg_one().wf(),
        dec_zero().num() == 0,
        dec_one().num() == 1,
        dec_two().num() == 2,
        dec_ten().num() == 10,
        dec_neg_one().num() == -1,
        dec_half().num() == 5 && dec_half().scale() == 1,
        dec_zero().scale() == 0,
        dec_one().scale() == 0,
        dec_two().scale() == 0,
        dec_ten().scale() == 0,
        dec_neg_one().scale() == 0,
{
    reveal_with_fuel(Digits::digits_ok, 4);
    reveal_with_fuel(Digits::top_nonzero, 4);
    reveal_with_fuel(Digits::val, 4);
    reveal_with_fuel(Digits::len, 4);
    reveal_with_fuel(pow10, 2);
}

} // verus!

verus! {

/// Powers of ten multiply as their exponents add.
pub proof fn lemma_pow10_add(a: nat, b: nat)
    ensures
        pow10(a + b) == pow10(a) * pow10(b),
    decreases a,
{
    if a == 0 {
        assert(pow10(0 + b) == 1 * pow10(b));
    } else {
        lemma_pow10_add((a - 1) as nat, b);
        assert(pow10(a + b) == 10 * pow10((a - 1) as nat + b));
        assert(10 * (pow10((a - 1) as nat) * pow10(b)) == (10 * pow10((a - 1) as nat)) * pow10(b))
            by (nonlinear_arith);
    }
}

} // verus!
