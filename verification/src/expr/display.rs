//! Rendering terms back to text.
//!
//! `render_of` states the exact character sequence a term prints as:
//! children are parenthesised exactly when they bind less tightly than their
//! parent, a logarithm in base `e` prints as `ln`, the constant `e` prints
//! as the letter itself, and decimals print sign, whole part, point and
//! fraction. `Expr::render` produces exactly that text.

use vstd::prelude::*;

use crate::expr::{Bin, Expr, Trig};
use crate::num::{Dec, Digits, Real};

verus! {

/// The character for one digit.
pub open spec fn digit_char(d: u8) -> char {
    ((48 + d) as char)
}

/// The printed characters of a digit list, most significant digit first.
pub open spec fn digits_chars(d: Digits) -> Seq<char>
    decreases d,
{
    match d {
        Digits::Nil => Seq::empty(),
        Digits::Cons(x, rest) => digits_chars(*rest) + seq![digit_char(x)],
    }
}

/// The printed characters of a decimal: sign, whole part (a bare zero when
/// empty), then point and fraction when there is one.
pub open spec fn dec_chars(d: Dec) -> Seq<char> {
    let sign: Seq<char> = if d.neg {
        seq!['-']
    } else {
        Seq::empty()
    };
    let whole: Seq<char> = if d.whole is Nil {
        seq!['0']
    } else {
        digits_chars(d.whole)
    };
    let frac: Seq<char> = if d.frac is Nil {
        Seq::empty()
    } else {
        seq!['.'] + digits_chars(d.frac)
    };
    sign + whole + frac
}

/// The printed characters of a numeric constant.
pub open spec fn real_chars(r: Real) -> Seq<char> {
    match r {
        Real::E => seq!['e'],
        Real::Dec(d) => dec_chars(d),
    }
}

/// The printed name of a trigonometric function.
pub open spec fn trig_chars(t: Trig) -> Seq<char> {
    match t {
        Trig::Sin => seq!['s', 'i', 'n'],
        Trig::Cos => seq!['c', 'o', 's'],
        Trig::Tan => seq!['t', 'a', 'n'],
        Trig::Csc => seq!['c', 's', 'c'],
        Trig::Sec => seq!['s', 'e', 'c'],
        Trig::Cot => seq!['c', 'o', 't'],
    }
}

/// A child's text, in parentheses exactly when the child binds less tightly
/// than its parent.
pub open spec fn wrapped_of(e: Expr, parent: int) -> Seq<char>
    decreases e, 1int,
{
    if e.prec() < parent {
        seq!['('] + render_of(e) + seq![')']
    } else {
        render_of(e)
    }
}

/// The exact text a term prints as.
pub open spec fn render_of(e: Expr) -> Seq<char>
    decreases e, 0int,
{
    match e {
        Expr::Bin(t, a, b) => {
            let p = t.prec();
            match t {
                Bin::Add => wrapped_of(*a, p) + seq![' ', '+', ' '] + wrapped_of(*b, p),
                Bin::Sub => wrapped_of(*a, p) + seq![' ', '-', ' '] + wrapped_of(*b, p),
                Bin::Mul => wrapped_of(*a, p) + seq![' ', '*', ' '] + wrapped_of(*b, p),
                Bin::Div => wrapped_of(*a, p) + seq![' ', '/', ' '] + wrapped_of(*b, p),
                Bin::Exp => wrapped_of(*a, p) + seq!['^'] + wrapped_of(*b, p),
                Bin::Log => if *a == Expr::Num(Real::E) {
                    seq!['l', 'n', ' '] + wrapped_of(*b, p)
                } else {
                    seq!['l', 'o', 'g', '_'] + wrapped_of(*a, p) + seq![' '] + wrapped_of(*b, p)
                },
            }
        },
        Expr::Trig(t, a) => trig_chars(t) + seq![' '] + wrapped_of(*a, 3),
        Expr::Var => seq!['x'],
        Expr::Num(n) => real_chars(n),
    }
}

/// The text for one digit.
fn digit_str(d: u8) -> (r: &'static str)
    requires
        d < 10,
    ensures
        r@ == seq![digit_char(d)],
{
    proof {
        reveal_strlit("0");
        reveal_strlit("1");
        reveal_strlit("2");
        reveal_strlit("3");
        reveal_strlit("4");
        reveal_strlit("5");
        reveal_strlit("6");
        reveal_strlit("7");
        reveal_strlit("8");
        reveal_strlit("9");
    }
    let r = match d {
        0 => "0",
        1 => "1",
        2 => "2",
        3 => "3",
        4 => "4",
        5 => "5",
        6 => "6",
        7 => "7",
        8 => "8",
        _ => "9",
    };
    proof {
        assert(r@ =~= seq![digit_char(d)]);
    }
    r
}

/// The printed name of a trigonometric function, as text.
fn trig_str(t: Trig) -> (r: &'static str)
    ensures
        r@ == trig_chars(t),
{
    proof {
        reveal_strlit("sin");
        reveal_strlit("cos");
        reveal_strlit("tan");
        reveal_strlit("csc");
        reveal_strlit("sec");
        reveal_strlit("cot");
    }
    let r = match t {
        Trig::Sin => "sin",
        Trig::Cos => "cos",
        Trig::Tan => "tan",
        Trig::Csc => "csc",
        Trig::Sec => "sec",
        Trig::Cot => "cot",
    };
    proof {
        assert(r@ =~= trig_chars(t));
    }
    r
}

impl Digits {
    /// Append the printed digits, most significant first.
    fn push_chars(&self, out: &mut String)
        requires
            self.digits_ok(),
        ensures
            final(out)@ == old(out)@ + digits_chars(*self),
        decreases *self,
    {
        match self {
            Digits::Nil => {
                proof {
                    assert(out@ =~= old(out)@ + digits_chars(*self));
                }
            },
            Digits::Cons(x, rest) => {
                rest.push_chars(out);
                out.append(digit_str(*x));
                proof {
                    assert(out@ =~= old(out)@ + digits_chars(*self));
                }
            },
        }
    }
}

impl Dec {
    /// Append the printed decimal.
    fn push_chars(&self, out: &mut String)
        requires
            self.whole.digits_ok(),
            self.frac.digits_ok(),
        ensures
            final(out)@ == old(out)@ + dec_chars(*self),
    {
        proof {
            reveal_strlit("-");
            reveal_strlit("0");
            reveal_strlit(".");
        }
        if self.neg {
            out.append("-");
        }
        match &self.whole {
            Digits::Nil => {
                out.append("0");
            },
            _ => {
                self.whole.push_chars(out);
            },
        }
        match &self.frac {
            Digits::Nil => (),
            _ => {
                out.append(".");
                self.frac.push_chars(out);
            },
        }
        proof {
            assert(out@ =~= old(out)@ + dec_chars(*self));
        }
    }
}

impl Expr {
    /// The term printed as text.
    pub fn render(&self) -> (r: String)
        requires
            self.wf(),
        ensures
            r@ == render_of(*self),
    {
        let mut out = String::new();
        self.push_render(&mut out);
        proof {
            assert(out@ =~= render_of(*self));
        }
        out
    }

    /// Append this term's text.
    fn push_render(&self, out: &mut String)
        requires
            self.wf(),
        ensures
            final(out)@ == old(out)@ + render_of(*self),
        decreases *self, 0int,
    {
        proof {
            reveal_strlit(" + ");
            reveal_strlit(" - ");
            reveal_strlit(" * ");
            reveal_strlit(" / ");
            reveal_strlit("^");
            reveal_strlit("ln ");
            reveal_strlit("log_");
            reveal_strlit(" ");
            reveal_strlit("x");
            reveal_strlit("e");
        }
        match self {
            Expr::Bin(t, a, b) => {
                let p = t.precedence();
                match t {
                    Bin::Add => {
                        a.push_wrapped(p, out);
                        out.append(" + ");
                        b.push_wrapped(p, out);
                    },
                    Bin::Sub => {
                        a.push_wrapped(p, out);
                        out.append(" - ");
                        b.push_wrapped(p, out);
                    },
                    Bin::Mul => {
                        a.push_wrapped(p, out);
                        out.append(" * ");
                        b.push_wrapped(p, out);
                    },
                    Bin::Div => {
                        a.push_wrapped(p, out);
                        out.append(" / ");
                        b.push_wrapped(p, out);
                    },
                    Bin::Exp => {
                        a.push_wrapped(p, out);
                        out.append("^");
                        b.push_wrapped(p, out);
                    },
                    Bin::Log => {
                        let base_is_e = match &**a {
                            Expr::Num(Real::E) => true,
                            _ => false,
                        };
                        if base_is_e {
                            out.append("ln ");
                            b.push_wrapped(p, out);
                        } else {
                            out.append("log_");
                            a.push_wrapped(p, out);
                            out.append(" ");
                            b.push_wrapped(p, out);
                        }
                    },
                }
                proof {
                    assert(out@ =~= old(out)@ + render_of(*self));
                }
            },
            Expr::Trig(t, a) => {
                out.append(trig_str(*t));
                out.append(" ");
                a.push_wrapped(3, out);
                proof {
                    assert(out@ =~= old(out)@ + render_of(*self));
                }
            },
            Expr::Var => {
                out.append("x");
                proof {
                    assert(out@ =~= old(out)@ + render_of(*self));
                }
            },
            Expr::Num(n) => {
                match n {
                    Real::E => {
                        out.append("e");
                    },
                    Real::Dec(d) => {
                        d.push_chars(out);
                    },
                }
                proof {
                    assert(out@ =~= old(out)@ + render_of(*self));
                }
            },
        }
    }

    /// Append this term's text, in parentheses when it binds less tightly
    /// than the parent.
    fn push_wrapped(&self, parent: usize, out: &mut String)
        requires
            self.wf(),
        ensures
            final(out)@ == old(out)@ + wrapped_of(*self, parent as int),
        decreases *self, 1int,
    {
        proof {
            reveal_strlit("(");
            reveal_strlit(")");
        }
        if self.precedence() < parent {
            out.append("(");
            self.push_render(out);
            out.append(")");
            proof {
                assert(out@ =~= old(out)@ + wrapped_of(*self, parent as int));
            }
        } else {
            self.push_render(out);
        }
    }
}

} // verus!
