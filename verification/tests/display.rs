use stoat_prime::{Dec, Digits, Expr, Real, Trig};

fn num(n: u64) -> Expr {
    Expr::Num(Real::from_u64(n))
}

fn dec(neg: bool, whole: u64, frac: &[u8]) -> Expr {
    let mut digits = Digits::Nil;
    for &d in frac.iter() {
        digits = Digits::Cons(d, Box::new(digits));
    }
    let mut v = Dec::from_u64(whole);
    v.neg = neg;
    v.frac = digits;
    Expr::Num(Real::Dec(v))
}

#[test]
fn render_numbers() {
    assert_eq!(num(1).render(), "1");
    assert_eq!(num(0).render(), "0");
    assert_eq!(num(250).render(), "250");
    assert_eq!(dec(false, 0, &[4]).render(), "0.4");
    assert_eq!(dec(false, 12, &[2, 5]).render(), "12.25");
    assert_eq!(dec(true, 0, &[5]).render(), "-0.5");
    assert_eq!(Expr::Num(Real::E).render(), "e");
}

#[test]
fn render_operators() {
    assert_eq!(num(1).add(num(2).mul(num(3))).render(), "1 + 2 * 3");
    assert_eq!(num(1).add(num(2)).mul(num(3)).render(), "(1 + 2) * 3");
    assert_eq!(num(2).mul(Expr::Var.add(num(1))).render(), "2 * (x + 1)");
    assert_eq!(Expr::Var.exp(num(2)).exp(num(3)).render(), "x^2^3");
    assert_eq!(Expr::Var.add(num(1)).exp(num(2)).render(), "(x + 1)^2");
    assert_eq!(num(1).sub(num(2)).div(num(3)).render(), "(1 - 2) / 3");
}

#[test]
fn render_functions() {
    assert_eq!(Expr::Var.ln().render(), "ln x");
    assert_eq!(Expr::Var.log(num(5)).render(), "log_5 x");
    assert_eq!(num(10).log(Expr::Var.exp(num(2))).render(), "log_x^2 10");
    assert_eq!(Expr::Var.exp(num(2)).trig(Trig::Sin).render(), "sin x^2");
    assert_eq!(Expr::Var.add(num(1)).trig(Trig::Sin).render(), "sin (x + 1)");
    assert_eq!(Expr::Var.add(num(1)).ln().render(), "ln (x + 1)");
}

#[test]
fn render_derivative() {
    let e = num(2).mul(Expr::Var.exp(num(7))).add(Expr::Var.exp(num(9)));
    assert_eq!(e.derive().render(), "2 * 7 * x^6 + 9 * x^8");
}

#[test]
fn reparse_literal() {
    // A literal survives printing and reparsing exactly, trailing zeros
    // and all.
    for s in ["1.25", "0.4", "250", "0.0500", "007", "0"] {
        let once = Expr::from_text(s).unwrap();
        let again = Expr::from_text(&once.render()).unwrap();
        assert_eq!(once, again);
    }
}

#[test]
fn reparse_expression() {
    for s in [
        "1 + 2 * 3",
        "(1 + 2) * 3",
        "sin (90 * x)",
        "log_5 x^2",
        "x^2^3",
        "1 - 2 - 3",
        "0.4 - 0.1 / x",
    ] {
        let once = Expr::from_text(s).unwrap();
        let rendered = once.render();
        let again = Expr::from_text(&rendered).unwrap();
        assert_eq!(once, again, "through {rendered}");
    }
}
