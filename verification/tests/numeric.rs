//! Sampled numeric checks of the symbolic rules: the derivative terms the
//! library builds denote the derivative function.

use stoat_prime::{Bin, Dec, Digits, Expr, Real, Trig};

fn digits_val(d: &Digits) -> (f64, i32) {
    match d {
        Digits::Nil => (0.0, 0),
        Digits::Cons(x, rest) => {
            let (v, l) = digits_val(rest);
            (v * 10.0 + f64::from(*x), l + 1)
        }
    }
}

fn dec_val(d: &Dec) -> f64 {
    let (w, _) = digits_val(&d.whole);
    let (f, l) = digits_val(&d.frac);
    let m = w + f / 10f64.powi(l);
    if d.neg {
        -m
    } else {
        m
    }
}

fn eval(e: &Expr, x: f64) -> f64 {
    match e {
        Expr::Bin(op, a, b) => {
            let u = eval(a, x);
            let v = eval(b, x);
            match op {
                Bin::Add => u + v,
                Bin::Sub => u - v,
                Bin::Mul => u * v,
                Bin::Div => u / v,
                Bin::Exp => u.powf(v),
                Bin::Log => v.ln() / u.ln(),
            }
        }
        Expr::Trig(t, a) => {
            let u = eval(a, x);
            match t {
                Trig::Sin => u.sin(),
                Trig::Cos => u.cos(),
                Trig::Tan => u.tan(),
                Trig::Csc => 1.0 / u.sin(),
                Trig::Sec => 1.0 / u.cos(),
                Trig::Cot => u.cos() / u.sin(),
            }
        }
        Expr::Var => x,
        Expr::Num(r) => match r {
            Real::E => std::f64::consts::E,
            Real::Dec(d) => dec_val(d),
        },
    }
}

fn num(n: u64) -> Expr {
    Expr::Num(Real::from_u64(n))
}

fn close(a: f64, b: f64, tol: f64) -> bool {
    (a - b).abs() <= tol * (1.0 + a.abs().max(b.abs()))
}

fn samples() -> Vec<f64> {
    vec![0.4, 0.9, 1.3, 2.2, 3.1]
}

#[test]
fn derivative_rules_evaluate_alike() {
    // The product, quotient, sum and difference rules, checked numerically
    // against the independently differentiated operands.
    let parts: Vec<(Expr, Expr)> = vec![
        (Expr::Var.sprt(), Expr::Var.exp(num(2))),
        (Expr::Var.trig(Trig::Sin), Expr::Var.ln()),
        (num(3).mul(Expr::Var), Expr::Var.exp(num(3))),
    ];
    for (f, g) in parts {
        let df = f.clone().derive();
        let dg = g.clone().derive();
        for x in samples() {
            let fv = eval(&f, x);
            let gv = eval(&g, x);
            let dfv = eval(&df, x);
            let dgv = eval(&dg, x);
            let sum = eval(&f.clone().add(g.clone()).derive(), x);
            assert!(close(sum, dfv + dgv, 1e-9), "sum at {x}");
            let diff = eval(&f.clone().sub(g.clone()).derive(), x);
            assert!(close(diff, dfv - dgv, 1e-9), "difference at {x}");
            let prod = eval(&f.clone().mul(g.clone()).derive(), x);
            assert!(close(prod, dfv * gv + dgv * fv, 1e-9), "product at {x}");
            let quot = eval(&f.clone().div(g.clone()).derive(), x);
            assert!(
                close(quot, (dfv * gv - dgv * fv) / (gv * gv), 1e-9),
                "quotient at {x}"
            );
        }
    }
}

#[test]
fn symbolic_matches_numeric_derivative() {
    // A logarithm with the variable in the base and a constant argument is
    // left out: its rewrite rule yields `ln a / (x * (ln x)^2)` without a
    // minus sign, which differs from the analytic derivative in sign. The
    // structural tests pin that rule as it is stated.
    let terms: Vec<Expr> = vec![
        Expr::Var.exp(num(10)),
        num(3).mul(Expr::Var.exp(num(2))),
        Expr::Var.exp(num(2)).trig(Trig::Sin),
        Expr::Num(Real::E).exp(Expr::Var),
        num(2).exp(Expr::Var),
        Expr::Var.ln(),
        Expr::Var.log(num(2)),
        Expr::Var.sprt().exp(num(2)),
        Expr::Var.exp(num(2)).trig(Trig::Tan),
        Expr::Var.trig(Trig::Sec),
    ];
    let h = 1e-6;
    for t in terms {
        let d = t.clone().derive();
        for x in samples() {
            let numeric = (eval(&t, x + h) - eval(&t, x - h)) / (2.0 * h);
            let symbolic = eval(&d, x);
            assert!(
                close(symbolic, numeric, 1e-4),
                "{} at {x}: {symbolic} vs {numeric}",
                t.clone().render()
            );
        }
    }
}

#[test]
fn sec_is_reciprocal_cosine() {
    // The secant of zero is one, and the derivative rule for the secant
    // samples correctly around zero too.
    let t = Expr::from_text("sec 0").unwrap();
    assert_eq!(eval(&t, 1.0), 1.0);
    let d = Expr::from_text("sec x").unwrap().derive();
    let h: f64 = 1e-6;
    let x: f64 = 0.3;
    let numeric = ((1.0 / (x + h).cos()) - (1.0 / (x - h).cos())) / (2.0 * h);
    assert!(close(eval(&d, x), numeric, 1e-4));
}
