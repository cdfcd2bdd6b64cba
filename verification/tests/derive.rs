use stoat_prime::{Dec, Digits, Expr, Real};

fn num(n: u64) -> Expr {
    Expr::Num(Real::from_u64(n))
}

fn e() -> Expr {
    Expr::Num(Real::E)
}

fn half() -> Expr {
    Expr::Num(Real::Dec(Dec::half()))
}

fn neg_half() -> Expr {
    Expr::Num(Real::Dec(Dec {
        neg: true,
        whole: Digits::Nil,
        frac: Digits::Cons(5, Box::new(Digits::Nil)),
    }))
}

fn var() -> Expr {
    Expr::Var
}

#[test]
fn power_rule() {
    assert_eq!(var().exp(num(10)).derive(), num(10).mul(var().exp(num(9))))
}

#[test]
fn power_rule_op_1() {
    assert_eq!(var().exp(num(2)).derive(), num(2).mul(var()))
}

#[test]
fn power_rule_op_2() {
    assert_eq!(var().exp(num(1)).derive(), num(1));
}

#[test]
fn constant_rule() {
    assert_eq!(
        num(3).mul(var().exp(num(2))).derive(),
        num(3).mul(num(2).mul(var()))
    )
}

#[test]
fn sum_rule() {
    assert_eq!(
        var().exp(num(2)).add(var().exp(num(3))).derive(),
        num(2).mul(var()).add(num(3).mul(var().exp(num(2))))
    )
}

#[test]
fn diff_rule() {
    assert_eq!(
        var().exp(num(2)).sub(var().exp(num(3))).derive(),
        num(2).mul(var()).sub(num(3).mul(var().exp(num(2))))
    )
}

#[test]
fn product_rule() {
    let f = var().sprt();
    let g = var().exp(num(2));
    let f_prime = half().mul(var().exp(neg_half()));
    let g_prime = num(2).mul(var());

    assert_eq!(
        f.clone().mul(g.clone()).derive(),
        f_prime.mul(g.clone()).add(g_prime.mul(f))
    )
}

#[test]
fn quotient_rule() {
    let f = var().sprt();
    let g = var().exp(num(2));
    let f_prime = half().mul(var().exp(neg_half()));
    let g_prime = num(2).mul(var());

    assert_eq!(
        f.clone().div(g.clone()).derive(),
        f_prime.mul(g.clone()).sub(g_prime.mul(f)).div(g.exp(num(2)))
    )
}

#[test]
fn ex_rule() {
    assert_eq!(e().exp(var()).derive(), e().exp(var()))
}

#[test]
fn ax_rule() {
    assert_eq!(
        num(2).exp(var()).derive(),
        num(2).exp(var()).mul(num(2).ln()),
    )
}

#[test]
fn ln_x_rule() {
    assert_eq!(var().ln().derive(), num(1).div(var()))
}

#[test]
fn log_a_x_rule() {
    assert_eq!(
        var().log(num(2)).derive(),
        num(1).div(var().mul(num(2).ln()))
    )
}

#[test]
fn log_x_a_rule() {
    assert_eq!(
        num(2).log(var()).derive(),
        num(2).ln().div(var().mul(var().ln().exp(num(2))))
    )
}

#[test]
fn f_a_rule() {
    assert_eq!(
        var().sprt().exp(num(2)).derive(),
        num(2).mul(var().sprt()).mul(half().mul(var().exp(neg_half())))
    )
}

#[test]
fn a_f_rule() {
    assert_eq!(
        num(2).exp(var().exp(num(2))).derive(),
        num(2)
            .exp(var().exp(num(2)))
            .mul(num(2).ln())
            .mul(num(2).mul(var()))
    )
}

#[test]
fn e_f_rule() {
    assert_eq!(
        e().exp(var().exp(num(2))).derive(),
        e().exp(var().exp(num(2))).mul(num(2).mul(var()))
    )
}

#[test]
fn f_g_rule() {
    let f = var().sprt();
    let g = var().exp(num(2));
    let f_prime = half().mul(var().exp(neg_half()));
    let g_prime = num(2).mul(var());

    assert_eq!(
        f.clone().exp(g.clone()).derive(),
        f.clone().exp(g.clone()).mul(
            g_prime
                .clone()
                .mul(f.clone().ln())
                .add(f_prime.mul(g.clone()).div(f))
        )
    )
}

#[test]
fn ln_f_rule() {
    assert_eq!(
        var().exp(num(2)).ln().derive(),
        num(2).mul(var()).div(var().exp(num(2)))
    )
}

#[test]
fn log_a_f() {
    assert_eq!(
        var().exp(num(2)).log(num(2)).derive(),
        num(2).mul(var()).div(var().exp(num(2)).mul(num(2).ln()))
    )
}

#[test]
fn log_f_g() {
    let f = var().sprt();
    let g = var().exp(num(2));
    let f_prime = half().mul(var().exp(neg_half()));
    let g_prime = num(2).mul(var());

    assert_eq!(
        g.clone().log(f.clone()).derive(),
        g_prime
            .mul(f.clone().ln())
            .div(g.clone())
            .sub(f_prime.mul(g.ln()).div(f.clone()))
            .div(f.ln().exp(num(2)))
    )
}

#[test]
fn derive_atoms() {
    assert_eq!(var().derive(), num(1));
    assert_eq!(num(7).derive(), num(0));
    assert_eq!(e().derive(), num(0));
}

#[test]
fn trig_rules() {
    assert_eq!(
        var().trig(stoat_prime::Trig::Sin).derive(),
        var().trig(stoat_prime::Trig::Cos).mul(num(1))
    );
    assert_eq!(
        var().exp(num(2)).trig(stoat_prime::Trig::Tan).derive(),
        var()
            .exp(num(2))
            .trig(stoat_prime::Trig::Sec)
            .exp(num(2))
            .mul(num(2).mul(var()))
    );
}
