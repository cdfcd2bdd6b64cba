use stoat_prime::{Expr, LangError, Real, Trig};

fn num(n: u64) -> Expr {
    Expr::Num(Real::from_u64(n))
}

fn parse_text(s: &str) -> Expr {
    Expr::from_text(s).unwrap()
}

#[test]
fn parse_simple() {
    assert_eq!(parse_text("1 + 2 * 3"), num(1).add(num(2).mul(num(3))))
}

#[test]
fn order_operation() {
    assert_eq!(
        parse_text("1 * 2 + 3 * 4"),
        num(1).mul(num(2)).add(num(3).mul(num(4)))
    )
}

#[test]
fn func() {
    assert_eq!(parse_text("sin 90"), num(90).trig(Trig::Sin))
}

#[test]
fn func_exp() {
    assert_eq!(parse_text("sin x^2"), Expr::Var.exp(num(2)).trig(Trig::Sin))
}

#[test]
fn func_paren() {
    assert_eq!(
        parse_text("sin (90 * x)"),
        num(90).mul(Expr::Var).trig(Trig::Sin)
    )
}

#[test]
fn log_base() {
    assert_eq!(parse_text("log_5 x"), Expr::Var.log(num(5)))
}

#[test]
fn log() {
    assert_eq!(parse_text("log x"), Expr::Var.log(num(10)))
}

#[test]
fn log_complex_base() {
    assert_eq!(parse_text("log_x^2 10"), num(10).log(Expr::Var.exp(num(2))))
}

#[test]
fn parens_group() {
    assert_eq!(
        parse_text("(1 + 2) * 3"),
        num(1).add(num(2)).mul(num(3))
    )
}

#[test]
fn power_left_associative() {
    assert_eq!(
        parse_text("x^2^3"),
        Expr::Var.exp(num(2)).exp(num(3))
    )
}

#[test]
fn unclosed_paren() {
    assert_eq!(
        Expr::from_text("(1"),
        Err(LangError::UncloseParen(usize::MAX))
    );
    assert_eq!(Expr::from_text("(1 2"), Err(LangError::UncloseParen(3)));
}

#[test]
fn unexpected_token() {
    assert_eq!(Expr::from_text("+"), Err(LangError::UnexpectedToken(0)));
    // A lone opening parenthesis runs into the end sentinel while reading
    // the inner expression; that first failure is the one reported.
    assert_eq!(
        Expr::from_text("("),
        Err(LangError::UnexpectedToken(usize::MAX))
    );
    assert_eq!(
        Expr::from_text(""),
        Err(LangError::UnexpectedToken(usize::MAX))
    );
    assert_eq!(Expr::from_text("sin"), Err(LangError::UnexpectedToken(usize::MAX)));
}
