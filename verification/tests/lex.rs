use stoat_prime::{lex, Dec, Digits, LangError, Real, Token, TokenType};

fn num_tok(n: u64) -> TokenType {
    TokenType::Num(Real::from_u64(n))
}

fn frac_tok(whole: u64, frac: &[u8]) -> TokenType {
    let mut digits = Digits::Nil;
    for &d in frac.iter() {
        digits = Digits::Cons(d, Box::new(digits));
    }
    let mut dec = Dec::from_u64(whole);
    dec.frac = digits;
    TokenType::Num(Real::Dec(dec))
}

#[test]
fn lex_simple() {
    let src = "1 + 2 * 3";
    assert_eq!(
        lex(src).unwrap(),
        vec![
            num_tok(1).at(0),
            TokenType::Plus.at(2),
            num_tok(2).at(4),
            TokenType::Star.at(6),
            num_tok(3).at(8),
            Token::end()
        ]
    )
}

#[test]
fn float() {
    let src = "0.4 - 0.1";
    assert_eq!(
        lex(src).unwrap(),
        vec![
            frac_tok(0, &[4]).at(0),
            TokenType::Minus.at(4),
            frac_tok(0, &[1]).at(6),
            Token::end()
        ]
    )
}

#[test]
fn function() {
    let src = "log sin cos tan";
    assert_eq!(
        lex(src).unwrap(),
        vec![
            TokenType::Log.at(0),
            TokenType::Sin.at(4),
            TokenType::Cos.at(8),
            TokenType::Tan.at(12),
            Token::end()
        ]
    )
}

#[test]
fn symbol() {
    let src = "+-/*()";
    assert_eq!(
        lex(src).unwrap(),
        vec![
            TokenType::Plus.at(0),
            TokenType::Minus.at(1),
            TokenType::Slash.at(2),
            TokenType::Star.at(3),
            TokenType::OpenParen.at(4),
            TokenType::CloseParen.at(5),
            Token::end()
        ]
    )
}

#[test]
fn multiline() {
    let src = "1\n2";
    assert_eq!(lex(src), Err(LangError::MultiLine))
}

#[test]
fn invalid_float() {
    let src = "1.1.1.2";
    assert_eq!(lex(src), Err(LangError::InvalidFloatFormat(0)))
}

#[test]
fn invalid_float_two_seps() {
    let src = "1.1.1";
    assert_eq!(lex(src), Err(LangError::InvalidFloatFormat(0)))
}

#[test]
fn invalid_symbol() {
    let src = "\"";
    assert_eq!(lex(src), Err(LangError::InvalidSymbol('"', 0)))
}

#[test]
fn invalid_word() {
    let src = "log foo";
    assert_eq!(
        lex(src),
        Err(LangError::InvalidWord(String::from("foo"), 4))
    )
}

#[test]
fn comma_separator() {
    let src = "1,5";
    assert_eq!(lex(src).unwrap(), vec![frac_tok(1, &[5]).at(0), Token::end()])
}

#[test]
fn normalised_literals() {
    // Leading zeros of the whole part and trailing zeros of the fraction
    // do not change the number.
    assert_eq!(lex("007.2500").unwrap(), lex("7.25").unwrap());
    assert_eq!(lex("0.0").unwrap(), lex("0").unwrap());
}

#[test]
fn trailing_newline_is_one_line() {
    let toks = lex("1\n").unwrap();
    assert_eq!(toks, vec![num_tok(1).at(0), Token::end()]);
}
