//! The surface language: lexing and parsing failures, and the combined
//! text-to-term entry point.

use vstd::prelude::*;

use crate::expr::Expr;

pub mod lex;
pub mod parse;

verus! {

/// A failure while reading an expression, with the index of the character
/// it was found at.
#[derive(Debug)]
pub enum LangError {
    /// The input held more than one line.
    MultiLine,
    /// A numeric literal held more than one decimal separator.
    InvalidFloatFormat(usize),
    /// A character that is no part of the language.
    InvalidSymbol(char, usize),
    /// A word that is no reserved word of the language.
    InvalidWord(String, usize),
    /// An opening parenthesis without its closing one.
    UncloseParen(usize),
    /// A token in a position the grammar disallows.
    UnexpectedToken(usize),
}

/// The specification-level form of a failure, with the offending word as a
/// character sequence.
pub ghost enum LangErrorV {
    MultiLine,
    InvalidFloatFormat(usize),
    InvalidSymbol(char, usize),
    InvalidWord(Seq<char>, usize),
    UncloseParen(usize),
    UnexpectedToken(usize),
}

impl View for LangError {
    type V = LangErrorV;

    open spec fn view(&self) -> LangErrorV {
        match self {
            LangError::MultiLine => LangErrorV::MultiLine,
            LangError::InvalidFloatFormat(i) => LangErrorV::InvalidFloatFormat(*i),
            LangError::InvalidSymbol(c, i) => LangErrorV::InvalidSymbol(*c, *i),
            LangError::InvalidWord(w, i) => LangErrorV::InvalidWord(w@, *i),
            LangError::UncloseParen(i) => LangErrorV::UncloseParen(*i),
            LangError::UnexpectedToken(i) => LangErrorV::UnexpectedToken(*i),
        }
    }
}

impl PartialEq for LangError {
    /// Two failures are equal when they are the same failure at the same
    /// place, with the offending word compared by its characters.
    fn eq(&self, other: &Self) -> (r: bool) {
        match (self, other) {
            (LangError::MultiLine, LangError::MultiLine) => true,
            (LangError::InvalidFloatFormat(a), LangError::InvalidFloatFormat(b)) => a == b,
            (LangError::InvalidSymbol(c, a), LangError::InvalidSymbol(d, b)) => c == d && a == b,
            (LangError::InvalidWord(w, a), LangError::InvalidWord(v, b)) => w.eq(v) && a == b,
            (LangError::UncloseParen(a), LangError::UncloseParen(b)) => a == b,
            (LangError::UnexpectedToken(a), LangError::UnexpectedToken(b)) => a == b,
            _ => false,
        }
    }
}

impl vstd::std_specs::cmp::PartialEqSpecImpl for LangError {
    open spec fn obeys_eq_spec() -> bool {
        true
    }

    open spec fn eq_spec(&self, other: &Self) -> bool {
        self@ == other@
    }
}

impl Expr {
    /// Read a term from its textual form: lex, then parse.
    pub fn from_text(source: &str) -> (r: Result<Expr, LangError>)
        ensures
            crate::lang::parse::from_text_matches(source@, r),
            r is Ok ==> r->Ok_0.wf(),
    {
        match lex::lex(source) {
            Ok(tokens) => {
                proof {
                    parse::lemma_scan_end_terminated(source@, 0);
                    lex::lemma_scan_wf(source@, 0);
                }
                parse::parse(tokens)
            },
            Err(e) => Err(e),
        }
    }
}

} // verus!

verus! {

/// The printed digits of a digit list are decimal digit characters, one per
/// digit.
pub proof fn lemma_digits_chars(w: crate::num::Digits)
    requires
        w.digits_ok(),
    ensures
        crate::expr::display::digits_chars(w).len() == w.len(),
        forall|k: int|
            0 <= k < w.len() ==> crate::lang::lex::is_digit(
                #[trigger] crate::expr::display::digits_chars(w)[k],
            ),
    decreases w,
{
    match w {
        crate::num::Digits::Nil => (),
        crate::num::Digits::Cons(x, rest) => {
            lemma_digits_chars(*rest);
            assert(crate::lang::lex::is_digit(crate::expr::display::digit_char(x)));
        },
    }
}

/// Reading back the printed whole part rebuilds exactly the digit list.
pub proof fn lemma_whole_rebuild(s: Seq<char>, i: int, j: int, w: crate::num::Digits)
    requires
        w.whole_wf(),
        0 <= i <= j <= s.len(),
        s.subrange(i, j) == crate::expr::display::digits_chars(w),
        j - i == w.len(),
    ensures
        crate::lang::lex::acc_whole(s, i, j, crate::num::Digits::Nil) == w,
    decreases w,
{
    lemma_digits_chars(w);
    match w {
        crate::num::Digits::Nil => (),
        crate::num::Digits::Cons(x, rest) => {
            let cs = crate::expr::display::digits_chars(w);
            let rcs = crate::expr::display::digits_chars(*rest);
            lemma_digits_chars(*rest);
            assert(s.subrange(i, j - 1) =~= rcs) by {
                assert forall|k: int| 0 <= k < j - 1 - i implies s.subrange(i, j - 1)[k] == rcs[k]
                    by {
                    assert(s.subrange(i, j)[k] == rcs[k]);
                    assert(s.subrange(i, j - 1)[k] == s[i + k]);
                    assert(s.subrange(i, j)[k] == s[i + k]);
                }
            }
            lemma_whole_rebuild(s, i, j - 1, *rest);
            crate::lang::lex::lemma_acc_whole_last(s, i, j, crate::num::Digits::Nil);
            assert(s[j - 1] == cs[j - 1 - i]);
            assert(cs[j - 1 - i] == crate::expr::display::digit_char(x));
            assert(crate::lang::lex::digit_of(crate::expr::display::digit_char(x)) == x);
        },
    }
}

/// Reading back the printed fraction rebuilds exactly the digit list.
pub proof fn lemma_frac_rebuild(s: Seq<char>, i: int, j: int, w: crate::num::Digits)
    requires
        w.digits_ok(),
        0 <= i <= j <= s.len(),
        s.subrange(i, j) == crate::expr::display::digits_chars(w),
        j - i == w.len(),
    ensures
        crate::lang::lex::acc_frac(s, i, j, crate::num::Digits::Nil) == w,
    decreases w,
{
    lemma_digits_chars(w);
    match w {
        crate::num::Digits::Nil => (),
        crate::num::Digits::Cons(x, rest) => {
            let cs = crate::expr::display::digits_chars(w);
            let rcs = crate::expr::display::digits_chars(*rest);
            lemma_digits_chars(*rest);
            assert(s.subrange(i, j - 1) =~= rcs) by {
                assert forall|k: int| 0 <= k < j - 1 - i implies s.subrange(i, j - 1)[k] == rcs[k]
                    by {
                    assert(s.subrange(i, j)[k] == rcs[k]);
                    assert(s.subrange(i, j - 1)[k] == s[i + k]);
                    assert(s.subrange(i, j)[k] == s[i + k]);
                }
            }
            lemma_frac_rebuild(s, i, j - 1, *rest);
            crate::lang::lex::lemma_acc_frac_last(s, i, j, crate::num::Digits::Nil);
            assert(s[j - 1] == cs[j - 1 - i]);
            assert(cs[j - 1 - i] == crate::expr::display::digit_char(x));
            assert(crate::lang::lex::digit_of(crate::expr::display::digit_char(x)) == x);
        },
    }
}

} // verus!

verus! {

use crate::expr::display::{dec_chars, digits_chars, render_of};
use crate::lang::lex::{
    acc_frac, acc_whole, end_token, is_digit, is_num_char, is_sep, lex_spec, multi_line, num_end,
    scan, sep_pos, strip_zeros, Token, TokenType,
};
use crate::lang::parse::{p_add, parse_spec, Parsed};
use crate::num::{Dec, Digits, Real};

/// A digit character is neither a separator nor a line break.
proof fn lemma_digit_char_class(c: char)
    requires
        is_digit(c),
    ensures
        !is_sep(c),
        c != '\n',
        is_num_char(c),
{
}

/// Printing a canonical non-negative decimal and lexing the text back
/// yields exactly one numeric token holding that decimal.
pub proof fn lemma_dec_relex(d: Dec)
    requires
        d.wf(),
        !d.neg,
    ensures
        lex_spec(dec_chars(d)) == Ok::<Seq<Token>, LangErrorV>(
            seq![Token { token: TokenType::Num(Real::Dec(d)), loc: 0 }, end_token()],
        ),
{
    let cs = dec_chars(d);
    let wcs: Seq<char> = if d.whole is Nil {
        seq!['0']
    } else {
        digits_chars(d.whole)
    };
    let fcs: Seq<char> = if d.frac is Nil {
        Seq::empty()
    } else {
        seq!['.'] + digits_chars(d.frac)
    };
    assert(cs =~= wcs + fcs);
    lemma_digits_chars(d.whole);
    lemma_digits_chars(d.frac);
    let wl = wcs.len() as int;
    let n = cs.len() as int;
    assert forall|k: int| 0 <= k < wl implies is_digit(cs[k]) by {
        assert(cs[k] == wcs[k]);
        if d.whole is Nil {
            assert(wcs[k] == '0');
        }
    }
    if d.frac is Cons {
        assert(cs[wl] == '.');
        assert forall|k: int| wl + 1 <= k < n implies is_digit(cs[k]) by {
            assert(cs[k] == fcs[k - wl]);
            assert(fcs[k - wl] == digits_chars(d.frac)[k - wl - 1]);
        }
    }
    assert forall|k: int| 0 <= k < n implies is_num_char(cs[k]) && cs[k] != '\n' by {
        if k < wl {
            lemma_digit_char_class(cs[k]);
        } else if d.frac is Cons {
            if k == wl {
            } else {
                lemma_digit_char_class(cs[k]);
            }
        }
    }
    assert(!multi_line(cs));
    assert(is_digit(cs[0]));
    crate::lang::lex::lemma_num_end_all(cs, 0);
    assert(vstd::math::min(vstd::math::max(num_end(cs, 0), 1), n) == n);
    let p = sep_pos(cs, 0, n);
    if d.frac is Nil {
        crate::lang::lex::lemma_sep_pos_none(cs, 0, n);
        assert(p == n);
        assert(sep_pos(cs, n + 1, n) == n);
        assert(!crate::lang::lex::run_two_seps(cs, 0, n));
        assert(acc_frac(cs, n + 1, n, Digits::Nil) == Digits::Nil);
        assert(strip_zeros(Digits::Nil) == Digits::Nil);
    } else {
        crate::lang::lex::lemma_sep_pos_found(cs, 0, n, wl);
        assert(p == wl);
        crate::lang::lex::lemma_sep_pos_none(cs, wl + 1, n);
        assert(!crate::lang::lex::run_two_seps(cs, 0, n));
        assert(cs.subrange(wl + 1, n) =~= digits_chars(d.frac)) by {
            assert forall|k: int| 0 <= k < n - wl - 1 implies cs.subrange(wl + 1, n)[k]
                == digits_chars(d.frac)[k] by {
                assert(cs.subrange(wl + 1, n)[k] == cs[wl + 1 + k]);
                assert(cs[wl + 1 + k] == fcs[k + 1]);
            }
        }
        lemma_frac_rebuild(cs, wl + 1, n, d.frac);
        let f0 = d.frac->Cons_0;
        assert(f0 != 0);
        assert(strip_zeros(d.frac) == d.frac);
    }
    // The whole part rebuilds.
    if d.whole is Nil {
        assert(cs[0] == '0');
        assert(crate::lang::lex::digit_of('0') == 0);
        assert(acc_whole(cs, 0, 1, Digits::Nil) == acc_whole(cs, 1, 1, Digits::Nil)) by {
            reveal_with_fuel(acc_whole, 2);
        }
        assert(acc_whole(cs, 0, 1, Digits::Nil) == Digits::Nil);
        assert(p == 1);
    } else {
        assert(cs.subrange(0, wl) =~= digits_chars(d.whole)) by {
            assert forall|k: int| 0 <= k < wl implies cs.subrange(0, wl)[k] == digits_chars(
                d.whole,
            )[k] by {
                assert(cs.subrange(0, wl)[k] == cs[k]);
                assert(cs[k] == wcs[k]);
            }
        }
        lemma_whole_rebuild(cs, 0, wl, d.whole);
        assert(p == wl);
    }
    assert(crate::lang::lex::run_dec(cs, 0, n) == d);
    assert(scan(cs, n) == Ok::<Seq<Token>, LangErrorV>(seq![end_token()]));
    let tok = Token { token: TokenType::Num(Real::Dec(d)), loc: 0 };
    assert(scan(cs, 0) == Ok::<Seq<Token>, LangErrorV>(seq![tok] + seq![end_token()]));
    assert(seq![tok] + seq![end_token()] =~= seq![tok, end_token()]);
}

} // verus!

verus! {

/// A stream of one numeric token and the end sentinel parses to exactly
/// that number.
pub proof fn lemma_parse_single_num(t: Seq<Token>, d: Dec)
    requires
        t.len() == 2,
        t[0].token == TokenType::Num(Real::Dec(d)),
        t[1].token is END,
    ensures
        p_add(t, 0) == Parsed::Good(Expr::Num(Real::Dec(d)), 1),
        parse_spec(t) == Ok::<Expr, LangErrorV>(Expr::Num(Real::Dec(d))),
{
    let e = Expr::Num(Real::Dec(d));
    assert(crate::lang::parse::p_unit(t, 0) == Parsed::Good(e, 1));
    assert(crate::lang::parse::step_to(1, 1, 2) == 1);
    assert(crate::lang::parse::p_exp_more(t, e, 1) == Parsed::Good(e, 1));
    assert(crate::lang::parse::p_exp(t, 0) == Parsed::Good(e, 1));
    assert(crate::lang::parse::trig_of(t[0].token) is None);
    assert(crate::lang::parse::p_func(t, 0) == Parsed::Good(e, 1));
    assert(crate::lang::parse::p_mul_more(t, e, 1) == Parsed::Good(e, 1));
    assert(crate::lang::parse::p_mul(t, 0) == Parsed::Good(e, 1));
    assert(crate::lang::parse::p_add_more(t, e, 1) == Parsed::Good(e, 1));
    assert(p_add(t, 0) == Parsed::Good(e, 1));
}

/// What reading a term from text yields, stated over the characters alone.
pub open spec fn from_text_spec(s: Seq<char>) -> Result<Expr, LangErrorV> {
    match lex_spec(s) {
        Ok(toks) => parse_spec(toks),
        Err(v) => Err(v),
    }
}

/// Round trip for literals: a finite-decimal literal, read, printed and
/// read again, denotes exactly the same term, trailing zeros and all.
pub proof fn lemma_literal_round_trip(s: Seq<char>)
    requires
        (match lex_spec(s) {
            Ok(ts) => ts.len() == 2 && ts[0].token is Num,
            Err(_) => false,
        }),
    ensures
        from_text_spec(s) is Ok,
        from_text_spec(render_of(from_text_spec(s)->Ok_0)) == from_text_spec(s),
{
    let ts = lex_spec(s)->Ok_0;
    crate::lang::lex::lemma_scan_wf(s, 0);
    crate::lang::lex::lemma_scan_nonneg(s, 0);
    crate::lang::parse::lemma_scan_end_terminated(s, 0);
    let d = ts[0].token->Num_0->Dec_0;
    assert(crate::lang::lex::token_wf(ts[0]));
    assert(d.wf());
    assert(!d.neg);
    lemma_parse_single_num(ts, d);
    let e = Expr::Num(Real::Dec(d));
    assert(from_text_spec(s) == Ok::<Expr, LangErrorV>(e));
    assert(render_of(e) == dec_chars(d));
    lemma_dec_relex(d);
    let ts2 = lex_spec(dec_chars(d))->Ok_0;
    lemma_parse_single_num(ts2, d);
}

} // verus!
