//! The lexer: one line of text to a token stream.
//!
//! `lex_spec` states the scan exactly: whitespace is skipped; a run of
//! digits, dots and commas starting with a digit is one numeric literal and
//! may hold at most one separator; a run of letters must be a reserved word;
//! any other recognised symbol is its own token, and anything else is a
//! failure. Every token carries the index of its first character, and the
//! stream ends with the end sentinel.

use vstd::prelude::*;

use crate::lang::{LangError, LangErrorV};
use crate::num::{Dec, Digits, Real};
use vstd::math::{max, min};
use vstd::string::StrSliceExecFns;

verus! {

/// A token of the surface language.
#[derive(Debug)]
pub enum TokenType {
    OpenParen,
    CloseParen,
    Num(Real),
    Var,
    Plus,
    Minus,
    Star,
    Slash,
    Caret,
    Underscore,
    Log,
    Sin,
    Cos,
    Tan,
    Csc,
    Sec,
    Cot,
    END,
}

/// A token with the index of its first character.
#[derive(Debug)]
pub struct Token {
    pub token: TokenType,
    pub loc: usize,
}

/// The end sentinel, placed past every real token.
pub open spec fn end_token() -> Token {
    Token { token: TokenType::END, loc: usize::MAX }
}

impl Token {
    /// The end sentinel.
    pub fn end() -> (r: Token)
        ensures
            r == end_token(),
    {
        Token { token: TokenType::END, loc: usize::MAX }
    }
}

impl TokenType {
    /// This token at the given character index.
    pub fn at(self, loc: usize) -> (r: Token)
        ensures
            r == (Token { token: self, loc }),
    {
        Token { token: self, loc }
    }
}

/// Whitespace, which separates tokens and is discarded.
pub open spec fn is_space(c: char) -> bool {
    c == ' ' || c == '\t' || c == '\r' || c == '\n'
}

/// A decimal digit.
pub open spec fn is_digit(c: char) -> bool {
    '0' <= c && c <= '9'
}

/// The value of a decimal digit.
pub open spec fn digit_of(c: char) -> u8 {
    (((c as u32) - 48) as u8)
}

/// A decimal separator: dot or comma.
pub open spec fn is_sep(c: char) -> bool {
    c == '.' || c == ','
}

/// A character a numeric literal may continue with.
pub open spec fn is_num_char(c: char) -> bool {
    is_digit(c) || is_sep(c)
}

/// A letter, which words are made of.
pub open spec fn is_letter(c: char) -> bool {
    ('a' <= c && c <= 'z') || ('A' <= c && c <= 'Z')
}

/// The token of a single recognised symbol.
pub open spec fn symbol_of(c: char) -> Option<TokenType> {
    match c {
        '+' => Some(TokenType::Plus),
        '-' => Some(TokenType::Minus),
        '*' => Some(TokenType::Star),
        '/' => Some(TokenType::Slash),
        '^' => Some(TokenType::Caret),
        '_' => Some(TokenType::Underscore),
        '(' => Some(TokenType::OpenParen),
        ')' => Some(TokenType::CloseParen),
        _ => None,
    }
}

/// The token of a reserved word, the variable included.
pub open spec fn word_token(w: Seq<char>) -> Option<TokenType> {
    if w == seq!['l', 'o', 'g'] {
        Some(TokenType::Log)
    } else if w == seq!['s', 'i', 'n'] {
        Some(TokenType::Sin)
    } else if w == seq!['c', 'o', 's'] {
        Some(TokenType::Cos)
    } else if w == seq!['t', 'a', 'n'] {
        Some(TokenType::Tan)
    } else if w == seq!['c', 's', 'c'] {
        Some(TokenType::Csc)
    } else if w == seq!['s', 'e', 'c'] {
        Some(TokenType::Sec)
    } else if w == seq!['c', 'o', 't'] {
        Some(TokenType::Cot)
    } else if w == seq!['x'] {
        Some(TokenType::Var)
    } else {
        None
    }
}

/// Whether the input holds a line break before its final character.
pub open spec fn multi_line(s: Seq<char>) -> bool {
    exists|i: int| 0 <= i && i + 1 < s.len() && s[i] == '\n'
}

/// The first index at or after `i` that no numeric literal reaches.
pub open spec fn num_end(s: Seq<char>, i: int) -> int
    decreases s.len() - i,
{
    if i < s.len() && is_num_char(s[i]) {
        num_end(s, i + 1)
    } else {
        i
    }
}

/// The first index at or after `i` that no word reaches.
pub open spec fn word_end(s: Seq<char>, i: int) -> int
    decreases s.len() - i,
{
    if i < s.len() && is_letter(s[i]) {
        word_end(s, i + 1)
    } else {
        i
    }
}

/// The first decimal separator in `s[i..j)`, or `j` when there is none.
pub open spec fn sep_pos(s: Seq<char>, i: int, j: int) -> int
    decreases j - i,
{
    if i < j && i < s.len() {
        if is_sep(s[i]) {
            i
        } else {
            sep_pos(s, i + 1, j)
        }
    } else {
        j
    }
}

/// Digits of `s[i..j)` accumulated onto `acc`, least significant at the
/// head, skipping leading printed zeros.
pub open spec fn acc_whole(s: Seq<char>, i: int, j: int, acc: Digits) -> Digits
    decreases j - i,
{
    if i < j && i < s.len() {
        let d = digit_of(s[i]);
        let acc2 = if acc is Nil && d == 0 {
            Digits::Nil
        } else {
            Digits::Cons(d, Box::new(acc))
        };
        acc_whole(s, i + 1, j, acc2)
    } else {
        acc
    }
}

/// Digits of `s[i..j)` accumulated onto `acc`, last printed digit at the
/// head, keeping every digit.
pub open spec fn acc_frac(s: Seq<char>, i: int, j: int, acc: Digits) -> Digits
    decreases j - i,
{
    if i < j && i < s.len() {
        acc_frac(s, i + 1, j, Digits::Cons(digit_of(s[i]), Box::new(acc)))
    } else {
        acc
    }
}

/// Zeros stripped from the head: trailing printed zeros of a fraction.
pub open spec fn strip_zeros(d: Digits) -> Digits
    decreases d,
{
    match d {
        Digits::Cons(x, rest) => if x == 0 {
            strip_zeros(*rest)
        } else {
            d
        },
        Digits::Nil => d,
    }
}

/// The decimal a numeric literal run `s[i..j)` denotes: the digits before
/// the first separator, and the digits after it.
pub open spec fn run_dec(s: Seq<char>, i: int, j: int) -> Dec {
    let p = sep_pos(s, i, j);
    Dec {
        neg: false,
        whole: acc_whole(s, i, p, Digits::Nil),
        frac: strip_zeros(acc_frac(s, p + 1, j, Digits::Nil)),
    }
}

/// Whether the run `s[i..j)` holds a second decimal separator.
pub open spec fn run_two_seps(s: Seq<char>, i: int, j: int) -> bool {
    sep_pos(s, sep_pos(s, i, j) + 1, j) < j
}

/// The scan from index `i` on: the remaining tokens, or the first failure.
pub open spec fn scan(s: Seq<char>, i: int) -> Result<Seq<Token>, LangErrorV>
    decreases s.len() - i,
{
    if 0 <= i && i < s.len() {
        let c = s[i];
        if is_space(c) {
            scan(s, i + 1)
        } else if is_digit(c) {
            let j = min(max(num_end(s, i), i + 1), s.len() as int);
            if run_two_seps(s, i, j) {
                Err(LangErrorV::InvalidFloatFormat(i as usize))
            } else {
                match scan(s, j) {
                    Ok(rest) => Ok(
                        seq![
                            Token {
                                token: TokenType::Num(Real::Dec(run_dec(s, i, j))),
                                loc: i as usize,
                            },
                        ] + rest,
                    ),
                    Err(e) => Err(e),
                }
            }
        } else if is_letter(c) {
            let j = min(max(word_end(s, i), i + 1), s.len() as int);
            match word_token(s.subrange(i, j)) {
                Some(t) => match scan(s, j) {
                    Ok(rest) => Ok(seq![Token { token: t, loc: i as usize }] + rest),
                    Err(e) => Err(e),
                },
                None => Err(LangErrorV::InvalidWord(s.subrange(i, j), i as usize)),
            }
        } else {
            match symbol_of(c) {
                Some(t) => match scan(s, i + 1) {
                    Ok(rest) => Ok(seq![Token { token: t, loc: i as usize }] + rest),
                    Err(e) => Err(e),
                },
                None => Err(LangErrorV::InvalidSymbol(c, i as usize)),
            }
        }
    } else {
        Ok(seq![end_token()])
    }
}

/// What lexing an input yields: a failure for a broken line, else the scan
/// of its characters.
pub open spec fn lex_spec(s: Seq<char>) -> Result<Seq<Token>, LangErrorV> {
    if multi_line(s) {
        Err(LangErrorV::MultiLine)
    } else {
        scan(s, 0)
    }
}

/// Whether an executable lexing result is exactly the specified one.
pub open spec fn lex_matches(s: Seq<char>, r: Result<Vec<Token>, LangError>) -> bool {
    match lex_spec(s) {
        Ok(toks) => r is Ok && r->Ok_0@ == toks,
        Err(e) => r is Err && r->Err_0@ == e,
    }
}

} // verus!

verus! {

/// Scanning from `i` extends scanning from the start by the tokens read so
/// far: the loop invariant of the lexer.
pub open spec fn scan_link(s: Seq<char>, i: int, acc: Seq<Token>) -> bool {
    match scan(s, i) {
        Ok(rest) => scan(s, 0) == Ok::<Seq<Token>, LangErrorV>(acc + rest),
        Err(e) => scan(s, 0) == Err::<Seq<Token>, LangErrorV>(e),
    }
}

fn is_space_c(c: char) -> (r: bool)
    ensures
        r == is_space(c),
{
    c == ' ' || c == '\t' || c == '\r' || c == '\n'
}

fn is_digit_c(c: char) -> (r: bool)
    ensures
        r == is_digit(c),
{
    let u = c as u32;
    48 <= u && u <= 57
}

fn is_sep_c(c: char) -> (r: bool)
    ensures
        r == is_sep(c),
{
    c == '.' || c == ','
}

fn is_letter_c(c: char) -> (r: bool)
    ensures
        r == is_letter(c),
{
    let u = c as u32;
    (97 <= u && u <= 122) || (65 <= u && u <= 90)
}

fn digit_val(c: char) -> (r: u8)
    requires
        is_digit(c),
    ensures
        r == digit_of(c),
{
    ((c as u32) - 48) as u8
}

fn symbol_lookup(c: char) -> (r: Option<TokenType>)
    ensures
        r == symbol_of(c),
{
    match c {
        '+' => Some(TokenType::Plus),
        '-' => Some(TokenType::Minus),
        '*' => Some(TokenType::Star),
        '/' => Some(TokenType::Slash),
        '^' => Some(TokenType::Caret),
        '_' => Some(TokenType::Underscore),
        '(' => Some(TokenType::OpenParen),
        ')' => Some(TokenType::CloseParen),
        _ => None,
    }
}

/// Character-by-character equality of two text slices.
fn str_eq(a: &str, b: &str) -> (r: bool)
    ensures
        r == (a@ == b@),
{
    let la = a.unicode_len();
    let lb = b.unicode_len();
    if la != lb {
        proof {
            assert(a@ != b@);
        }
        return false;
    }
    let mut k: usize = 0;
    while k < la
        invariant
            k <= la,
            la == a@.len(),
            lb == b@.len(),
            la == lb,
            forall|m: int| 0 <= m < k ==> a@[m] == b@[m],
        decreases la - k,
    {
        if a.get_char(k) != b.get_char(k) {
            proof {
                assert(a@[k as int] != b@[k as int]);
            }
            return false;
        }
        k += 1;
    }
    proof {
        assert(a@ =~= b@);
    }
    true
}

fn keyword_of(w: &str) -> (r: Option<TokenType>)
    ensures
        r == word_token(w@),
{
    proof {
        reveal_strlit("log");
        reveal_strlit("sin");
        reveal_strlit("cos");
        reveal_strlit("tan");
        reveal_strlit("csc");
        reveal_strlit("sec");
        reveal_strlit("cot");
        reveal_strlit("x");
        assert("log"@ =~= seq!['l', 'o', 'g']);
        assert("sin"@ =~= seq!['s', 'i', 'n']);
        assert("cos"@ =~= seq!['c', 'o', 's']);
        assert("tan"@ =~= seq!['t', 'a', 'n']);
        assert("csc"@ =~= seq!['c', 's', 'c']);
        assert("sec"@ =~= seq!['s', 'e', 'c']);
        assert("cot"@ =~= seq!['c', 'o', 't']);
        assert("x"@ =~= seq!['x']);
    }
    if str_eq(w, "log") {
        Some(TokenType::Log)
    } else if str_eq(w, "sin") {
        Some(TokenType::Sin)
    } else if str_eq(w, "cos") {
        Some(TokenType::Cos)
    } else if str_eq(w, "tan") {
        Some(TokenType::Tan)
    } else if str_eq(w, "csc") {
        Some(TokenType::Csc)
    } else if str_eq(w, "sec") {
        Some(TokenType::Sec)
    } else if str_eq(w, "cot") {
        Some(TokenType::Cot)
    } else if str_eq(w, "x") {
        Some(TokenType::Var)
    } else {
        None
    }
}

/// Read the numeric literal `source[i..j)`: the digits before the first
/// separator and after it, refusing a second separator.
fn scan_number(source: &str, i: usize, j: usize) -> (r: Result<Dec, LangError>)
    requires
        j <= source@.len(),
        i < j,
        forall|k: int| i <= k < j ==> is_num_char(source@[k]),
    ensures
        match r {
            Ok(d) => !run_two_seps(source@, i as int, j as int) && d == run_dec(
                source@,
                i as int,
                j as int,
            ),
            Err(e) => run_two_seps(source@, i as int, j as int) && e@
                == LangErrorV::InvalidFloatFormat(i as usize),
        },
{
    let ghost s = source@;
    // Find the first separator.
    let mut p: usize = i;
    while p < j && !is_sep_c(source.get_char(p))
        invariant
            i <= p <= j,
            j <= s.len(),
            s == source@,
            forall|k: int| i <= k < j ==> is_num_char(s[k]),
            sep_pos(s, i as int, j as int) == sep_pos(s, p as int, j as int),
        decreases j - p,
    {
        p += 1;
    }
    proof {
        assert(sep_pos(s, i as int, j as int) == p as int);
    }
    // Digits before the separator.
    let mut whole = Digits::Nil;
    let mut k: usize = i;
    while k < p
        invariant
            i <= k <= p <= j,
            j <= s.len(),
            s == source@,
            forall|m: int| i <= m < j ==> is_num_char(s[m]),
            sep_pos(s, i as int, j as int) == p as int,
            acc_whole(s, i as int, p as int, Digits::Nil) == acc_whole(
                s,
                k as int,
                p as int,
                whole,
            ),
        decreases p - k,
    {
        let c = source.get_char(k);
        proof {
            lemma_sep_pos_clean(s, i as int, j as int, k as int);
        }
        let d = digit_val(c);
        whole = if d == 0 && matches!(whole, Digits::Nil) {
            Digits::Nil
        } else {
            Digits::Cons(d, Box::new(whole))
        };
        k += 1;
    }
    // Digits after the separator, refusing a second separator.
    let mut frac = Digits::Nil;
    if p < j {
        let mut k2: usize = p + 1;
        while k2 < j
            invariant
                p + 1 <= k2 <= j,
                p < j,
                j <= s.len(),
                s == source@,
                forall|m: int| i <= m < j ==> is_num_char(s[m]),
                i <= p,
                sep_pos(s, i as int, j as int) == p as int,
                sep_pos(s, p as int + 1, j as int) == sep_pos(s, k2 as int, j as int),
                acc_frac(s, p as int + 1, j as int, Digits::Nil) == acc_frac(
                    s,
                    k2 as int,
                    j as int,
                    frac,
                ),
            decreases j - k2,
        {
            let c = source.get_char(k2);
            if is_sep_c(c) {
                proof {
                    assert(sep_pos(s, k2 as int, j as int) == k2 as int);
                    assert(run_two_seps(s, i as int, j as int));
                }
                return Err(LangError::InvalidFloatFormat(i));
            }
            let d = digit_val(c);
            frac = Digits::Cons(d, Box::new(frac));
            k2 += 1;
        }
        proof {
            assert(sep_pos(s, p as int + 1, j as int) == j as int);
            assert(!run_two_seps(s, i as int, j as int));
        }
    } else {
        proof {
            assert(acc_frac(s, p as int + 1, j as int, Digits::Nil) == Digits::Nil);
            assert(sep_pos(s, p as int + 1, j as int) == j as int);
            assert(!run_two_seps(s, i as int, j as int));
        }
    }
    // Strip the trailing printed zeros of the fraction.
    loop
        invariant_except_break
            strip_zeros(acc_frac(s, sep_pos(s, i as int, j as int) + 1, j as int, Digits::Nil))
                == strip_zeros(frac),
        ensures
            strip_zeros(acc_frac(s, sep_pos(s, i as int, j as int) + 1, j as int, Digits::Nil))
                == frac,
        decreases frac,
    {
        match frac {
            Digits::Cons(x, rest) => {
                if x == 0 {
                    frac = *rest;
                } else {
                    frac = Digits::Cons(x, rest);
                    break ;
                }
            },
            Digits::Nil => {
                frac = Digits::Nil;
                break ;
            },
        }
    }
    Ok(Dec { neg: false, whole, frac })
}

/// Turn one line of text into its tokens, or report the first failure.
pub fn lex(source: &str) -> (r: Result<Vec<Token>, LangError>)
    ensures
        lex_matches(source@, r),
{
    let ghost s = source@;
    let n = source.unicode_len();
    // A line break anywhere before the final character is a failure.
    let mut i: usize = 0;
    while i < n
        invariant
            i <= n,
            n == s.len(),
            s == source@,
            forall|k: int| 0 <= k < i ==> !(s[k] == '\n' && k + 1 < n),
        decreases n - i,
    {
        let c = source.get_char(i);
        if c == '\n' && i + 1 < n {
            proof {
                assert(multi_line(s));
            }
            return Err(LangError::MultiLine);
        }
        i += 1;
    }
    proof {
        assert(!multi_line(s));
    }
    let mut toks: Vec<Token> = Vec::new();
    let mut at: usize = 0;
    proof {
        match scan(s, 0) {
            Ok(rest) => {
                assert(Seq::<Token>::empty() + rest =~= rest);
            },
            Err(_) => {},
        }
    }
    while at < n
        invariant
            at <= n,
            n == s.len(),
            s == source@,
            !multi_line(s),
            scan_link(s, at as int, toks@),
        decreases n - at,
    {
        let ghost prev = toks@;
        let c = source.get_char(at);
        if is_space_c(c) {
            at += 1;
        } else if is_digit_c(c) {
            // The numeric run.
            let mut j: usize = at;
            while j < n && is_num_char_c(source, j)
                invariant
                    at <= j <= n,
                    n == s.len(),
                    s == source@,
                    num_end(s, at as int) == num_end(s, j as int),
                    forall|k: int| at <= k < j ==> is_num_char(s[k]),
                decreases n - j,
            {
                j += 1;
            }
            proof {
                assert(num_end(s, at as int) == j as int);
                assert(j > at) by {
                    assert(is_num_char(s[at as int]));
                }
            }
            match scan_number(source, at, j) {
                Ok(d) => {
                    let tok = TokenType::Num(Real::Dec(d)).at(at);
                    toks.push(tok);
                    proof {
                        link_step(s, at as int, j as int, prev, tok, toks@);
                    }
                    at = j;
                },
                Err(e) => {
                    return Err(e);
                },
            }
        } else if is_letter_c(c) {
            // The word run.
            let mut j: usize = at;
            while j < n && is_letter_c_at(source, j)
                invariant
                    at <= j <= n,
                    n == s.len(),
                    s == source@,
                    word_end(s, at as int) == word_end(s, j as int),
                decreases n - j,
            {
                j += 1;
            }
            proof {
                assert(word_end(s, at as int) == j as int);
                assert(j > at) by {
                    assert(is_letter(s[at as int]));
                }
            }
            let w = source.substring_char(at, j);
            match keyword_of(w) {
                Some(t) => {
                    let tok = t.at(at);
                    toks.push(tok);
                    proof {
                        link_step(s, at as int, j as int, prev, tok, toks@);
                    }
                    at = j;
                },
                None => {
                    return Err(LangError::InvalidWord(w.to_owned(), at));
                },
            }
        } else {
            match symbol_lookup(c) {
                Some(t) => {
                    let tok = t.at(at);
                    toks.push(tok);
                    proof {
                        link_step(s, at as int, at as int + 1, prev, tok, toks@);
                    }
                    at += 1;
                },
                None => {
                    return Err(LangError::InvalidSymbol(c, at));
                },
            }
        }
    }
    let e = Token::end();
    toks.push(e);
    proof {
        match scan(s, n as int) {
            Ok(rest) => {
                assert(rest =~= seq![end_token()]);
            },
            Err(_) => {},
        }
        match scan(s, 0) {
            Ok(all) => {
                assert(toks@ =~= all);
            },
            Err(_) => {},
        }
    }
    Ok(toks)
}

fn is_num_char_c(source: &str, j: usize) -> (r: bool)
    requires
        j < source@.len(),
    ensures
        r == is_num_char(source@[j as int]),
{
    let c = source.get_char(j);
    is_digit_c(c) || is_sep_c(c)
}

fn is_letter_c_at(source: &str, j: usize) -> (r: bool)
    requires
        j < source@.len(),
    ensures
        r == is_letter(source@[j as int]),
{
    is_letter_c(source.get_char(j))
}

/// No character before the first separator of a run is itself a separator.
proof fn lemma_sep_pos_clean(s: Seq<char>, i: int, j: int, k: int)
    requires
        i <= k < sep_pos(s, i, j),
        k < s.len(),
    ensures
        !is_sep(s[k]),
    decreases k - i,
{
    if i < j && i < s.len() {
        if !is_sep(s[i]) && k > i {
            lemma_sep_pos_clean(s, i + 1, j, k);
        }
    }
}

/// One scanning step: when the specified scan at `i` yields one token and
/// continues at `j`, pushing that token keeps the loop invariant.
proof fn link_step(s: Seq<char>, i: int, j: int, prev: Seq<Token>, tok: Token, cur: Seq<Token>)
    requires
        scan_link(s, i, prev),
        cur == prev.push(tok),
        (match scan(s, i) {
            Ok(all) => match scan(s, j) {
                Ok(rest) => all == seq![tok] + rest,
                Err(e) => false,
            },
            Err(e2) => (match scan(s, j) {
                Ok(_) => false,
                Err(e3) => e2 == e3,
            }),
        }),
    ensures
        scan_link(s, j, cur),
{
    match scan(s, i) {
        Ok(all) => {
            match scan(s, j) {
                Ok(rest) => {
                    assert(prev + (seq![tok] + rest) =~= cur + rest);
                },
                Err(_) => {},
            }
        },
        Err(_) => {},
    }
}

} // verus!

verus! {

impl Clone for TokenType {
    /// An exact copy.
    fn clone(&self) -> (r: TokenType)
        ensures
            r == *self,
    {
        match self {
            TokenType::OpenParen => TokenType::OpenParen,
            TokenType::CloseParen => TokenType::CloseParen,
            TokenType::Num(n) => TokenType::Num(n.clone()),
            TokenType::Var => TokenType::Var,
            TokenType::Plus => TokenType::Plus,
            TokenType::Minus => TokenType::Minus,
            TokenType::Star => TokenType::Star,
            TokenType::Slash => TokenType::Slash,
            TokenType::Caret => TokenType::Caret,
            TokenType::Underscore => TokenType::Underscore,
            TokenType::Log => TokenType::Log,
            TokenType::Sin => TokenType::Sin,
            TokenType::Cos => TokenType::Cos,
            TokenType::Tan => TokenType::Tan,
            TokenType::Csc => TokenType::Csc,
            TokenType::Sec => TokenType::Sec,
            TokenType::Cot => TokenType::Cot,
            TokenType::END => TokenType::END,
        }
    }
}

impl Clone for Token {
    /// An exact copy.
    fn clone(&self) -> (r: Token)
        ensures
            r == *self,
    {
        Token { token: self.token.clone(), loc: self.loc }
    }
}

impl PartialEq for TokenType {
    /// Structural equality; numeric tokens compare by their exact value.
    fn eq(&self, other: &Self) -> (r: bool) {
        match (self, other) {
            (TokenType::OpenParen, TokenType::OpenParen) => true,
            (TokenType::CloseParen, TokenType::CloseParen) => true,
            (TokenType::Num(a), TokenType::Num(b)) => a.eq(b),
            (TokenType::Var, TokenType::Var) => true,
            (TokenType::Plus, TokenType::Plus) => true,
            (TokenType::Minus, TokenType::Minus) => true,
            (TokenType::Star, TokenType::Star) => true,
            (TokenType::Slash, TokenType::Slash) => true,
            (TokenType::Caret, TokenType::Caret) => true,
            (TokenType::Underscore, TokenType::Underscore) => true,
            (TokenType::Log, TokenType::Log) => true,
            (TokenType::Sin, TokenType::Sin) => true,
            (TokenType::Cos, TokenType::Cos) => true,
            (TokenType::Tan, TokenType::Tan) => true,
            (TokenType::Csc, TokenType::Csc) => true,
            (TokenType::Sec, TokenType::Sec) => true,
            (TokenType::Cot, TokenType::Cot) => true,
            (TokenType::END, TokenType::END) => true,
            _ => false,
        }
    }
}

impl vstd::std_specs::cmp::PartialEqSpecImpl for TokenType {
    open spec fn obeys_eq_spec() -> bool {
        true
    }

    open spec fn eq_spec(&self, other: &Self) -> bool {
        *self == *other
    }
}

impl PartialEq for Token {
    /// Structural equality: the same token at the same place.
    fn eq(&self, other: &Self) -> (r: bool) {
        self.token.eq(&other.token) && self.loc == other.loc
    }
}

impl vstd::std_specs::cmp::PartialEqSpecImpl for Token {
    open spec fn obeys_eq_spec() -> bool {
        true
    }

    open spec fn eq_spec(&self, other: &Self) -> bool {
        *self == *other
    }
}

} // verus!

verus! {

/// A token's numeric payload, if any, is canonical.
pub open spec fn token_wf(t: Token) -> bool {
    match t.token {
        TokenType::Num(r) => r.wf(),
        _ => true,
    }
}

/// Every numeric token in the stream is canonical.
pub open spec fn tokens_wf(ts: Seq<Token>) -> bool {
    forall|k: int| 0 <= k < ts.len() ==> token_wf(ts[k])
}

/// The separator search stays within its range.
pub proof fn lemma_sep_pos_range(s: Seq<char>, i: int, j: int)
    requires
        i <= j,
    ensures
        sep_pos(s, i, j) == j || (i <= sep_pos(s, i, j) < j),
    decreases j - i,
{
    if i < j && i < s.len() && !is_sep(s[i]) {
        lemma_sep_pos_range(s, i + 1, j);
    }
}

/// A numeric run ends within the text and spans numeric characters only.
pub proof fn lemma_num_end_range(s: Seq<char>, i: int)
    requires
        0 <= i <= s.len(),
    ensures
        i <= num_end(s, i) <= s.len(),
        forall|k: int| i <= k < num_end(s, i) ==> is_num_char(s[k]),
    decreases s.len() - i,
{
    if i < s.len() && is_num_char(s[i]) {
        lemma_num_end_range(s, i + 1);
    }
}

/// Accumulating digits keeps the whole part canonical.
pub proof fn lemma_acc_whole_wf(s: Seq<char>, i: int, j: int, acc: Digits)
    requires
        forall|k: int| i <= k < j && k < s.len() ==> is_digit(s[k]),
        acc.whole_wf(),
    ensures
        acc_whole(s, i, j, acc).whole_wf(),
    decreases j - i,
{
    if i < j && i < s.len() {
        let d = digit_of(s[i]);
        let acc2 = if acc is Nil && d == 0 {
            Digits::Nil
        } else {
            Digits::Cons(d, Box::new(acc))
        };
        assert(d < 10);
        lemma_acc_whole_wf(s, i + 1, j, acc2);
    }
}

/// Accumulating digits keeps every digit below ten.
pub proof fn lemma_acc_frac_ok(s: Seq<char>, i: int, j: int, acc: Digits)
    requires
        forall|k: int| i <= k < j && k < s.len() ==> is_digit(s[k]),
        acc.digits_ok(),
    ensures
        acc_frac(s, i, j, acc).digits_ok(),
    decreases j - i,
{
    if i < j && i < s.len() {
        lemma_acc_frac_ok(s, i + 1, j, Digits::Cons(digit_of(s[i]), Box::new(acc)));
    }
}

/// Stripping head zeros leaves a canonical fraction.
pub proof fn lemma_strip_zeros_wf(d: Digits)
    requires
        d.digits_ok(),
    ensures
        strip_zeros(d).frac_wf(),
    decreases d,
{
    match d {
        Digits::Cons(x, rest) => {
            if x == 0 {
                lemma_strip_zeros_wf(*rest);
            }
        },
        Digits::Nil => (),
    }
}

/// The decimal read from a one-separator numeric run is canonical.
pub proof fn lemma_run_dec_wf(s: Seq<char>, i: int, j: int)
    requires
        0 <= i <= j,
        forall|k: int| i <= k < j && k < s.len() ==> is_num_char(s[k]),
        !run_two_seps(s, i, j),
    ensures
        run_dec(s, i, j).wf(),
{
    let p = sep_pos(s, i, j);
    lemma_sep_pos_range(s, i, j);
    assert forall|k: int| i <= k < p && k < s.len() implies is_digit(s[k]) by {
        lemma_sep_pos_clean(s, i, j, k);
    }
    lemma_acc_whole_wf(s, i, p, Digits::Nil);
    if p < j {
        lemma_sep_pos_range(s, p + 1, j);
        assert forall|k: int| p + 1 <= k < j && k < s.len() implies is_digit(s[k]) by {
            lemma_sep_pos_clean(s, p + 1, j, k);
        }
    }
    lemma_acc_frac_ok(s, p + 1, j, Digits::Nil);
    lemma_strip_zeros_wf(acc_frac(s, p + 1, j, Digits::Nil));
}

/// Every token stream the scan yields holds canonical numbers only.
pub proof fn lemma_scan_wf(s: Seq<char>, i: int)
    ensures
        (match scan(s, i) {
            Ok(ts) => tokens_wf(ts),
            Err(_) => true,
        }),
    decreases s.len() - i,
{
    if 0 <= i && i < s.len() {
        let c = s[i];
        if is_space(c) {
            lemma_scan_wf(s, i + 1);
        } else if is_digit(c) {
            let j = min(max(num_end(s, i), i + 1), s.len() as int);
            lemma_scan_wf(s, j);
            lemma_num_end_range(s, i);
            if !run_two_seps(s, i, j) {
                lemma_run_dec_wf(s, i, j);
            }
        } else if is_letter(c) {
            let j = min(max(word_end(s, i), i + 1), s.len() as int);
            lemma_scan_wf(s, j);
        } else {
            lemma_scan_wf(s, i + 1);
        }
    }
}

} // verus!

verus! {

/// Peeling the last character off a whole-part accumulation.
pub proof fn lemma_acc_whole_last(s: Seq<char>, i: int, j: int, acc: Digits)
    requires
        i < j,
        j <= s.len(),
    ensures
        acc_whole(s, i, j, acc) == ({
            let a = acc_whole(s, i, j - 1, acc);
            let d = digit_of(s[j - 1]);
            if a is Nil && d == 0 {
                Digits::Nil
            } else {
                Digits::Cons(d, Box::new(a))
            }
        }),
    decreases j - i,
{
    reveal_with_fuel(acc_whole, 3);
    if i + 1 < j {
        let d0 = digit_of(s[i]);
        let acc2 = if acc is Nil && d0 == 0 {
            Digits::Nil
        } else {
            Digits::Cons(d0, Box::new(acc))
        };
        lemma_acc_whole_last(s, i + 1, j, acc2);
    }
}

/// Peeling the last character off a fraction accumulation.
pub proof fn lemma_acc_frac_last(s: Seq<char>, i: int, j: int, acc: Digits)
    requires
        i < j,
        j <= s.len(),
    ensures
        acc_frac(s, i, j, acc) == Digits::Cons(
            digit_of(s[j - 1]),
            Box::new(acc_frac(s, i, j - 1, acc)),
        ),
    decreases j - i,
{
    reveal_with_fuel(acc_frac, 3);
    if i + 1 < j {
        lemma_acc_frac_last(s, i + 1, j, Digits::Cons(digit_of(s[i]), Box::new(acc)));
    }
}

/// A run of numeric characters reaches the end of the text.
pub proof fn lemma_num_end_all(s: Seq<char>, i: int)
    requires
        0 <= i <= s.len(),
        forall|k: int| i <= k < s.len() ==> is_num_char(s[k]),
    ensures
        num_end(s, i) == s.len(),
    decreases s.len() - i,
{
    if i < s.len() {
        lemma_num_end_all(s, i + 1);
    }
}

/// A range without separators has none to find.
pub proof fn lemma_sep_pos_none(s: Seq<char>, i: int, j: int)
    requires
        i <= j,
        forall|k: int| i <= k < j && k < s.len() ==> !is_sep(s[k]),
    ensures
        sep_pos(s, i, j) == j,
    decreases j - i,
{
    if i < j && i < s.len() {
        lemma_sep_pos_none(s, i + 1, j);
    }
}

/// The first separator is where it stands.
pub proof fn lemma_sep_pos_found(s: Seq<char>, i: int, j: int, at: int)
    requires
        i <= at < j,
        at < s.len(),
        is_sep(s[at]),
        forall|k: int| i <= k < at ==> !is_sep(s[k]),
    ensures
        sep_pos(s, i, j) == at,
    decreases at - i,
{
    if i < at {
        lemma_sep_pos_found(s, i + 1, j, at);
    }
}

/// The lexer writes no sign: every numeric token it yields is a
/// non-negative decimal.
pub proof fn lemma_scan_nonneg(s: Seq<char>, i: int)
    ensures
        (match scan(s, i) {
            Ok(ts) => forall|k: int|
                0 <= k < ts.len() && ts[k].token is Num ==> ts[k].token->Num_0 is Dec && !(
                ts[k].token->Num_0->Dec_0.neg),
            Err(_) => true,
        }),
    decreases s.len() - i,
{
    if 0 <= i && i < s.len() {
        let c = s[i];
        if is_space(c) {
            lemma_scan_nonneg(s, i + 1);
        } else if is_digit(c) {
            let j = min(max(num_end(s, i), i + 1), s.len() as int);
            lemma_scan_nonneg(s, j);
        } else if is_letter(c) {
            let j = min(max(word_end(s, i), i + 1), s.len() as int);
            lemma_scan_nonneg(s, j);
        } else {
            lemma_scan_nonneg(s, i + 1);
        }
    }
}

} // verus!

verus! {

use crate::num::pow10;

/// The number the digit characters `s[i..j)` denote, read left to right
/// onto `v`.
pub open spec fn chars_val(s: Seq<char>, i: int, j: int, v: int) -> int
    decreases j - i,
{
    if i < j && i < s.len() {
        chars_val(s, i + 1, j, 10 * v + digit_of(s[i]))
    } else {
        v
    }
}

/// Accumulating whole-part digits computes exactly the characters' value.
pub proof fn lemma_acc_whole_val(s: Seq<char>, i: int, j: int, acc: Digits)
    ensures
        acc_whole(s, i, j, acc).val() == chars_val(s, i, j, acc.val() as int),
    decreases j - i,
{
    if i < j && i < s.len() {
        let d = digit_of(s[i]);
        let acc2 = if acc is Nil && d == 0 {
            Digits::Nil
        } else {
            Digits::Cons(d, Box::new(acc))
        };
        assert(acc2.val() == 10 * acc.val() + d);
        lemma_acc_whole_val(s, i + 1, j, acc2);
    }
}

/// Accumulating fraction digits computes exactly the characters' value,
/// one digit of length for each character.
pub proof fn lemma_acc_frac_val(s: Seq<char>, i: int, j: int, acc: Digits)
    requires
        j <= s.len(),
    ensures
        acc_frac(s, i, j, acc).val() == chars_val(s, i, j, acc.val() as int),
        acc_frac(s, i, j, acc).len() == acc.len() + (if i < j {
            j - i
        } else {
            0
        }),
    decreases j - i,
{
    if i < j && i < s.len() {
        lemma_acc_frac_val(s, i + 1, j, Digits::Cons(digit_of(s[i]), Box::new(acc)));
    }
}

/// Stripping head zeros divides the denoted number by the matching power
/// of ten exactly.
pub proof fn lemma_strip_zeros_val(d: Digits)
    ensures
        strip_zeros(d).len() <= d.len(),
        strip_zeros(d).val() * pow10((d.len() - strip_zeros(d).len()) as nat) == d.val(),
    decreases d,
{
    match d {
        Digits::Cons(x, rest) => {
            if x == 0 {
                lemma_strip_zeros_val(*rest);
                let st = strip_zeros(*rest);
                let k = (rest.len() - st.len()) as nat;
                let sv = st.val();
                assert(pow10(k + 1) == pow10(k) * 10) by {
                    crate::num::lemma_pow10_add(k, 1);
                    reveal_with_fuel(pow10, 2);
                }
                assert(sv * (pow10(k) * 10) == (sv * pow10(k)) * 10) by (nonlinear_arith);
                assert((sv * pow10(k)) * 10 == rest.val() * 10);
                assert(strip_zeros(d) == st);
                assert((d.len() - strip_zeros(d).len()) as nat == k + 1);
                assert(d.val() == 10 * rest.val());
                assert(sv * pow10(k + 1) == sv * (pow10(k) * 10));
                assert(strip_zeros(d).val() * pow10((d.len() - strip_zeros(d).len()) as nat)
                    == d.val());
            } else {
                assert(strip_zeros(d) == d);
                assert((d.len() - strip_zeros(d).len()) as nat == 0nat);
                assert(pow10((d.len() - strip_zeros(d).len()) as nat) == 1) by {
                    reveal_with_fuel(pow10, 2);
                }
                assert(strip_zeros(d).val() * pow10((d.len() - strip_zeros(d).len()) as nat)
                    == d.val() * 1) by (nonlinear_arith)
                    requires
                        strip_zeros(d).val() == d.val(),
                        pow10((d.len() - strip_zeros(d).len()) as nat) == 1,
                ;
            }
        },
        Digits::Nil => {
            assert(strip_zeros(d) == d);
            assert(pow10(0) == 1);
            assert(strip_zeros(d).val() * pow10((d.len() - strip_zeros(d).len()) as nat)
                == d.val()) by {
                assert(strip_zeros(d).val() == 0);
                assert(d.val() == 0);
                assert((d.len() - strip_zeros(d).len()) as nat == 0nat);
                assert(pow10(0nat) == 1);
            }
        },
    }
}

/// The decimal a numeric literal run yields denotes exactly the run's
/// value: in scaled terms, `num * 10^f == (w * 10^f + r) * 10^scale`, for
/// `w` the value of the digits before the separator, `r` the value of the
/// `f` digits after it.
pub proof fn lemma_run_dec_value(s: Seq<char>, i: int, j: int)
    requires
        0 <= i <= j <= s.len(),
        forall|k: int| i <= k < j ==> is_num_char(s[k]),
        !run_two_seps(s, i, j),
    ensures
        ({
            let d = run_dec(s, i, j);
            let p = sep_pos(s, i, j);
            let w = chars_val(s, i, p, 0);
            let r = chars_val(s, p + 1, j, 0);
            let f = if p < j {
                (j - p - 1) as nat
            } else {
                0nat
            };
            d.num() * pow10(f) == (w * pow10(f) + r) * pow10(d.scale())
        }),
{
    let d = run_dec(s, i, j);
    let p = sep_pos(s, i, j);
    let w = chars_val(s, i, p, 0);
    let r = chars_val(s, p + 1, j, 0);
    let f = if p < j {
        (j - p - 1) as nat
    } else {
        0nat
    };
    lemma_sep_pos_range(s, i, j);
    lemma_acc_whole_val(s, i, p, Digits::Nil);
    assert(d.whole.val() == w);
    let raw = acc_frac(s, p + 1, j, Digits::Nil);
    lemma_acc_frac_val(s, p + 1, j, Digits::Nil);
    assert(raw.val() == r);
    assert(raw.len() == f);
    lemma_strip_zeros_val(raw);
    let sc = d.scale();
    let k = (raw.len() - d.frac.len()) as nat;
    assert(d.frac == strip_zeros(raw));
    assert(d.frac.val() * pow10(k) == r);
    assert(sc + k == f);
    assert(!d.neg);
    assert(d.num() == d.whole.val() * pow10(sc) + d.frac.val());
    crate::num::lemma_pow10_add(sc, k);
    let a = pow10(sc) as int;
    let b = pow10(k) as int;
    let fv = d.frac.val() as int;
    assert(pow10(f) == a * b);
    assert((w * a + fv) * (a * b) == (w * (a * b) + fv * b) * a) by (nonlinear_arith);
    assert(d.num() * pow10(f) == (w * a + fv) * (a * b));
    assert((w * pow10(f) + r) * pow10(sc) == (w * (a * b) + fv * b) * a);
}

} // verus!
