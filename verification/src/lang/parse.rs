//! The parser: a token stream to a term, by recursive descent.
//!
//! The grammar, loosest binding first: additive operators, multiplicative
//! operators, function application (a trigonometric word or `log` with an
//! optional `_base`), powers, and atoms (a parenthesised expression, a
//! number, or `x`). The `p_` functions state each rule exactly; the parser
//! computes exactly their result. Tokens after the first complete expression
//! are left unread, as the grammar's entry point demands nothing after it.

use vstd::prelude::*;

use crate::expr::combinator::{s_add, s_div, s_exp, s_log, s_mul, s_sub, s_trig};
use crate::expr::{Expr, Trig};
use crate::lang::lex::{lex_spec, Token, TokenType};
use crate::lang::{LangError, LangErrorV};
use crate::num::{dec_ten, Dec, Real};
use vstd::math::{max, min};

verus! {

/// The outcome of one grammar rule: a term and the index after it, or the
/// first failure.
pub ghost enum Parsed {
    Good(Expr, int),
    Bad(LangErrorV),
}

/// The next position a rule hands on: at least one past the operand start
/// and never past the end. The bounds never bind on a real parse; they make
/// the rules total.
pub open spec fn step_to(j: int, lo: int, len: int) -> int {
    min(max(j, lo), len)
}

/// Additive rule: a multiplicative operand, then any number of `+` or `-`
/// operands, grouped to the left.
pub open spec fn p_add(t: Seq<Token>, i: int) -> Parsed
    decreases t.len() - i, 4int,
{
    if 0 <= i && i < t.len() {
        match p_mul(t, i) {
            Parsed::Good(e, j) => p_add_more(t, e, step_to(j, i + 1, t.len() as int)),
            Parsed::Bad(v) => Parsed::Bad(v),
        }
    } else {
        Parsed::Bad(LangErrorV::UnexpectedToken(usize::MAX))
    }
}

/// The additive loop: while the next token is `+` or `-`, bind another
/// multiplicative operand to the left.
pub open spec fn p_add_more(t: Seq<Token>, left: Expr, i: int) -> Parsed
    decreases t.len() - i, 9int,
{
    if 0 <= i && i < t.len() && (t[i].token is Plus || t[i].token is Minus) {
        match p_mul(t, i + 1) {
            Parsed::Good(r, j) => {
                let e = if t[i].token is Plus {
                    s_add(left, r)
                } else {
                    s_sub(left, r)
                };
                p_add_more(t, e, step_to(j, i + 2, t.len() as int))
            },
            Parsed::Bad(v) => Parsed::Bad(v),
        }
    } else {
        Parsed::Good(left, i)
    }
}

/// Multiplicative rule: a function operand, then any number of `*` or `/`
/// operands, grouped to the left.
pub open spec fn p_mul(t: Seq<Token>, i: int) -> Parsed
    decreases t.len() - i, 3int,
{
    if 0 <= i && i < t.len() {
        match p_func(t, i) {
            Parsed::Good(e, j) => p_mul_more(t, e, step_to(j, i + 1, t.len() as int)),
            Parsed::Bad(v) => Parsed::Bad(v),
        }
    } else {
        Parsed::Bad(LangErrorV::UnexpectedToken(usize::MAX))
    }
}

/// The multiplicative loop: while the next token is `*` or `/`, bind
/// another function operand to the left.
pub open spec fn p_mul_more(t: Seq<Token>, left: Expr, i: int) -> Parsed
    decreases t.len() - i, 9int,
{
    if 0 <= i && i < t.len() && (t[i].token is Star || t[i].token is Slash) {
        match p_func(t, i + 1) {
            Parsed::Good(r, j) => {
                let e = if t[i].token is Star {
                    s_mul(left, r)
                } else {
                    s_div(left, r)
                };
                p_mul_more(t, e, step_to(j, i + 2, t.len() as int))
            },
            Parsed::Bad(v) => Parsed::Bad(v),
        }
    } else {
        Parsed::Good(left, i)
    }
}

/// The trigonometric function a word token names.
pub open spec fn trig_of(t: TokenType) -> Option<Trig> {
    match t {
        TokenType::Sin => Some(Trig::Sin),
        TokenType::Cos => Some(Trig::Cos),
        TokenType::Tan => Some(Trig::Tan),
        TokenType::Csc => Some(Trig::Csc),
        TokenType::Sec => Some(Trig::Sec),
        TokenType::Cot => Some(Trig::Cot),
        _ => None,
    }
}

/// Function rule: a trigonometric word applied to a power, `log` with an
/// optional `_base` power and then its argument power, or a bare power.
pub open spec fn p_func(t: Seq<Token>, i: int) -> Parsed
    decreases t.len() - i, 2int,
{
    if 0 <= i && i < t.len() {
        match trig_of(t[i].token) {
            Some(func) => match p_exp(t, i + 1) {
                Parsed::Good(e, j) => Parsed::Good(s_trig(func, e), j),
                Parsed::Bad(v) => Parsed::Bad(v),
            },
            None => if t[i].token is Log {
                if i + 1 < t.len() && t[i + 1].token is Underscore {
                    match p_exp(t, i + 2) {
                        Parsed::Good(base, j) => match p_exp(
                            t,
                            step_to(j, i + 3, t.len() as int),
                        ) {
                            Parsed::Good(arg, k) => Parsed::Good(s_log(base, arg), k),
                            Parsed::Bad(v) => Parsed::Bad(v),
                        },
                        Parsed::Bad(v) => Parsed::Bad(v),
                    }
                } else {
                    match p_exp(t, i + 1) {
                        Parsed::Good(arg, j) => Parsed::Good(
                            s_log(Expr::Num(Real::Dec(dec_ten())), arg),
                            j,
                        ),
                        Parsed::Bad(v) => Parsed::Bad(v),
                    }
                }
            } else {
                p_exp(t, i)
            },
        }
    } else {
        Parsed::Bad(LangErrorV::UnexpectedToken(usize::MAX))
    }
}

/// Power rule: an atom, then any number of `^` atoms, grouped to the left.
pub open spec fn p_exp(t: Seq<Token>, i: int) -> Parsed
    decreases t.len() - i, 1int,
{
    if 0 <= i && i < t.len() {
        match p_unit(t, i) {
            Parsed::Good(e, j) => p_exp_more(t, e, step_to(j, i + 1, t.len() as int)),
            Parsed::Bad(v) => Parsed::Bad(v),
        }
    } else {
        Parsed::Bad(LangErrorV::UnexpectedToken(usize::MAX))
    }
}

/// The power loop: while the next token is `^`, bind another atom to the
/// left.
pub open spec fn p_exp_more(t: Seq<Token>, left: Expr, i: int) -> Parsed
    decreases t.len() - i, 9int,
{
    if 0 <= i && i < t.len() && t[i].token is Caret {
        match p_unit(t, i + 1) {
            Parsed::Good(r, j) => p_exp_more(t, s_exp(left, r), step_to(j, i + 2, t.len() as int)),
            Parsed::Bad(v) => Parsed::Bad(v),
        }
    } else {
        Parsed::Good(left, i)
    }
}

/// Atom rule: a parenthesised expression, a number, or the variable.
/// Any other token, the end sentinel included, is unexpected; an opening
/// parenthesis whose expression is not followed by `)` is unclosed.
pub open spec fn p_unit(t: Seq<Token>, i: int) -> Parsed
    decreases t.len() - i, 0int,
{
    if 0 <= i && i < t.len() {
        match t[i].token {
            TokenType::OpenParen => match p_add(t, i + 1) {
                Parsed::Good(e, j) => if 0 <= j && j < t.len() && t[j].token is CloseParen {
                    Parsed::Good(e, j + 1)
                } else {
                    Parsed::Bad(
                        LangErrorV::UncloseParen(
                            if 0 <= j && j < t.len() {
                                t[j].loc
                            } else {
                                usize::MAX
                            },
                        ),
                    )
                },
                Parsed::Bad(v) => Parsed::Bad(v),
            },
            TokenType::Num(n) => Parsed::Good(Expr::Num(n), i + 1),
            TokenType::Var => Parsed::Good(Expr::Var, i + 1),
            _ => Parsed::Bad(LangErrorV::UnexpectedToken(t[i].loc)),
        }
    } else {
        Parsed::Bad(LangErrorV::UnexpectedToken(usize::MAX))
    }
}

/// What parsing a token stream yields: the term of the leading expression,
/// or the first failure.
pub open spec fn parse_spec(t: Seq<Token>) -> Result<Expr, LangErrorV> {
    match p_add(t, 0) {
        Parsed::Good(e, _) => Ok(e),
        Parsed::Bad(v) => Err(v),
    }
}

/// A token stream the parser accepts as input: at least the end sentinel,
/// which the lexer always places last.
pub open spec fn end_terminated(t: Seq<Token>) -> bool {
    t.len() >= 1 && t[t.len() - 1].token is END
}

/// Whether an executable parsing result is exactly the specified one.
pub open spec fn parse_matches(t: Seq<Token>, r: Result<Expr, LangError>) -> bool {
    match parse_spec(t) {
        Ok(e) => r is Ok && r->Ok_0 == e,
        Err(v) => r is Err && r->Err_0@ == v,
    }
}

/// Whether reading a term from text yields exactly what lexing and then
/// parsing specify.
pub open spec fn from_text_matches(s: Seq<char>, r: Result<Expr, LangError>) -> bool {
    match lex_spec(s) {
        Ok(toks) => parse_matches(toks, r),
        Err(v) => r is Err && r->Err_0@ == v,
    }
}

/// Every token stream the scan yields ends with the end sentinel.
pub proof fn lemma_scan_end_terminated(s: Seq<char>, i: int)
    ensures
        (match crate::lang::lex::scan(s, i) {
            Ok(ts) => end_terminated(ts),
            Err(_) => true,
        }),
    decreases s.len() - i,
{
    if 0 <= i && i < s.len() {
        let c = s[i];
        if crate::lang::lex::is_space(c) {
            lemma_scan_end_terminated(s, i + 1);
        } else if crate::lang::lex::is_digit(c) {
            let j = min(max(crate::lang::lex::num_end(s, i), i + 1), s.len() as int);
            lemma_scan_end_terminated(s, j);
        } else if crate::lang::lex::is_letter(c) {
            let j = min(max(crate::lang::lex::word_end(s, i), i + 1), s.len() as int);
            lemma_scan_end_terminated(s, j);
        } else {
            lemma_scan_end_terminated(s, i + 1);
        }
    }
}

type Res<T> = Result<T, LangError>;

/// The parser's cursor over the token stream.
pub struct Parser {
    tokens: Vec<Token>,
    pos: usize,
}

impl Parser {
    /// The stream is end-terminated and the cursor rests on a token.
    spec fn wf(self) -> bool {
        end_terminated(self.tokens@) && self.pos < self.tokens@.len()
    }

    /// The result and cursor a rule's outcome demands.
    spec fn steps(self, before: Parser, p: Parsed, r: Res<Expr>) -> bool {
        &&& self.tokens@ == before.tokens@
        &&& match p {
            Parsed::Good(e, j) => r is Ok && r->Ok_0 == e && self.pos == j && self.wf()
                && self.pos > before.pos,
            Parsed::Bad(v) => r is Err && r->Err_0@ == v,
        }
    }

    fn parse(&mut self) -> (r: Res<Expr>)
        requires
            old(self).wf(),
        ensures
            final(self).steps(*old(self), p_add(old(self).tokens@, old(self).pos as int), r),
        decreases old(self).tokens@.len() - old(self).pos, 5int,
    {
        self.parse_add_bin()
    }

    #[verifier::loop_isolation(false)]
    #[verifier::rlimit(50)]
    fn parse_add_bin(&mut self) -> (r: Res<Expr>)
        requires
            old(self).wf(),
        ensures
            final(self).steps(*old(self), p_add(old(self).tokens@, old(self).pos as int), r),
        decreases old(self).tokens@.len() - old(self).pos, 4int,
    {
        let ghost t = self.tokens@;
        let ghost i0 = self.pos as int;
        let mut left = match self.parse_mul_bin() {
            Ok(e) => e,
            Err(e) => {
                return Err(e);
            },
        };
        proof {
            assert(step_to(self.pos as int, i0 + 1, t.len() as int) == self.pos as int);
        }
        while matches!(self.curr(), TokenType::Plus | TokenType::Minus)
            invariant
                self.wf(),
                self.tokens@ == t,
                self.pos > i0,
                p_add(t, i0) == p_add_more(t, left, self.pos as int),
            decreases self.tokens@.len() - self.pos,
        {
            let ghost opi = self.pos as int;
            let ghost before = p_add_more(t, left, opi);
            let op = self.next();
            let right = match self.parse_mul_bin() {
                Ok(e) => e,
                Err(e) => {
                    proof {
                        assert(before == Parsed::Bad(e@));
                    }
                    return Err(e);
                },
            };
            proof {
                assert(step_to(self.pos as int, opi + 2, t.len() as int) == self.pos as int);
            }
            left = match op {
                TokenType::Plus => left.add(right),
                _ => left.sub(right),
            };
            proof {
                assert(before == p_add_more(t, left, self.pos as int));
            }
        }
        Ok(left)
    }

    #[verifier::loop_isolation(false)]
    #[verifier::rlimit(50)]
    fn parse_mul_bin(&mut self) -> (r: Res<Expr>)
        requires
            old(self).wf(),
        ensures
            final(self).steps(*old(self), p_mul(old(self).tokens@, old(self).pos as int), r),
        decreases old(self).tokens@.len() - old(self).pos, 3int,
    {
        let ghost t = self.tokens@;
        let ghost i0 = self.pos as int;
        let mut left = match self.parse_func() {
            Ok(e) => e,
            Err(e) => {
                return Err(e);
            },
        };
        proof {
            assert(step_to(self.pos as int, i0 + 1, t.len() as int) == self.pos as int);
        }
        while matches!(self.curr(), TokenType::Star | TokenType::Slash)
            invariant
                self.wf(),
                self.tokens@ == t,
                self.pos > i0,
                p_mul(t, i0) == p_mul_more(t, left, self.pos as int),
            decreases self.tokens@.len() - self.pos,
        {
            let ghost opi = self.pos as int;
            let ghost before = p_mul_more(t, left, opi);
            let op = self.next();
            let right = match self.parse_func() {
                Ok(e) => e,
                Err(e) => {
                    proof {
                        assert(before == Parsed::Bad(e@));
                    }
                    return Err(e);
                },
            };
            proof {
                assert(step_to(self.pos as int, opi + 2, t.len() as int) == self.pos as int);
            }
            left = match op {
                TokenType::Star => left.mul(right),
                _ => left.div(right),
            };
            proof {
                assert(before == p_mul_more(t, left, self.pos as int));
            }
        }
        Ok(left)
    }

    fn parse_func(&mut self) -> (r: Res<Expr>)
        requires
            old(self).wf(),
        ensures
            final(self).steps(*old(self), p_func(old(self).tokens@, old(self).pos as int), r),
        decreases old(self).tokens@.len() - old(self).pos, 2int,
    {
        let func = match self.curr() {
            TokenType::Sin => Some(Trig::Sin),
            TokenType::Cos => Some(Trig::Cos),
            TokenType::Tan => Some(Trig::Tan),
            TokenType::Csc => Some(Trig::Csc),
            TokenType::Sec => Some(Trig::Sec),
            TokenType::Cot => Some(Trig::Cot),
            _ => None,
        };
        match func {
            Some(func) => {
                self.next();
                match self.parse_exp_bin() {
                    Ok(e) => Ok(e.trig(func)),
                    Err(e) => Err(e),
                }
            },
            None => {
                if matches!(self.curr(), TokenType::Log) {
                    self.next();
                    let base = if matches!(self.curr(), TokenType::Underscore) {
                        self.next();
                        match self.parse_exp_bin() {
                            Ok(e) => e,
                            Err(e) => {
                                return Err(e);
                            },
                        }
                    } else {
                        Expr::Num(Real::Dec(Dec::ten()))
                    };
                    match self.parse_exp_bin() {
                        Ok(arg) => Ok(arg.log(base)),
                        Err(e) => Err(e),
                    }
                } else {
                    self.parse_exp_bin()
                }
            },
        }
    }

    #[verifier::loop_isolation(false)]
    #[verifier::rlimit(50)]
    fn parse_exp_bin(&mut self) -> (r: Res<Expr>)
        requires
            old(self).wf(),
        ensures
            final(self).steps(*old(self), p_exp(old(self).tokens@, old(self).pos as int), r),
        decreases old(self).tokens@.len() - old(self).pos, 1int,
    {
        let ghost t = self.tokens@;
        let ghost i0 = self.pos as int;
        let mut left = match self.parse_unit() {
            Ok(e) => e,
            Err(e) => {
                return Err(e);
            },
        };
        proof {
            assert(step_to(self.pos as int, i0 + 1, t.len() as int) == self.pos as int);
        }
        while matches!(self.curr(), TokenType::Caret)
            invariant
                self.wf(),
                self.tokens@ == t,
                self.pos > i0,
                p_exp(t, i0) == p_exp_more(t, left, self.pos as int),
            decreases self.tokens@.len() - self.pos,
        {
            let ghost opi = self.pos as int;
            let ghost before = p_exp_more(t, left, opi);
            self.next();
            let right = match self.parse_unit() {
                Ok(e) => e,
                Err(e) => {
                    proof {
                        assert(before == Parsed::Bad(e@));
                    }
                    return Err(e);
                },
            };
            proof {
                assert(step_to(self.pos as int, opi + 2, t.len() as int) == self.pos as int);
            }
            left = left.exp(right);
            proof {
                assert(before == p_exp_more(t, left, self.pos as int));
            }
        }
        Ok(left)
    }

    fn parse_unit(&mut self) -> (r: Res<Expr>)
        requires
            old(self).wf(),
        ensures
            final(self).steps(*old(self), p_unit(old(self).tokens@, old(self).pos as int), r),
        decreases old(self).tokens@.len() - old(self).pos, 0int,
    {
        let t = self.next_token();
        match t.token {
            TokenType::OpenParen => {
                let temp = match self.parse() {
                    Ok(e) => e,
                    Err(e) => {
                        return Err(e);
                    },
                };
                if self.expect_close() {
                    self.next();
                    Ok(temp)
                } else {
                    Err(LangError::UncloseParen(self.next_token().loc))
                }
            },
            TokenType::Num(n) => Ok(Expr::Num(n)),
            TokenType::Var => Ok(Expr::Var),
            _ => Err(LangError::UnexpectedToken(t.loc)),
        }
    }

    fn curr(&self) -> (r: &TokenType)
        requires
            self.pos < self.tokens@.len(),
        ensures
            *r == self.tokens@[self.pos as int].token,
    {
        &self.tokens[self.pos].token
    }

    fn next(&mut self) -> (r: TokenType)
        requires
            old(self).pos < old(self).tokens@.len(),
        ensures
            r == old(self).tokens@[old(self).pos as int].token,
            final(self).tokens == old(self).tokens,
            final(self).pos == old(self).pos + 1,
    {
        self.next_token().token
    }

    fn next_token(&mut self) -> (r: Token)
        requires
            old(self).pos < old(self).tokens@.len(),
        ensures
            r == old(self).tokens@[old(self).pos as int],
            final(self).tokens == old(self).tokens,
            final(self).pos == old(self).pos + 1,
    {
        let n = self.tokens.len();
        let tok = self.tokens[self.pos].clone();
        self.pos = self.pos + 1;
        proof {
            assert(self.pos <= n);
        }
        tok
    }

    fn expect_close(&self) -> (r: bool)
        requires
            self.pos < self.tokens@.len(),
        ensures
            r == (self.tokens@[self.pos as int].token is CloseParen),
    {
        matches!(self.curr(), TokenType::CloseParen)
    }
}

/// Parse a token stream into the term of its leading expression. The stream
/// must end with the end sentinel, as every lexed stream does.
pub fn parse(tokens: Vec<Token>) -> (r: Res<Expr>)
    requires
        end_terminated(tokens@),
    ensures
        parse_matches(tokens@, r),
        crate::lang::lex::tokens_wf(tokens@) && r is Ok ==> r->Ok_0.wf(),
{
    proof {
        if crate::lang::lex::tokens_wf(tokens@) {
            lemma_p_add_wf(tokens@, 0);
        }
    }
    let mut parser = Parser { tokens, pos: 0 };
    parser.parse()
}

} // verus!

verus! {

/// A rule's outcome holds a well-formed term when the stream's numbers are
/// canonical.
pub open spec fn parsed_wf(p: Parsed) -> bool {
    match p {
        Parsed::Good(e, _) => e.wf(),
        Parsed::Bad(_) => true,
    }
}

/// The additive rule yields well-formed terms on canonical streams.
pub proof fn lemma_p_add_wf(t: Seq<Token>, i: int)
    requires
        crate::lang::lex::tokens_wf(t),
    ensures
        parsed_wf(p_add(t, i)),
    decreases t.len() - i, 4int,
{
    if 0 <= i && i < t.len() {
        lemma_p_mul_wf(t, i);
        match p_mul(t, i) {
            Parsed::Good(e, j) => {
                lemma_p_add_more_wf(t, e, step_to(j, i + 1, t.len() as int));
            },
            Parsed::Bad(_) => (),
        }
    }
}

proof fn lemma_p_add_more_wf(t: Seq<Token>, left: Expr, i: int)
    requires
        crate::lang::lex::tokens_wf(t),
        left.wf(),
    ensures
        parsed_wf(p_add_more(t, left, i)),
    decreases t.len() - i, 9int,
{
    if 0 <= i && i < t.len() && (t[i].token is Plus || t[i].token is Minus) {
        lemma_p_mul_wf(t, i + 1);
        match p_mul(t, i + 1) {
            Parsed::Good(r, j) => {
                let e = if t[i].token is Plus {
                    s_add(left, r)
                } else {
                    s_sub(left, r)
                };
                lemma_p_add_more_wf(t, e, step_to(j, i + 2, t.len() as int));
            },
            Parsed::Bad(_) => (),
        }
    }
}

proof fn lemma_p_mul_wf(t: Seq<Token>, i: int)
    requires
        crate::lang::lex::tokens_wf(t),
    ensures
        parsed_wf(p_mul(t, i)),
    decreases t.len() - i, 3int,
{
    if 0 <= i && i < t.len() {
        lemma_p_func_wf(t, i);
        match p_func(t, i) {
            Parsed::Good(e, j) => {
                lemma_p_mul_more_wf(t, e, step_to(j, i + 1, t.len() as int));
            },
            Parsed::Bad(_) => (),
        }
    }
}

proof fn lemma_p_mul_more_wf(t: Seq<Token>, left: Expr, i: int)
    requires
        crate::lang::lex::tokens_wf(t),
        left.wf(),
    ensures
        parsed_wf(p_mul_more(t, left, i)),
    decreases t.len() - i, 9int,
{
    if 0 <= i && i < t.len() && (t[i].token is Star || t[i].token is Slash) {
        lemma_p_func_wf(t, i + 1);
        match p_func(t, i + 1) {
            Parsed::Good(r, j) => {
                let e = if t[i].token is Star {
                    s_mul(left, r)
                } else {
                    s_div(left, r)
                };
                lemma_p_mul_more_wf(t, e, step_to(j, i + 2, t.len() as int));
            },
            Parsed::Bad(_) => (),
        }
    }
}

#[verifier::rlimit(50)]
proof fn lemma_p_func_wf(t: Seq<Token>, i: int)
    requires
        crate::lang::lex::tokens_wf(t),
    ensures
        parsed_wf(p_func(t, i)),
    decreases t.len() - i, 2int,
{
    reveal_with_fuel(Expr::wf, 3);
    if 0 <= i && i < t.len() {
        match trig_of(t[i].token) {
            Some(_) => {
                lemma_p_exp_wf(t, i + 1);
            },
            None => {
                if t[i].token is Log {
                    if i + 1 < t.len() && t[i + 1].token is Underscore {
                        lemma_p_exp_wf(t, i + 2);
                        match p_exp(t, i + 2) {
                            Parsed::Good(base, j) => {
                                lemma_p_exp_wf(t, step_to(j, i + 3, t.len() as int));
                            },
                            Parsed::Bad(_) => (),
                        }
                    } else {
                        lemma_p_exp_wf(t, i + 1);
                        crate::num::lemma_const_wf();
                    }
                } else {
                    lemma_p_exp_wf(t, i);
                }
            },
        }
    }
}

proof fn lemma_p_exp_wf(t: Seq<Token>, i: int)
    requires
        crate::lang::lex::tokens_wf(t),
    ensures
        parsed_wf(p_exp(t, i)),
    decreases t.len() - i, 1int,
{
    if 0 <= i && i < t.len() {
        lemma_p_unit_wf(t, i);
        match p_unit(t, i) {
            Parsed::Good(e, j) => {
                lemma_p_exp_more_wf(t, e, step_to(j, i + 1, t.len() as int));
            },
            Parsed::Bad(_) => (),
        }
    }
}

proof fn lemma_p_exp_more_wf(t: Seq<Token>, left: Expr, i: int)
    requires
        crate::lang::lex::tokens_wf(t),
        left.wf(),
    ensures
        parsed_wf(p_exp_more(t, left, i)),
    decreases t.len() - i, 9int,
{
    if 0 <= i && i < t.len() && t[i].token is Caret {
        lemma_p_unit_wf(t, i + 1);
        match p_unit(t, i + 1) {
            Parsed::Good(r, j) => {
                lemma_p_exp_more_wf(t, s_exp(left, r), step_to(j, i + 2, t.len() as int));
            },
            Parsed::Bad(_) => (),
        }
    }
}

proof fn lemma_p_unit_wf(t: Seq<Token>, i: int)
    requires
        crate::lang::lex::tokens_wf(t),
    ensures
        parsed_wf(p_unit(t, i)),
    decreases t.len() - i, 0int,
{
    if 0 <= i && i < t.len() {
        match t[i].token {
            TokenType::OpenParen => {
                lemma_p_add_wf(t, i + 1);
            },
            TokenType::Num(n) => {
                assert(crate::lang::lex::token_wf(t[i]));
            },
            _ => (),
        }
    }
}

/// What the surface language hands out is always well-formed: a term read
/// from text has every numeric constant in canonical form.
pub proof fn lemma_from_text_wf(s: Seq<char>)
    ensures
        (match lex_spec(s) {
            Ok(toks) => parsed_wf(p_add(toks, 0)),
            Err(_) => true,
        }),
{
    match lex_spec(s) {
        Ok(toks) => {
            crate::lang::lex::lemma_scan_wf(s, 0);
            lemma_p_add_wf(toks, 0);
        },
        Err(_) => (),
    }
}

} // verus!
