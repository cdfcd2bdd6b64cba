//! A small symbolic-algebra engine for single-variable expressions.
//!
//! Expression trees are built from a textual surface syntax, differentiated
//! symbolically with respect to the free variable `x`, and rendered back to
//! text. Numbers are exact signed decimals, with the base of the natural
//! logarithm kept as its own symbol, so every step the engine performs is
//! verified to compute exactly the term it promises.

pub mod expr;
pub mod lang;
pub mod num;

pub use expr::{Bin, Expr, Trig};
pub use lang::lex::{lex, Token, TokenType};
pub use lang::parse::parse;
pub use lang::LangError;
pub use num::{Dec, Digits, Real};
