//! The expression tree produced by the parser.

use vstd::prelude::*;

verus! {

/// A parsed arithmetic expression, with precedence and grouping already
/// resolved structurally.
///
/// A numeric literal is recorded as the byte span `lo..hi` of its text in
/// the input it was parsed from; the parser guarantees the span covers a
/// well-formed decimal literal of that input.
#[derive(Debug, PartialEq, Eq)]
pub enum Expr {
    Num { lo: usize, hi: usize },
    Neg(Box<Expr>),
    Add(Box<Expr>, Box<Expr>),
    Sub(Box<Expr>, Box<Expr>),
    Mul(Box<Expr>, Box<Expr>),
    Div(Box<Expr>, Box<Expr>),
}

} // verus!
