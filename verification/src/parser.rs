//! Recursive-descent parser for arithmetic expressions over input bytes.
//!
//! The grammar, with `+ -` and `* /` left-associative and in rising
//! precedence:
//!
//! ```text
//! expr   := term (('+' | '-') term)*
//! term   := factor (('*' | '/') factor)*
//! factor := NUMBER | '(' expr ')' | '-' factor
//! NUMBER := digits ('.' digits)?
//! ```
//!
//! Whitespace between tokens is insignificant, and the whole input must be
//! consumed. The grammar is deterministic, so it is specified directly by
//! the spec-level descent below (`spec_parse`); the executable parser is
//! proved to return exactly what the spec-level descent returns. Both sides
//! carry a fuel bound on descent depth so that the definition is total; the
//! bound grows linearly with the input and exceeds the depth any input of
//! machine-representable length can reach.

use vstd::prelude::*;
use crate::expr::Expr;

verus! {

pub const PLUS: u8 = 43;
pub const MINUS: u8 = 45;
pub const STAR: u8 = 42;
pub const SLASH: u8 = 47;
pub const LPAREN: u8 = 40;
pub const RPAREN: u8 = 41;
pub const DOT: u8 = 46;

/// ASCII whitespace: space, tab, line feed, vertical tab, form feed,
/// carriage return.
pub open spec fn is_space(b: u8) -> bool {
    b == 32 || (9 <= b && b <= 13)
}

/// ASCII decimal digit.
pub open spec fn is_digit(b: u8) -> bool {
    48 <= b && b <= 57
}

/// First position at or after `i` holding no whitespace.
pub open spec fn skip_ws(s: Seq<u8>, i: int) -> int
    decreases s.len() - i,
{
    if 0 <= i && i < s.len() && is_space(s[i]) {
        skip_ws(s, i + 1)
    } else {
        i
    }
}

/// First position at or after `i` holding no digit.
pub open spec fn digits_end(s: Seq<u8>, i: int) -> int
    decreases s.len() - i,
{
    if 0 <= i && i < s.len() && is_digit(s[i]) {
        digits_end(s, i + 1)
    } else {
        i
    }
}

/// End of the numeric literal starting at `i`: its digits, then an optional
/// point followed by at least one more digit.
pub open spec fn number_end(s: Seq<u8>, i: int) -> int {
    let d = digits_end(s, i);
    if d < s.len() && s[d] == DOT && digits_end(s, d + 1) > d + 1 {
        digits_end(s, d + 1)
    } else {
        d
    }
}

/// `factor := NUMBER | '(' expr ')' | '-' factor`, starting at `i`; on
/// success, the parsed tree and the position just past it.
pub open spec fn p_factor(s: Seq<u8>, i: int, fuel: nat) -> Option<(Expr, int)>
    decreases fuel,
{
    if fuel == 0 {
        None
    } else {
        let k = skip_ws(s, i);
        if k < s.len() && is_digit(s[k]) {
            let e = number_end(s, k);
            Some((Expr::Num { lo: k as usize, hi: e as usize }, e))
        } else if k < s.len() && s[k] == LPAREN {
            match p_expr(s, k + 1, (fuel - 1) as nat) {
                Some((inner, j)) => {
                    let m = skip_ws(s, j);
                    if m < s.len() && s[m] == RPAREN {
                        Some((inner, m + 1))
                    } else {
                        None
                    }
                },
                None => None,
            }
        } else if k < s.len() && s[k] == MINUS {
            match p_factor(s, k + 1, (fuel - 1) as nat) {
                Some((inner, j)) => Some((Expr::Neg(Box::new(inner)), j)),
                None => None,
            }
        } else {
            None
        }
    }
}

/// `term := factor (('*' | '/') factor)*`.
pub open spec fn p_term(s: Seq<u8>, i: int, fuel: nat) -> Option<(Expr, int)>
    decreases fuel,
{
    if fuel == 0 {
        None
    } else {
        match p_factor(s, i, (fuel - 1) as nat) {
            Some((e, j)) => p_term_rest(s, j, e, (fuel - 1) as nat),
            None => None,
        }
    }
}

/// The left-associative tail of a term: fold further `* factor` and
/// `/ factor` steps onto `acc`.
pub open spec fn p_term_rest(s: Seq<u8>, i: int, acc: Expr, fuel: nat) -> Option<(Expr, int)>
    decreases fuel,
{
    if fuel == 0 {
        None
    } else {
        let k = skip_ws(s, i);
        if k < s.len() && (s[k] == STAR || s[k] == SLASH) {
            match p_factor(s, k + 1, (fuel - 1) as nat) {
                Some((rhs, j)) => p_term_rest(
                    s,
                    j,
                    if s[k] == STAR {
                        Expr::Mul(Box::new(acc), Box::new(rhs))
                    } else {
                        Expr::Div(Box::new(acc), Box::new(rhs))
                    },
                    (fuel - 1) as nat,
                ),
                None => None,
            }
        } else {
            Some((acc, i))
        }
    }
}

/// `expr := term (('+' | '-') term)*`.
pub open spec fn p_expr(s: Seq<u8>, i: int, fuel: nat) -> Option<(Expr, int)>
    decreases fuel,
{
    if fuel == 0 {
        None
    } else {
        match p_term(s, i, (fuel - 1) as nat) {
            Some((e, j)) => p_expr_rest(s, j, e, (fuel - 1) as nat),
            None => None,
        }
    }
}

/// The left-associative tail of an expression: fold further `+ term` and
/// `- term` steps onto `acc`.
pub open spec fn p_expr_rest(s: Seq<u8>, i: int, acc: Expr, fuel: nat) -> Option<(Expr, int)>
    decreases fuel,
{
    if fuel == 0 {
        None
    } else {
        let k = skip_ws(s, i);
        if k < s.len() && (s[k] == PLUS || s[k] == MINUS) {
            match p_term(s, k + 1, (fuel - 1) as nat) {
                Some((rhs, j)) => p_expr_rest(
                    s,
                    j,
                    if s[k] == PLUS {
                        Expr::Add(Box::new(acc), Box::new(rhs))
                    } else {
                        Expr::Sub(Box::new(acc), Box::new(rhs))
                    },
                    (fuel - 1) as nat,
                ),
                None => None,
            }
        } else {
            Some((acc, i))
        }
    }
}

/// Descent-depth bound for an input of this length: generous, since each
/// unit of depth past a small constant consumes at least one input byte.
pub open spec fn parse_fuel(s: Seq<u8>) -> nat {
    4 * s.len() + 8
}

/// The parse of a whole input: one expression, with nothing but whitespace
/// after it. `None` is a grammar violation.
pub open spec fn spec_parse(s: Seq<u8>) -> Option<Expr> {
    match p_expr(s, 0, parse_fuel(s)) {
        Some((e, j)) => if skip_ws(s, j) == s.len() {
            Some(e)
        } else {
            None
        },
        None => None,
    }
}

/// The span `lo..hi` covers a decimal literal of `s`: it lies inside the
/// input, starts and ends with a digit, and holds only digits and points.
pub open spec fn wf_number(s: Seq<u8>, lo: int, hi: int) -> bool {
    &&& 0 <= lo < hi <= s.len()
    &&& is_digit(s[lo])
    &&& is_digit(s[hi - 1])
    &&& forall|j: int| lo <= j < hi ==> is_digit(#[trigger] s[j]) || s[j] == DOT
}

/// Every literal span of the tree covers a decimal literal of `s`.
pub open spec fn wf_expr(e: Expr, s: Seq<u8>) -> bool
    decreases e,
{
    match e {
        Expr::Num { lo, hi } => wf_number(s, lo as int, hi as int),
        Expr::Neg(a) => wf_expr(*a, s),
        Expr::Add(a, b) => wf_expr(*a, s) && wf_expr(*b, s),
        Expr::Sub(a, b) => wf_expr(*a, s) && wf_expr(*b, s),
        Expr::Mul(a, b) => wf_expr(*a, s) && wf_expr(*b, s),
        Expr::Div(a, b) => wf_expr(*a, s) && wf_expr(*b, s),
    }
}

proof fn lemma_skip_ws_bounds(s: Seq<u8>, i: int)
    requires
        0 <= i <= s.len(),
    ensures
        i <= skip_ws(s, i) <= s.len(),
    decreases s.len() - i,
{
    if i < s.len() && is_space(s[i]) {
        lemma_skip_ws_bounds(s, i + 1);
    }
}

proof fn lemma_digits_end_props(s: Seq<u8>, i: int)
    requires
        0 <= i <= s.len(),
    ensures
        i <= digits_end(s, i) <= s.len(),
        forall|j: int| i <= j < digits_end(s, i) ==> is_digit(#[trigger] s[j]),
    decreases s.len() - i,
{
    if i < s.len() && is_digit(s[i]) {
        lemma_digits_end_props(s, i + 1);
    }
}

proof fn lemma_number_span(s: Seq<u8>, i: int)
    requires
        0 <= i < s.len(),
        is_digit(s[i]),
    ensures
        wf_number(s, i, number_end(s, i)),
        i < number_end(s, i),
{
    lemma_digits_end_props(s, i);
    lemma_digits_end_props(s, i + 1);
    let d = digits_end(s, i);
    assert(digits_end(s, i) == digits_end(s, i + 1));
    let hi = number_end(s, i);
    if d < s.len() && s[d] == DOT && digits_end(s, d + 1) > d + 1 {
        lemma_digits_end_props(s, d + 1);
        assert forall|j: int| i <= j < hi implies is_digit(#[trigger] s[j]) || s[j] == DOT by {
            if j < d {
                assert(is_digit(s[j]));
            } else if j > d {
                assert(is_digit(s[j]));
            }
        }
    }
}

/// A successful descent through `factor` yields a well-formed tree and ends
/// inside the input, at or after where it began.
pub proof fn lemma_factor_wf(s: Seq<u8>, i: int, fuel: nat)
    requires
        0 <= i <= s.len(),
        s.len() <= usize::MAX,
    ensures
        p_factor(s, i, fuel) matches Some((e, j)) ==> wf_expr(e, s) && i < j <= s.len(),
    decreases fuel,
{
    if fuel > 0 {
        lemma_skip_ws_bounds(s, i);
        let k = skip_ws(s, i);
        if k < s.len() && is_digit(s[k]) {
            lemma_number_span(s, k);
        } else if k < s.len() && s[k] == LPAREN {
            lemma_expr_wf(s, k + 1, (fuel - 1) as nat);
            if let Some((inner, j)) = p_expr(s, k + 1, (fuel - 1) as nat) {
                lemma_skip_ws_bounds(s, j);
            }
        } else if k < s.len() && s[k] == MINUS {
            lemma_factor_wf(s, k + 1, (fuel - 1) as nat);
        }
    }
}

/// A successful descent through `term` yields a well-formed tree.
pub proof fn lemma_term_wf(s: Seq<u8>, i: int, fuel: nat)
    requires
        0 <= i <= s.len(),
        s.len() <= usize::MAX,
    ensures
        p_term(s, i, fuel) matches Some((e, j)) ==> wf_expr(e, s) && i < j <= s.len(),
    decreases fuel,
{
    if fuel > 0 {
        lemma_factor_wf(s, i, (fuel - 1) as nat);
        if let Some((e, j)) = p_factor(s, i, (fuel - 1) as nat) {
            lemma_term_rest_wf(s, j, e, (fuel - 1) as nat);
        }
    }
}

/// Folding further `* factor` and `/ factor` steps onto a well-formed tree
/// keeps it well-formed.
pub proof fn lemma_term_rest_wf(s: Seq<u8>, i: int, acc: Expr, fuel: nat)
    requires
        0 <= i <= s.len(),
        s.len() <= usize::MAX,
        wf_expr(acc, s),
    ensures
        p_term_rest(s, i, acc, fuel) matches Some((e, j)) ==> wf_expr(e, s) && i <= j <= s.len(),
    decreases fuel,
{
    if fuel > 0 {
        lemma_skip_ws_bounds(s, i);
        let k = skip_ws(s, i);
        if k < s.len() && (s[k] == STAR || s[k] == SLASH) {
            lemma_factor_wf(s, k + 1, (fuel - 1) as nat);
            if let Some((rhs, j)) = p_factor(s, k + 1, (fuel - 1) as nat) {
                let node = if s[k] == STAR {
                    Expr::Mul(Box::new(acc), Box::new(rhs))
                } else {
                    Expr::Div(Box::new(acc), Box::new(rhs))
                };
                lemma_term_rest_wf(s, j, node, (fuel - 1) as nat);
            }
        }
    }
}

/// A successful descent through `expr` yields a well-formed tree.
pub proof fn lemma_expr_wf(s: Seq<u8>, i: int, fuel: nat)
    requires
        0 <= i <= s.len(),
        s.len() <= usize::MAX,
    ensures
        p_expr(s, i, fuel) matches Some((e, j)) ==> wf_expr(e, s) && i < j <= s.len(),
    decreases fuel,
{
    if fuel > 0 {
        lemma_term_wf(s, i, (fuel - 1) as nat);
        if let Some((e, j)) = p_term(s, i, (fuel - 1) as nat) {
            lemma_expr_rest_wf(s, j, e, (fuel - 1) as nat);
        }
    }
}

/// Folding further `+ term` and `- term` steps onto a well-formed tree
/// keeps it well-formed.
pub proof fn lemma_expr_rest_wf(s: Seq<u8>, i: int, acc: Expr, fuel: nat)
    requires
        0 <= i <= s.len(),
        s.len() <= usize::MAX,
        wf_expr(acc, s),
    ensures
        p_expr_rest(s, i, acc, fuel) matches Some((e, j)) ==> wf_expr(e, s) && i <= j <= s.len(),
    decreases fuel,
{
    if fuel > 0 {
        lemma_skip_ws_bounds(s, i);
        let k = skip_ws(s, i);
        if k < s.len() && (s[k] == PLUS || s[k] == MINUS) {
            lemma_term_wf(s, k + 1, (fuel - 1) as nat);
            if let Some((rhs, j)) = p_term(s, k + 1, (fuel - 1) as nat) {
                let node = if s[k] == PLUS {
                    Expr::Add(Box::new(acc), Box::new(rhs))
                } else {
                    Expr::Sub(Box::new(acc), Box::new(rhs))
                };
                lemma_expr_rest_wf(s, j, node, (fuel - 1) as nat);
            }
        }
    }
}

/// Any tree the parser accepts is well-formed with respect to the input it
/// was parsed from: every literal span lies inside the input and covers a
/// decimal literal.
pub proof fn lemma_parse_wf(s: Seq<u8>)
    requires
        s.len() <= usize::MAX,
    ensures
        spec_parse(s) matches Some(e) ==> wf_expr(e, s),
{
    lemma_expr_wf(s, 0, parse_fuel(s));
}

proof fn lemma_factor_stable(s: Seq<u8>, i: int, f1: nat, f2: nat)
    requires
        0 <= i <= s.len(),
        s.len() <= usize::MAX,
        f1 >= 3 * (s.len() - i) + 1,
        f2 >= 3 * (s.len() - i) + 1,
    ensures
        p_factor(s, i, f1) == p_factor(s, i, f2),
    decreases f1,
{
    lemma_skip_ws_bounds(s, i);
    let k = skip_ws(s, i);
    if k < s.len() && is_digit(s[k]) {
    } else if k < s.len() && s[k] == LPAREN {
        lemma_expr_stable(s, k + 1, (f1 - 1) as nat, (f2 - 1) as nat);
    } else if k < s.len() && s[k] == MINUS {
        lemma_factor_stable(s, k + 1, (f1 - 1) as nat, (f2 - 1) as nat);
    }
}

proof fn lemma_term_stable(s: Seq<u8>, i: int, f1: nat, f2: nat)
    requires
        0 <= i <= s.len(),
        s.len() <= usize::MAX,
        f1 >= 3 * (s.len() - i) + 2,
        f2 >= 3 * (s.len() - i) + 2,
    ensures
        p_term(s, i, f1) == p_term(s, i, f2),
    decreases f1,
{
    lemma_factor_stable(s, i, (f1 - 1) as nat, (f2 - 1) as nat);
    lemma_factor_wf(s, i, (f1 - 1) as nat);
    if let Some((e, j)) = p_factor(s, i, (f1 - 1) as nat) {
        lemma_term_rest_stable(s, j, e, (f1 - 1) as nat, (f2 - 1) as nat);
    }
}

proof fn lemma_term_rest_stable(s: Seq<u8>, i: int, acc: Expr, f1: nat, f2: nat)
    requires
        0 <= i <= s.len(),
        s.len() <= usize::MAX,
        f1 >= 3 * (s.len() - i) + 3,
        f2 >= 3 * (s.len() - i) + 3,
    ensures
        p_term_rest(s, i, acc, f1) == p_term_rest(s, i, acc, f2),
    decreases f1,
{
    lemma_skip_ws_bounds(s, i);
    let k = skip_ws(s, i);
    if k < s.len() && (s[k] == STAR || s[k] == SLASH) {
        lemma_factor_stable(s, k + 1, (f1 - 1) as nat, (f2 - 1) as nat);
        lemma_factor_wf(s, k + 1, (f1 - 1) as nat);
        if let Some((rhs, j)) = p_factor(s, k + 1, (f1 - 1) as nat) {
            let node = if s[k] == STAR {
                Expr::Mul(Box::new(acc), Box::new(rhs))
            } else {
                Expr::Div(Box::new(acc), Box::new(rhs))
            };
            lemma_term_rest_stable(s, j, node, (f1 - 1) as nat, (f2 - 1) as nat);
        }
    }
}

proof fn lemma_expr_stable(s: Seq<u8>, i: int, f1: nat, f2: nat)
    requires
        0 <= i <= s.len(),
        s.len() <= usize::MAX,
        f1 >= 3 * (s.len() - i) + 3,
        f2 >= 3 * (s.len() - i) + 3,
    ensures
        p_expr(s, i, f1) == p_expr(s, i, f2),
    decreases f1,
{
    lemma_term_stable(s, i, (f1 - 1) as nat, (f2 - 1) as nat);
    lemma_term_wf(s, i, (f1 - 1) as nat);
    if let Some((e, j)) = p_term(s, i, (f1 - 1) as nat) {
        lemma_expr_rest_stable(s, j, e, (f1 - 1) as nat, (f2 - 1) as nat);
    }
}

proof fn lemma_expr_rest_stable(s: Seq<u8>, i: int, acc: Expr, f1: nat, f2: nat)
    requires
        0 <= i <= s.len(),
        s.len() <= usize::MAX,
        f1 >= 3 * (s.len() - i) + 3,
        f2 >= 3 * (s.len() - i) + 3,
    ensures
        p_expr_rest(s, i, acc, f1) == p_expr_rest(s, i, acc, f2),
    decreases f1,
{
    lemma_skip_ws_bounds(s, i);
    let k = skip_ws(s, i);
    if k < s.len() && (s[k] == PLUS || s[k] == MINUS) {
        lemma_term_stable(s, k + 1, (f1 - 1) as nat, (f2 - 1) as nat);
        lemma_term_wf(s, k + 1, (f1 - 1) as nat);
        if let Some((rhs, j)) = p_term(s, k + 1, (f1 - 1) as nat) {
            let node = if s[k] == PLUS {
                Expr::Add(Box::new(acc), Box::new(rhs))
            } else {
                Expr::Sub(Box::new(acc), Box::new(rhs))
            };
            lemma_expr_rest_stable(s, j, node, (f1 - 1) as nat, (f2 - 1) as nat);
        }
    }
}

/// The descent-depth bound is no restriction: with `parse_fuel` or any
/// larger fuel the descent of a whole input returns the same result, so
/// `spec_parse` describes the grammar itself, not an artifact of the bound.
pub proof fn lemma_parse_fuel_sufficient(s: Seq<u8>, fuel: nat)
    requires
        s.len() <= usize::MAX,
        fuel >= parse_fuel(s),
    ensures
        p_expr(s, 0, fuel) == p_expr(s, 0, parse_fuel(s)),
{
    lemma_expr_stable(s, 0, fuel, parse_fuel(s));
}

/// The executable result and the spec-level result agree.
pub open spec fn step_matches(r: Option<(Expr, usize)>, sp: Option<(Expr, int)>) -> bool {
    match (r, sp) {
        (Option::None, Option::None) => true,
        (Option::Some((e, j)), Option::Some((se, sj))) => e == se && j as int == sj,
        _ => false,
    }
}

fn is_space_b(b: u8) -> (r: bool)
    ensures
        r == is_space(b),
{
    b == 32 || (9 <= b && b <= 13)
}

fn is_digit_b(b: u8) -> (r: bool)
    ensures
        r == is_digit(b),
{
    48 <= b && b <= 57
}

fn skip_spaces(s: &Vec<u8>, i: usize) -> (r: usize)
    requires
        i <= s@.len(),
    ensures
        r as int == skip_ws(s@, i as int),
        i <= r <= s@.len(),
{
    let mut j: usize = i;
    while j < s.len() && is_space_b(s[j])
        invariant
            i <= j <= s@.len(),
            skip_ws(s@, i as int) == skip_ws(s@, j as int),
        decreases s@.len() - j,
    {
        j = j + 1;
    }
    j
}

fn digits_end_exec(s: &Vec<u8>, i: usize) -> (r: usize)
    requires
        i <= s@.len(),
    ensures
        r as int == digits_end(s@, i as int),
        i <= r <= s@.len(),
{
    let mut j: usize = i;
    while j < s.len() && is_digit_b(s[j])
        invariant
            i <= j <= s@.len(),
            digits_end(s@, i as int) == digits_end(s@, j as int),
        decreases s@.len() - j,
    {
        j = j + 1;
    }
    j
}

fn number_end_exec(s: &Vec<u8>, i: usize) -> (r: usize)
    requires
        i <= s@.len(),
    ensures
        r as int == number_end(s@, i as int),
        i <= r <= s@.len(),
{
    let d = digits_end_exec(s, i);
    if d < s.len() {
        if s[d] == DOT {
            let d2 = digits_end_exec(s, d + 1);
            if d2 > d + 1 {
                return d2;
            }
        }
    }
    d
}

fn e_factor(s: &Vec<u8>, i: usize, fuel: u128) -> (r: Option<(Expr, usize)>)
    requires
        i <= s@.len(),
    ensures
        step_matches(r, p_factor(s@, i as int, fuel as nat)),
        r matches Some((e, j)) ==> i <= j <= s@.len(),
    decreases fuel,
{
    if fuel == 0 {
        return None;
    }
    let k = skip_spaces(s, i);
    if k < s.len() && is_digit_b(s[k]) {
        let e = number_end_exec(s, k);
        Some((Expr::Num { lo: k, hi: e }, e))
    } else if k < s.len() && s[k] == LPAREN {
        match e_expr(s, k + 1, fuel - 1) {
            Some((inner, j)) => {
                let m = skip_spaces(s, j);
                if m < s.len() && s[m] == RPAREN {
                    Some((inner, m + 1))
                } else {
                    None
                }
            },
            None => None,
        }
    } else if k < s.len() && s[k] == MINUS {
        match e_factor(s, k + 1, fuel - 1) {
            Some((inner, j)) => Some((Expr::Neg(Box::new(inner)), j)),
            None => None,
        }
    } else {
        None
    }
}

fn e_term(s: &Vec<u8>, i: usize, fuel: u128) -> (r: Option<(Expr, usize)>)
    requires
        i <= s@.len(),
    ensures
        step_matches(r, p_term(s@, i as int, fuel as nat)),
        r matches Some((e, j)) ==> i <= j <= s@.len(),
    decreases fuel,
{
    if fuel == 0 {
        return None;
    }
    match e_factor(s, i, fuel - 1) {
        Some((e, j)) => e_term_rest(s, j, e, fuel - 1),
        None => None,
    }
}

fn e_term_rest(s: &Vec<u8>, i: usize, acc: Expr, fuel: u128) -> (r: Option<(Expr, usize)>)
    requires
        i <= s@.len(),
    ensures
        step_matches(r, p_term_rest(s@, i as int, acc, fuel as nat)),
        r matches Some((e, j)) ==> i <= j <= s@.len(),
    decreases fuel,
{
    if fuel == 0 {
        return None;
    }
    let k = skip_spaces(s, i);
    if k < s.len() && (s[k] == STAR || s[k] == SLASH) {
        let is_mul = s[k] == STAR;
        match e_factor(s, k + 1, fuel - 1) {
            Some((rhs, j)) => {
                let node = if is_mul {
                    Expr::Mul(Box::new(acc), Box::new(rhs))
                } else {
                    Expr::Div(Box::new(acc), Box::new(rhs))
                };
                e_term_rest(s, j, node, fuel - 1)
            },
            None => None,
        }
    } else {
        Some((acc, i))
    }
}

fn e_expr(s: &Vec<u8>, i: usize, fuel: u128) -> (r: Option<(Expr, usize)>)
    requires
        i <= s@.len(),
    ensures
        step_matches(r, p_expr(s@, i as int, fuel as nat)),
        r matches Some((e, j)) ==> i <= j <= s@.len(),
    decreases fuel,
{
    if fuel == 0 {
        return None;
    }
    match e_term(s, i, fuel - 1) {
        Some((e, j)) => e_expr_rest(s, j, e, fuel - 1),
        None => None,
    }
}

fn e_expr_rest(s: &Vec<u8>, i: usize, acc: Expr, fuel: u128) -> (r: Option<(Expr, usize)>)
    requires
        i <= s@.len(),
    ensures
        step_matches(r, p_expr_rest(s@, i as int, acc, fuel as nat)),
        r matches Some((e, j)) ==> i <= j <= s@.len(),
    decreases fuel,
{
    if fuel == 0 {
        return None;
    }
    let k = skip_spaces(s, i);
    if k < s.len() && (s[k] == PLUS || s[k] == MINUS) {
        let is_add = s[k] == PLUS;
        match e_term(s, k + 1, fuel - 1) {
            Some((rhs, j)) => {
                let node = if is_add {
                    Expr::Add(Box::new(acc), Box::new(rhs))
                } else {
                    Expr::Sub(Box::new(acc), Box::new(rhs))
                };
                e_expr_rest(s, j, node, fuel - 1)
            },
            None => None,
        }
    } else {
        Some((acc, i))
    }
}

/// Parse a whole input. Returns the expression tree exactly when the input
/// is one well-formed expression (with arbitrary surrounding whitespace),
/// and `None` on any grammar violation.
pub fn parse(s: &Vec<u8>) -> (r: Option<Expr>)
    ensures
        r == spec_parse(s@),
        r matches Some(e) ==> wf_expr(e, s@),
{
    let n = s.len();
    proof {
        assert(s@.len() <= usize::MAX);
        lemma_parse_wf(s@);
    }
    let fuel: u128 = 4 * (n as u128) + 8;
    match e_expr(s, 0, fuel) {
        Some((e, j)) => {
            let m = skip_spaces(s, j);
            if m == s.len() {
                Some(e)
            } else {
                None
            }
        },
        None => None,
    }
}

} // verus!
