//! The evaluator: a recursive structural walk of the expression tree down to
//! a single exact rational value or a defined failure.
//!
//! A division first evaluates its right operand; a divisor of exactly zero
//! fails the whole evaluation with a defined "no value" outcome before the
//! left operand is looked at. A result that no longer fits the bounded
//! rational representation is a defined failure of its own, never a wrapped
//! or truncated number.

use vstd::prelude::*;
use crate::expr::Expr;
use crate::expr::expr_wf;
use crate::parser::Parser;
use crate::parser::spec_parse;
use crate::rat::Rat;
use crate::rat::fits_i64;
use crate::token::Op;
use crate::token::Token;

verus! {

/// Why an evaluation produced no value.
#[derive(Clone, Copy, Debug, PartialEq, Eq, Structural)]
pub enum EvalError {
    /// No expression could be parsed at the cursor.
    NoExpr,
    /// A division met a divisor of exactly zero.
    DivByZero,
    /// An intermediate value left the bounded rational representation.
    TooLarge,
}

/// `n / d` as a bounded rational, or the defined failure when either part
/// has left the representation.
pub open spec fn spec_norm(n: int, d: int) -> Result<Rat, EvalError> {
    if fits_i64(n) && fits_i64(d) {
        Ok(Rat { num: n as i64, den: d as i64 })
    } else {
        Err(EvalError::TooLarge)
    }
}

/// Exact rational addition: `a/b + c/d == (a*d + c*b) / (b*d)`.
pub open spec fn spec_add(a: Rat, b: Rat) -> Result<Rat, EvalError> {
    spec_norm(a.num * b.den + b.num * a.den, a.den * b.den)
}

/// Exact rational subtraction: `a/b - c/d == (a*d - c*b) / (b*d)`.
pub open spec fn spec_sub(a: Rat, b: Rat) -> Result<Rat, EvalError> {
    spec_norm(a.num * b.den - b.num * a.den, a.den * b.den)
}

/// Exact rational multiplication: `(a/b) * (c/d) == (a*c) / (b*d)`.
pub open spec fn spec_mul(a: Rat, b: Rat) -> Result<Rat, EvalError> {
    spec_norm(a.num * b.num, a.den * b.den)
}

/// Exact rational division by a nonzero `b`, with the sign moved so the
/// denominator stays positive: `(a/b) / (c/d) == (a*d) / (b*c)`.
pub open spec fn spec_div(a: Rat, b: Rat) -> Result<Rat, EvalError> {
    if b.num > 0 {
        spec_norm(a.num * b.den, a.den * b.num)
    } else {
        spec_norm(-(a.num * b.den), a.den * (-b.num))
    }
}

/// Exact rational negation.
pub open spec fn spec_neg(a: Rat) -> Result<Rat, EvalError> {
    if fits_i64(-(a.num as int)) {
        Ok(Rat { num: (-(a.num as int)) as i64, den: a.den })
    } else {
        Err(EvalError::TooLarge)
    }
}

/// The value of an expression tree: leaves evaluate to themselves, `+ - *`
/// evaluate the left operand and then the right, and `/` evaluates the right
/// operand first and fails on a divisor of exactly zero without looking at
/// the left. Failures propagate unchanged through every enclosing node.
pub open spec fn spec_eval(e: Expr) -> Result<Rat, EvalError>
    decreases e,
{
    match e {
        Expr::Num(r) => Ok(r),
        Expr::Neg(b) => match spec_eval(*b) {
            Ok(v) => spec_neg(v),
            Err(er) => Err(er),
        },
        Expr::Bin(op, l, r) => match op {
            Op::Add => match spec_eval(*l) {
                Err(er) => Err(er),
                Ok(a) => match spec_eval(*r) {
                    Err(er) => Err(er),
                    Ok(b) => spec_add(a, b),
                },
            },
            Op::Sub => match spec_eval(*l) {
                Err(er) => Err(er),
                Ok(a) => match spec_eval(*r) {
                    Err(er) => Err(er),
                    Ok(b) => spec_sub(a, b),
                },
            },
            Op::Mul => match spec_eval(*l) {
                Err(er) => Err(er),
                Ok(a) => match spec_eval(*r) {
                    Err(er) => Err(er),
                    Ok(b) => spec_mul(a, b),
                },
            },
            Op::Div => match spec_eval(*r) {
                Err(er) => Err(er),
                Ok(b) => if b.num == 0 {
                    Err(EvalError::DivByZero)
                } else {
                    match spec_eval(*l) {
                        Err(er) => Err(er),
                        Ok(a) => spec_div(a, b),
                    }
                },
            },
        },
    }
}

/// The outcome of parsing at `pos` and evaluating the resulting tree.
pub open spec fn spec_eval_from(t: Seq<Token>, pos: nat) -> Result<Rat, EvalError> {
    match spec_parse(t, pos, 0) {
        Some((e, _)) => spec_eval(e),
        None => Err(EvalError::NoExpr),
    }
}

/// A product of two values in `i64` range stays within `i128` range.
proof fn lemma_i64_mul_bounds(x: int, y: int)
    by (nonlinear_arith)
    requires
        -0x8000_0000_0000_0000 <= x <= 0x7fff_ffff_ffff_ffff,
        -0x8000_0000_0000_0000 <= y <= 0x7fff_ffff_ffff_ffff,
    ensures
        -0x4000_0000_0000_0000_0000_0000_0000_0000 <= x * y
            <= 0x4000_0000_0000_0000_0000_0000_0000_0000,
{
}

/// A product of an `i64` value and a positive `i64` denominator leaves room
/// for a second such product to be added within `i128` range.
proof fn lemma_i64_mul_den_bounds(x: int, d: int)
    by (nonlinear_arith)
    requires
        -0x8000_0000_0000_0000 <= x <= 0x7fff_ffff_ffff_ffff,
        1 <= d <= 0x7fff_ffff_ffff_ffff,
    ensures
        -0x3fff_ffff_ffff_ffff_8000_0000_0000_0000 <= x * d
            <= 0x3fff_ffff_ffff_ffff_8000_0000_0000_0000,
{
}

/// A product of two positive values is positive.
proof fn lemma_pos_mul(a: int, b: int)
    by (nonlinear_arith)
    requires
        1 <= a,
        1 <= b,
    ensures
        1 <= a * b,
{
}

/// Exact rational addition with the defined failure outside the
/// representation.
fn rat_add(a: Rat, b: Rat) -> (r: Result<Rat, EvalError>)
    requires
        a.wf(),
        b.wf(),
    ensures
        r == spec_add(a, b),
        r matches Ok(v) ==> v.wf(),
{
    proof {
        lemma_i64_mul_den_bounds(a.num as int, b.den as int);
        lemma_i64_mul_den_bounds(b.num as int, a.den as int);
        lemma_i64_mul_den_bounds(a.den as int, b.den as int);
        lemma_pos_mul(a.den as int, b.den as int);
    }
    let n: i128 = a.num as i128 * b.den as i128 + b.num as i128 * a.den as i128;
    let d: i128 = a.den as i128 * b.den as i128;
    if n < i64::MIN as i128 || n > i64::MAX as i128 || d > i64::MAX as i128 {
        Err(EvalError::TooLarge)
    } else {
        Ok(Rat { num: n as i64, den: d as i64 })
    }
}

/// Exact rational subtraction with the defined failure outside the
/// representation.
fn rat_sub(a: Rat, b: Rat) -> (r: Result<Rat, EvalError>)
    requires
        a.wf(),
        b.wf(),
    ensures
        r == spec_sub(a, b),
        r matches Ok(v) ==> v.wf(),
{
    proof {
        lemma_i64_mul_den_bounds(a.num as int, b.den as int);
        lemma_i64_mul_den_bounds(b.num as int, a.den as int);
        lemma_i64_mul_den_bounds(a.den as int, b.den as int);
        lemma_pos_mul(a.den as int, b.den as int);
    }
    let n: i128 = a.num as i128 * b.den as i128 - b.num as i128 * a.den as i128;
    let d: i128 = a.den as i128 * b.den as i128;
    if n < i64::MIN as i128 || n > i64::MAX as i128 || d > i64::MAX as i128 {
        Err(EvalError::TooLarge)
    } else {
        Ok(Rat { num: n as i64, den: d as i64 })
    }
}

/// Exact rational multiplication with the defined failure outside the
/// representation.
fn rat_mul(a: Rat, b: Rat) -> (r: Result<Rat, EvalError>)
    requires
        a.wf(),
        b.wf(),
    ensures
        r == spec_mul(a, b),
        r matches Ok(v) ==> v.wf(),
{
    proof {
        lemma_i64_mul_bounds(a.num as int, b.num as int);
        lemma_i64_mul_den_bounds(a.den as int, b.den as int);
        lemma_pos_mul(a.den as int, b.den as int);
    }
    let n: i128 = a.num as i128 * b.num as i128;
    let d: i128 = a.den as i128 * b.den as i128;
    if n < i64::MIN as i128 || n > i64::MAX as i128 || d > i64::MAX as i128 {
        Err(EvalError::TooLarge)
    } else {
        Ok(Rat { num: n as i64, den: d as i64 })
    }
}

/// Exact rational division by a nonzero divisor, with the defined failure
/// outside the representation.
fn rat_div(a: Rat, b: Rat) -> (r: Result<Rat, EvalError>)
    requires
        a.wf(),
        b.wf(),
        b.num != 0,
    ensures
        r == spec_div(a, b),
        r matches Ok(v) ==> v.wf(),
{
    proof {
        lemma_i64_mul_den_bounds(a.num as int, b.den as int);
        lemma_i64_mul_bounds(a.den as int, b.num as int);
        if b.num > 0 {
            lemma_pos_mul(a.den as int, b.num as int);
        } else {
            lemma_pos_mul(a.den as int, -(b.num as int));
            assert(a.den as int * (-(b.num as int)) == -(a.den as int * b.num as int))
                by (nonlinear_arith);
        }
    }
    let n0: i128 = a.num as i128 * b.den as i128;
    let d0: i128 = a.den as i128 * b.num as i128;
    let (n, d): (i128, i128) = if b.num > 0 {
        (n0, d0)
    } else {
        (-n0, -d0)
    };
    if n < i64::MIN as i128 || n > i64::MAX as i128 || d > i64::MAX as i128 {
        Err(EvalError::TooLarge)
    } else {
        Ok(Rat { num: n as i64, den: d as i64 })
    }
}

/// Exact rational negation with the defined failure outside the
/// representation.
fn rat_neg(a: Rat) -> (r: Result<Rat, EvalError>)
    requires
        a.wf(),
    ensures
        r == spec_neg(a),
        r matches Ok(v) ==> v.wf(),
{
    if a.num == i64::MIN {
        Err(EvalError::TooLarge)
    } else {
        Ok(Rat { num: -a.num, den: a.den })
    }
}

impl Parser {
    /// Parses the expression at the cursor and evaluates it: the absence of
    /// an expression, a zero divisor, and a value outside the representation
    /// are the three defined failures, each reported as itself.
    pub fn eval(&mut self) -> (r: Result<Rat, EvalError>)
        requires
            old(self).wf(),
        ensures
            final(self).wf(),
            final(self).tokens@ == old(self).tokens@,
            r == spec_eval_from(old(self).tokens@, old(self).curr as nat),
            r matches Ok(v) ==> v.wf(),
    {
        match self.parse(0) {
            Some(expr) => self.eval_expr(expr),
            None => Err(EvalError::NoExpr),
        }
    }

    /// Evaluates an expression tree to its exact rational value or its
    /// defined failure.
    pub fn eval_expr(&self, expr: Expr) -> (r: Result<Rat, EvalError>)
        requires
            expr_wf(expr),
        ensures
            r == spec_eval(expr),
            r matches Ok(v) ==> v.wf(),
        decreases expr,
    {
        match expr {
            Expr::Num(n) => Ok(n),
            Expr::Neg(e) => match self.eval_expr(*e) {
                Ok(v) => rat_neg(v),
                Err(er) => Err(er),
            },
            Expr::Bin(op, left, right) => match op {
                Op::Add => {
                    let a = match self.eval_expr(*left) {
                        Ok(a) => a,
                        Err(er) => {
                            return Err(er);
                        },
                    };
                    let b = match self.eval_expr(*right) {
                        Ok(b) => b,
                        Err(er) => {
                            return Err(er);
                        },
                    };
                    rat_add(a, b)
                },
                Op::Sub => {
                    let a = match self.eval_expr(*left) {
                        Ok(a) => a,
                        Err(er) => {
                            return Err(er);
                        },
                    };
                    let b = match self.eval_expr(*right) {
                        Ok(b) => b,
                        Err(er) => {
                            return Err(er);
                        },
                    };
                    rat_sub(a, b)
                },
                Op::Mul => {
                    let a = match self.eval_expr(*left) {
                        Ok(a) => a,
                        Err(er) => {
                            return Err(er);
                        },
                    };
                    let b = match self.eval_expr(*right) {
                        Ok(b) => b,
                        Err(er) => {
                            return Err(er);
                        },
                    };
                    rat_mul(a, b)
                },
                Op::Div => {
                    let b = match self.eval_expr(*right) {
                        Ok(b) => b,
                        Err(er) => {
                            return Err(er);
                        },
                    };
                    if b.num == 0 {
                        return Err(EvalError::DivByZero);
                    }
                    let a = match self.eval_expr(*left) {
                        Ok(a) => a,
                        Err(er) => {
                            return Err(er);
                        },
                    };
                    rat_div(a, b)
                },
            },
        }
    }
}

} // verus!
