//! The expression tree built by the parser and consumed by the evaluator.

use vstd::prelude::*;
use crate::rat::Rat;
use crate::token::Op;

verus! {

/// A node of the expression tree: a numeric leaf, a unary negation, or a
/// binary operation. Every node exclusively owns its children, so the tree
/// is finite and acyclic by construction.
#[derive(Debug)]
pub enum Expr {
    Num(Rat),
    Neg(Box<Expr>),
    Bin(Op, Box<Expr>, Box<Expr>),
}

/// Every numeric leaf of the tree holds a well-formed rational.
pub open spec fn expr_wf(e: Expr) -> bool
    decreases e,
{
    match e {
        Expr::Num(r) => r.wf(),
        Expr::Neg(b) => expr_wf(*b),
        Expr::Bin(_, l, r) => expr_wf(*l) && expr_wf(*r),
    }
}

} // verus!
