//! Tokens of the expression language.

use vstd::prelude::*;
use crate::rat::Rat;

verus! {

/// A binary arithmetic operator.
#[derive(Clone, Copy, Debug, PartialEq, Eq, Structural)]
pub enum Op {
    Add,
    Sub,
    Mul,
    Div,
}

/// An atomic lexical unit: a numeric literal, an operator, or a parenthesis.
#[derive(Clone, Copy, Debug, PartialEq, Eq, Structural)]
pub enum Token {
    Num(Rat),
    Op(Op),
    Lp,
    Rp,
}

/// Binding strength of a token when it appears in infix position:
/// `+` and `-` bind at 1, `*` and `/` at 2, and every other token at 0,
/// which ends the infix loop of the parser.
pub open spec fn token_prec(t: Token) -> nat {
    match t {
        Token::Op(Op::Add) => 1,
        Token::Op(Op::Sub) => 1,
        Token::Op(Op::Mul) => 2,
        Token::Op(Op::Div) => 2,
        _ => 0,
    }
}

/// The operator carried by an operator token; meaningful only when
/// `token_prec(t) > 0`.
pub open spec fn token_op(t: Token) -> Op {
    match t {
        Token::Op(k) => k,
        _ => Op::Add,
    }
}

/// A numeric token carries a well-formed rational.
pub open spec fn token_wf(t: Token) -> bool {
    match t {
        Token::Num(r) => r.wf(),
        _ => true,
    }
}

/// Every token of the sequence is well-formed.
pub open spec fn tokens_wf(ts: Seq<Token>) -> bool {
    forall|i: int| 0 <= i < ts.len() ==> token_wf(#[trigger] ts[i])
}

} // verus!
