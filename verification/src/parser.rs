//! The parser: precedence-climbing (Pratt) parsing of a token sequence into
//! an expression tree.
//!
//! `parse(min)` parses a prefix expression (a literal, a parenthesized group,
//! or a unary minus binding at 1) and then, while the next token is a binary
//! operator binding strictly tighter than `min`, consumes it and parses its
//! right-hand side at that operator's own precedence, so that operators of
//! equal precedence chain to the left. A missing operand, an unmatched
//! parenthesis, or an empty input is a parse failure, reported as the absence
//! of a result. The cursor only ever moves forward: no backtracking.

use vstd::prelude::*;
use crate::expr::Expr;
use crate::expr::expr_wf;
use crate::lexer::Lexer;
use crate::lexer::LexError;
use crate::lexer::spec_lex;
use crate::token::Op;
use crate::token::Token;
use crate::token::token_op;
use crate::token::token_prec;
use crate::token::token_wf;
use crate::token::tokens_wf;

verus! {

/// The expression beginning at `pos` as a prefix: a numeric leaf, a
/// parenthesized group closed by `Rp`, or a negation whose operand is parsed
/// at precedence 1. Returns the expression and the position just after it.
pub open spec fn spec_prefix(t: Seq<Token>, pos: nat) -> Option<(Expr, nat)>
    decreases t.len() - pos, 0nat,
{
    if pos >= t.len() {
        None
    } else {
        match t[pos as int] {
            Token::Num(r) => Some((Expr::Num(r), (pos + 1) as nat)),
            Token::Lp => match spec_parse(t, (pos + 1) as nat, 0) {
                Some((e, p)) => if p < t.len() && t[p as int] is Rp {
                    Some((e, (p + 1) as nat))
                } else {
                    None
                },
                None => None,
            },
            Token::Op(Op::Sub) => match spec_parse(t, (pos + 1) as nat, 1) {
                Some((e, p)) => Some((Expr::Neg(Box::new(e)), p)),
                None => None,
            },
            _ => None,
        }
    }
}

/// The expression beginning at `pos`, parsed with minimum binding strength
/// `min`, and the position just after it: a prefix expression extended by the
/// infix loop.
pub open spec fn spec_parse(t: Seq<Token>, pos: nat, min: nat) -> Option<(Expr, nat)>
    decreases t.len() - pos, 1nat,
{
    match spec_prefix(t, pos) {
        Some((left, p)) => if pos < p && p <= t.len() {
            spec_loop(t, p, min, left)
        } else {
            // a prefix expression always covers at least one token
            None
        },
        None => None,
    }
}

/// The infix loop: while the token at `pos` is an operator binding strictly
/// tighter than `min`, combine `left` with a right-hand side parsed at that
/// operator's precedence; a missing right-hand side fails the whole parse.
pub open spec fn spec_loop(t: Seq<Token>, pos: nat, min: nat, left: Expr) -> Option<(Expr, nat)>
    decreases t.len() - pos, 2nat,
{
    if pos < t.len() && min < token_prec(t[pos as int]) {
        match spec_parse(t, (pos + 1) as nat, token_prec(t[pos as int])) {
            Some((right, p2)) => if pos < p2 && p2 <= t.len() {
                spec_loop(
                    t,
                    p2,
                    min,
                    Expr::Bin(token_op(t[pos as int]), Box::new(left), Box::new(right)),
                )
            } else {
                // the right-hand side always covers at least one token
                None
            },
            None => None,
        }
    } else {
        Some((left, pos))
    }
}

/// The parser: a materialized token sequence and a forward-only cursor.
pub struct Parser {
    pub tokens: Vec<Token>,
    pub curr: usize,
}

impl Parser {
    /// The cursor never stands more than one past the last token, and every
    /// token is well-formed.
    pub open spec fn wf(self) -> bool {
        &&& self.curr <= self.tokens@.len()
        &&& tokens_wf(self.tokens@)
    }

    /// Lexes the whole input into a token sequence and stands the cursor at
    /// its start; a fatal lexing error is handed back unchanged.
    pub fn new(input: &str) -> (r: Result<Parser, LexError>)
        ensures
            match r {
                Ok(p) => p.wf() && spec_lex(input@) == Ok::<Seq<Token>, LexError>(p.tokens@)
                    && p.curr == 0,
                Err(e) => spec_lex(input@) == Err::<Seq<Token>, LexError>(e),
            },
    {
        let mut lx = Lexer::new(input);
        let mut tokens: Vec<Token> = Vec::new();
        proof {
            assert(lx.rest() =~= input@);
            match spec_lex(input@) {
                Ok(ts) => {
                    assert(Seq::<Token>::empty() + ts =~= ts);
                },
                Err(_) => {},
            }
        }
        loop
            invariant
                lx.wf(),
                lx.input@ == input@,
                tokens_wf(tokens@),
                tokens@.len() <= lx.pos,
                spec_lex(input@) == (match spec_lex(lx.rest()) {
                    Ok(ts) => Ok::<Seq<Token>, LexError>(tokens@ + ts),
                    Err(e) => Err(e),
                }),
            decreases lx.input@.len() - lx.pos,
        {
            let ghost toks0 = tokens@;
            match lx.next() {
                Ok(Some(t)) => {
                    tokens.push(t);
                    proof {
                        match spec_lex(lx.rest()) {
                            Ok(ts) => {
                                assert(toks0 + (seq![t] + ts) =~= tokens@ + ts);
                            },
                            Err(_) => {},
                        }
                    }
                },
                Ok(None) => {
                    proof {
                        assert(tokens@ + Seq::<Token>::empty() =~= tokens@);
                    }
                    return Ok(Parser { tokens, curr: 0 });
                },
                Err(e) => {
                    return Err(e);
                },
            }
        }
    }

    /// The token under the cursor, if any.
    pub fn curr(&self) -> (r: Option<Token>)
        requires
            self.wf(),
        ensures
            r == (if self.curr < self.tokens@.len() {
                Some(self.tokens@[self.curr as int])
            } else {
                None::<Token>
            }),
    {
        let n = self.tokens.len();
        if self.curr < n {
            Some(self.tokens[self.curr])
        } else {
            None
        }
    }

    /// The token one past the cursor, if any.
    pub fn peek(&self) -> (r: Option<Token>)
        requires
            self.wf(),
        ensures
            r == (if self.curr + 1 < self.tokens@.len() {
                Some(self.tokens@[self.curr as int + 1])
            } else {
                None::<Token>
            }),
    {
        let n = self.tokens.len();
        if self.curr < n && self.curr + 1 < n {
            Some(self.tokens[self.curr + 1])
        } else {
            None
        }
    }

    /// Moves the cursor one token forward.
    pub fn next_token(&mut self)
        requires
            old(self).wf(),
            old(self).curr < old(self).tokens@.len(),
        ensures
            final(self).wf(),
            final(self).tokens@ == old(self).tokens@,
            final(self).curr == old(self).curr + 1,
    {
        let n = self.tokens.len();
        if self.curr < n {
            self.curr = self.curr + 1;
        }
    }

    /// The binding strength of a token.
    pub fn check_prec(token: &Token) -> (p: usize)
        ensures
            p == token_prec(*token),
    {
        match token {
            Token::Op(op) => match op {
                Op::Add | Op::Sub => 1,
                Op::Mul | Op::Div => 2,
            },
            _ => 0,
        }
    }

    /// The binding strength of the token under the cursor (0 at the end).
    pub fn curr_prec(&self) -> (p: usize)
        requires
            self.wf(),
        ensures
            p == (if self.curr < self.tokens@.len() {
                token_prec(self.tokens@[self.curr as int])
            } else {
                0
            }),
    {
        match self.curr() {
            Some(token) => Self::check_prec(&token),
            None => 0,
        }
    }

    /// The binding strength of the token one past the cursor (0 at the end).
    pub fn peek_prec(&self) -> (p: usize)
        requires
            self.wf(),
        ensures
            p == (if self.curr + 1 < self.tokens@.len() {
                token_prec(self.tokens@[self.curr as int + 1])
            } else {
                0
            }),
    {
        match self.peek() {
            Some(token) => Self::check_prec(&token),
            None => 0,
        }
    }

    /// Parses the expression at the cursor with minimum binding strength
    /// `prec`; on success the cursor stands on the expression's last token.
    pub fn parse(&mut self, prec: usize) -> (r: Option<Expr>)
        requires
            old(self).wf(),
        ensures
            final(self).wf(),
            final(self).tokens@ == old(self).tokens@,
            old(self).curr <= final(self).curr,
            match r {
                Some(e) => spec_parse(old(self).tokens@, old(self).curr as nat, prec as nat)
                    == Some((e, (final(self).curr + 1) as nat)) && final(self).curr < final(
                    self
                ).tokens@.len() && expr_wf(e),
                None => spec_parse(old(self).tokens@, old(self).curr as nat, prec as nat)
                    is None,
            },
        decreases self.tokens@.len() - self.curr, 3nat,
    {
        let ghost t = self.tokens@;
        let ghost c0 = self.curr as nat;
        let mut left = match self.parse_prefix() {
            Some(l) => l,
            None => {
                return None;
            },
        };
        proof {
            assert(spec_parse(t, c0, prec as nat) == spec_loop(
                t,
                (self.curr + 1) as nat,
                prec as nat,
                left,
            ));
        }
        let n = self.tokens.len();
        while self.curr < n - 1 && prec < self.peek_prec()
            invariant
                self.wf(),
                t == old(self).tokens@,
                c0 == old(self).curr as nat,
                self.tokens@ == t,
                n == t.len(),
                c0 <= self.curr < t.len(),
                expr_wf(left),
                spec_parse(t, c0, prec as nat) == spec_loop(
                    t,
                    (self.curr + 1) as nat,
                    prec as nat,
                    left,
                ),
            decreases t.len() - self.curr,
        {
            let ghost left_old = left;
            let ghost pos = (self.curr + 1) as nat;
            self.next_token();
            match self.parse_infix(left) {
                Some(e) => {
                    proof {
                        assert(spec_loop(t, pos, prec as nat, left_old) == spec_loop(
                            t,
                            (self.curr + 1) as nat,
                            prec as nat,
                            e,
                        ));
                    }
                    left = e;
                },
                None => {
                    proof {
                        assert(spec_loop(t, pos, prec as nat, left_old) is None);
                    }
                    return None;
                },
            }
        }
        Some(left)
    }

    /// Parses the prefix expression at the cursor: a number, a group, or a
    /// unary minus whose operand binds at 1.
    pub fn parse_prefix(&mut self) -> (r: Option<Expr>)
        requires
            old(self).wf(),
        ensures
            final(self).wf(),
            final(self).tokens@ == old(self).tokens@,
            old(self).curr <= final(self).curr,
            match r {
                Some(e) => spec_prefix(old(self).tokens@, old(self).curr as nat) == Some(
                    (e, (final(self).curr + 1) as nat),
                ) && final(self).curr < final(self).tokens@.len() && expr_wf(e),
                None => spec_prefix(old(self).tokens@, old(self).curr as nat) is None,
            },
        decreases self.tokens@.len() - self.curr, 2nat,
    {
        let ghost t = self.tokens@;
        match self.curr() {
            Some(token) => match token {
                Token::Num(num) => {
                    proof {
                        assert(token_wf(t[self.curr as int]));
                    }
                    Some(Expr::Num(num))
                },
                Token::Lp => self.parse_grouped_expr(),
                Token::Op(Op::Sub) => {
                    self.next_token();
                    match self.parse(1) {
                        Some(value) => Some(Expr::Neg(Box::new(value))),
                        None => None,
                    }
                },
                _ => None,
            },
            None => None,
        }
    }

    /// Combines `left` with the operator under the cursor and a right-hand
    /// side parsed at that operator's own precedence.
    pub fn parse_infix(&mut self, left: Expr) -> (r: Option<Expr>)
        requires
            old(self).wf(),
            old(self).curr < old(self).tokens@.len(),
            token_prec(old(self).tokens@[old(self).curr as int]) > 0,
            expr_wf(left),
        ensures
            final(self).wf(),
            final(self).tokens@ == old(self).tokens@,
            old(self).curr < final(self).curr,
            match r {
                Some(e) => (match spec_parse(
                    old(self).tokens@,
                    (old(self).curr + 1) as nat,
                    token_prec(old(self).tokens@[old(self).curr as int]),
                ) {
                    Some((right, p2)) => e == Expr::Bin(
                        token_op(old(self).tokens@[old(self).curr as int]),
                        Box::new(left),
                        Box::new(right),
                    ) && p2 == (final(self).curr + 1) as nat && final(self).curr < final(
                        self
                    ).tokens@.len() && expr_wf(e),
                    None => false,
                }),
                None => spec_parse(
                    old(self).tokens@,
                    (old(self).curr + 1) as nat,
                    token_prec(old(self).tokens@[old(self).curr as int]),
                ) is None,
            },
        decreases self.tokens@.len() - self.curr, 0nat,
    {
        let op = match self.curr() {
            Some(Token::Op(op)) => op,
            _ => {
                proof {
                    assert(false);
                }
                Op::Add
            },
        };
        let opp = self.curr_prec();
        self.next_token();
        match self.parse(opp) {
            Some(right) => Some(Expr::Bin(op, Box::new(left), Box::new(right))),
            None => None,
        }
    }

    /// Parses a parenthesized subexpression and requires the matching `Rp`.
    pub fn parse_grouped_expr(&mut self) -> (r: Option<Expr>)
        requires
            old(self).wf(),
            old(self).curr < old(self).tokens@.len(),
            old(self).tokens@[old(self).curr as int] is Lp,
        ensures
            final(self).wf(),
            final(self).tokens@ == old(self).tokens@,
            old(self).curr <= final(self).curr,
            match r {
                Some(e) => spec_prefix(old(self).tokens@, old(self).curr as nat) == Some(
                    (e, (final(self).curr + 1) as nat),
                ) && final(self).curr < final(self).tokens@.len() && expr_wf(e),
                None => spec_prefix(old(self).tokens@, old(self).curr as nat) is None,
            },
        decreases self.tokens@.len() - self.curr, 1nat,
    {
        self.next_token();
        let inner = match self.parse(0) {
            Some(e) => e,
            None => {
                return None;
            },
        };
        match self.peek() {
            Some(Token::Rp) => {
                self.next_token();
                Some(inner)
            },
            _ => None,
        }
    }
}

} // verus!
