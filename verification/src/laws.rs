//! Properties of the whole pipeline, stated and proved once for all inputs.

use vstd::prelude::*;
use crate::eval::EvalError;
use crate::eval::spec_eval;
use crate::eval::spec_eval_from;
use crate::expr::Expr;
use crate::lexer::LexError;
use crate::lexer::digit_count;
use crate::lexer::frac_digits;
use crate::lexer::is_digit_char;
use crate::lexer::lit_len;
use crate::lexer::lit_mant;
use crate::lexer::pow10;
use crate::lexer::spec_lex;
use crate::lexer::spec_read_number;
use crate::rat::Rat;
use crate::token::Op;
use crate::token::Token;

verus! {

/// A text made of digits and at most one decimal point is one whole literal.
proof fn lemma_lit_len_full(s: Seq<char>, seen: bool)
    requires
        forall|i: int| 0 <= i < s.len() ==> is_digit_char(#[trigger] s[i]) || s[i] == '.',
        seen ==> forall|i: int| 0 <= i < s.len() ==> s[i] != '.',
        forall|i: int, j: int| 0 <= i < j < s.len() && s[i] == '.' ==> s[j] != '.',
    ensures
        lit_len(s, seen) == s.len(),
    decreases s.len(),
{
    if s.len() > 0 {
        let rest = s.drop_first();
        assert(forall|i: int| 0 <= i < rest.len() ==> rest[i] == s[i + 1]);
        if is_digit_char(s[0]) {
            lemma_lit_len_full(rest, seen);
        } else {
            assert(s[0] == '.');
            assert(!seen);
            assert forall|i: int| 0 <= i < rest.len() implies rest[i] != '.' by {
                assert(s[i + 1] != '.');
            }
            lemma_lit_len_full(rest, true);
        }
    }
}

/// Every valid numeric literal evaluates to exactly its own value: lexing a
/// text of digits with at most one decimal point, at least one digit, a
/// mantissa within `i64`, and at most 18 fractional digits, then parsing and
/// evaluating it, yields exactly the rational the literal denotes.
pub proof fn lemma_literal_evaluates_to_itself(s: Seq<char>)
    requires
        s.len() > 0,
        forall|i: int| 0 <= i < s.len() ==> is_digit_char(#[trigger] s[i]) || s[i] == '.',
        forall|i: int, j: int| 0 <= i < j < s.len() && s[i] == '.' ==> s[j] != '.',
        digit_count(s) > 0,
        lit_mant(s) <= i64::MAX,
        frac_digits(s) <= 18,
    ensures
        spec_lex(s) == Ok::<Seq<Token>, LexError>(
            seq![
                Token::Num(
                    Rat { num: lit_mant(s) as i64, den: pow10(frac_digits(s)) as i64 },
                ),
            ],
        ),
        spec_eval_from(spec_lex(s)->Ok_0, 0) == Ok::<Rat, EvalError>(
            Rat { num: lit_mant(s) as i64, den: pow10(frac_digits(s)) as i64 },
        ),
{
    lemma_lit_len_full(s, false);
    assert(s.take(s.len() as int) =~= s);
    let tok = Token::Num(Rat { num: lit_mant(s) as i64, den: pow10(frac_digits(s)) as i64 });
    assert(spec_read_number(s) == Ok::<(Token, nat), LexError>((tok, s.len() as nat)));
    assert(s.skip(s.len() as int) =~= Seq::<char>::empty());
    assert(spec_lex(s.skip(s.len() as int)) == Ok::<Seq<Token>, LexError>(Seq::empty()));
    assert(seq![tok] + Seq::<Token>::empty() =~= seq![tok]);
    assert(spec_lex(s) == Ok::<Seq<Token>, LexError>(seq![tok]));
    let t = seq![tok];
    assert(t[0] == tok);
    assert(spec_eval_from(t, 0) == Ok::<Rat, EvalError>(
        Rat { num: lit_mant(s) as i64, den: pow10(frac_digits(s)) as i64 },
    ));
}

/// Division by a divisor of exactly zero is the defined "no value" outcome,
/// whatever the left operand holds: it is never a crash or a wrapped number.
pub proof fn lemma_div_by_zero(l: Box<Expr>, r: Box<Expr>, v: Rat)
    requires
        spec_eval(*r) == Ok::<Rat, EvalError>(v),
        v.num == 0,
    ensures
        spec_eval(Expr::Bin(Op::Div, l, r)) == Err::<Rat, EvalError>(EvalError::DivByZero),
{
}

/// The pipeline holds no hidden state: lexing, parsing and evaluating the
/// same text any number of times yields the same outcome every time, since
/// each stage's result is a function of the text alone.
pub proof fn lemma_same_text_same_outcome(s1: Seq<char>, s2: Seq<char>)
    requires
        s1 == s2,
    ensures
        spec_lex(s1) == spec_lex(s2),
        (match (spec_lex(s1), spec_lex(s2)) {
            (Ok(t1), Ok(t2)) => spec_eval_from(t1, 0) == spec_eval_from(t2, 0),
            _ => true,
        }),
{
}

} // verus!
