//! The lexer: turns the source text, taken character by character, into a
//! sequence of tokens.
//!
//! Whitespace separates tokens and is never emitted. A digit or a decimal
//! point starts a numeric literal, which consumes consecutive digits and at
//! most one point. The single characters `+ - * / ( )` map directly to their
//! tokens. Any other character is a fatal lexing error, as is a literal with
//! no digit and one whose value does not fit the rational representation.

use vstd::prelude::*;
use vstd::string::StrSliceExecFns;
use crate::rat::Rat;
use crate::token::Token;
use crate::token::Op;
use crate::token::token_wf;

verus! {

/// A fatal lexing error: the source text yields no usable token sequence.
#[derive(Clone, Copy, Debug, PartialEq, Eq, Structural)]
pub enum LexError {
    /// A character outside the supported token set, reported as found.
    IllegalChar(char),
    /// A numeric literal with no digit (a lone decimal point).
    MalformedNumber,
    /// A numeric literal whose mantissa or fractional part exceeds the
    /// machine representation of rationals.
    NumberTooLarge,
}

/// An ASCII decimal digit.
pub open spec fn is_digit_char(c: char) -> bool {
    48 <= c as u32 <= 57
}

/// The numeric value of an ASCII digit.
pub open spec fn digit_val(c: char) -> int {
    c as u32 - 48
}

/// A Unicode whitespace character (the White_Space property): the characters
/// that separate tokens without being part of any.
pub open spec fn is_space_char(c: char) -> bool {
    let u = c as u32;
    ||| u == 32
    ||| 9 <= u <= 13
    ||| u == 0x85
    ||| u == 0xA0
    ||| u == 0x1680
    ||| 0x2000 <= u <= 0x200A
    ||| u == 0x2028
    ||| u == 0x2029
    ||| u == 0x202F
    ||| u == 0x205F
    ||| u == 0x3000
}

/// How many characters of `s` the numeric literal starting at its head
/// covers: consecutive digits and, unless one was already seen, at most one
/// decimal point.
pub open spec fn lit_len(s: Seq<char>, seen_point: bool) -> nat
    decreases s.len(),
{
    if s.len() == 0 {
        0
    } else if is_digit_char(s[0]) {
        1 + lit_len(s.drop_first(), seen_point)
    } else if s[0] == '.' && !seen_point {
        1 + lit_len(s.drop_first(), true)
    } else {
        0
    }
}

/// The integer formed by the digit characters of `s`, read left to right;
/// non-digit characters (the decimal point) contribute nothing.
pub open spec fn lit_mant(s: Seq<char>) -> int
    decreases s.len(),
{
    if s.len() == 0 {
        0
    } else if is_digit_char(s.last()) {
        lit_mant(s.drop_last()) * 10 + digit_val(s.last())
    } else {
        lit_mant(s.drop_last())
    }
}

/// Whether `s` contains a decimal point.
pub open spec fn has_point(s: Seq<char>) -> bool
    decreases s.len(),
{
    if s.len() == 0 {
        false
    } else {
        s.last() == '.' || has_point(s.drop_last())
    }
}

/// The number of characters after the decimal point of `s` (0 without one).
pub open spec fn frac_digits(s: Seq<char>) -> nat
    decreases s.len(),
{
    if s.len() == 0 {
        0
    } else if s.last() == '.' {
        0
    } else if has_point(s.drop_last()) {
        1 + frac_digits(s.drop_last())
    } else {
        0
    }
}

/// The number of digit characters of `s`.
pub open spec fn digit_count(s: Seq<char>) -> nat
    decreases s.len(),
{
    if s.len() == 0 {
        0
    } else if is_digit_char(s.last()) {
        1 + digit_count(s.drop_last())
    } else {
        digit_count(s.drop_last())
    }
}

/// Ten to the power `n`.
pub open spec fn pow10(n: nat) -> int
    decreases n,
{
    if n == 0 {
        1
    } else {
        10 * pow10((n - 1) as nat)
    }
}

/// The value of the numeric literal at the head of `s` and how many
/// characters it covers, or the lexing error it raises: no digit at all, a
/// mantissa above `i64::MAX`, or more than 18 fractional digits.
pub open spec fn spec_read_number(s: Seq<char>) -> Result<(Token, nat), LexError> {
    let l = lit_len(s, false);
    let lit = s.take(l as int);
    if digit_count(lit) == 0 {
        Err(LexError::MalformedNumber)
    } else if lit_mant(lit) > i64::MAX || frac_digits(lit) > 18 {
        Err(LexError::NumberTooLarge)
    } else {
        Ok((Token::Num(Rat { num: lit_mant(lit) as i64, den: pow10(frac_digits(lit)) as i64 }), l))
    }
}

/// The token sequence of the source text `s`, or the first fatal lexing
/// error met while reading it left to right.
pub open spec fn spec_lex(s: Seq<char>) -> Result<Seq<Token>, LexError>
    decreases s.len(),
{
    if s.len() == 0 {
        Ok(Seq::empty())
    } else if is_space_char(s[0]) {
        spec_lex(s.drop_first())
    } else if is_digit_char(s[0]) || s[0] == '.' {
        match spec_read_number(s) {
            Ok((t, l)) => {
                if 1 <= l <= s.len() {
                    match spec_lex(s.skip(l as int)) {
                        Ok(rest) => Ok(seq![t] + rest),
                        Err(e) => Err(e),
                    }
                } else {
                    // a literal always covers at least its first character
                    Err(LexError::MalformedNumber)
                }
            },
            Err(e) => Err(e),
        }
    } else if s[0] == '+' || s[0] == '-' || s[0] == '*' || s[0] == '/' || s[0] == '(' || s[0]
        == ')' {
        let t = if s[0] == '+' {
            Token::Op(Op::Add)
        } else if s[0] == '-' {
            Token::Op(Op::Sub)
        } else if s[0] == '*' {
            Token::Op(Op::Mul)
        } else if s[0] == '/' {
            Token::Op(Op::Div)
        } else if s[0] == '(' {
            Token::Lp
        } else {
            Token::Rp
        };
        match spec_lex(s.drop_first()) {
            Ok(rest) => Ok(seq![t] + rest),
            Err(e) => Err(e),
        }
    } else {
        Err(LexError::IllegalChar(s[0]))
    }
}

/// Ten to any power is at least one.
pub proof fn lemma_pow10_pos(n: nat)
    ensures
        pow10(n) >= 1,
    decreases n,
{
    if n > 0 {
        lemma_pow10_pos((n - 1) as nat);
    }
}

/// Ten to a power grows with the power.
pub proof fn lemma_pow10_mono(a: nat, b: nat)
    requires
        a <= b,
    ensures
        pow10(a) <= pow10(b),
    decreases b,
{
    if a < b {
        lemma_pow10_mono(a, (b - 1) as nat);
        lemma_pow10_pos((b - 1) as nat);
    }
}

/// Ten to a power small enough for an `i64` denominator.
pub proof fn lemma_pow10_bounds(n: nat)
    requires
        n <= 18,
    ensures
        1 <= pow10(n) <= 1_000_000_000_000_000_000,
{
    lemma_pow10_pos(n);
    lemma_pow10_mono(n, 18);
    reveal_with_fuel(pow10, 19);
    assert(pow10(18) == 1_000_000_000_000_000_000);
}

/// Leading whitespace never changes what the rest of the text lexes to.
pub proof fn lemma_lex_skip_spaces(s: Seq<char>, k: int)
    requires
        0 <= k <= s.len(),
        forall|i: int| 0 <= i < k ==> is_space_char(#[trigger] s[i]),
    ensures
        spec_lex(s) == spec_lex(s.skip(k)),
    decreases k,
{
    if k == 0 {
        assert(s.skip(0) =~= s);
    } else {
        assert(is_space_char(s[0]));
        assert(s.drop_first() =~= s.skip(1));
        lemma_lex_skip_spaces(s.skip(1), k - 1);
        assert(s.skip(1).skip(k - 1) =~= s.skip(k));
    }
}

/// The character cursor over the source text: `curr` mirrors the character
/// at `pos`, or is `None` at the end.
pub struct Lexer {
    pub input: Vec<char>,
    pub pos: usize,
    pub curr: Option<char>,
}

/// `pow10(n)` as a machine value, for denominators.
fn pow10_exec(n: usize) -> (d: i64)
    requires
        n <= 18,
    ensures
        d == pow10(n as nat),
        d >= 1,
{
    let mut d: i64 = 1;
    let mut k: usize = 0;
    while k < n
        invariant
            k <= n <= 18,
            d == pow10(k as nat),
        decreases n - k,
    {
        proof {
            lemma_pow10_bounds((k + 1) as nat);
        }
        d = d * 10;
        k = k + 1;
    }
    proof {
        lemma_pow10_bounds(n as nat);
    }
    d
}

/// Whether `c` is an ASCII decimal digit.
fn is_digit(c: char) -> (b: bool)
    ensures
        b == is_digit_char(c),
{
    let u = c as u32;
    48 <= u && u <= 57
}

/// Whether `c` is Unicode whitespace.
fn is_space(c: char) -> (b: bool)
    ensures
        b == is_space_char(c),
{
    let u = c as u32;
    u == 32 || (9 <= u && u <= 13) || u == 0x85 || u == 0xA0 || u == 0x1680 || (0x2000 <= u && u
        <= 0x200A) || u == 0x2028 || u == 0x2029 || u == 0x202F || u == 0x205F || u == 0x3000
}

/// The characters of `s`, in order.
fn chars_of(s: &str) -> (r: Vec<char>)
    ensures
        r@ == s@,
{
    let n = s.unicode_len();
    let mut r: Vec<char> = Vec::new();
    let mut i: usize = 0;
    while i < n
        invariant
            i <= n,
            n == s@.len(),
            r@ == s@.take(i as int),
        decreases n - i,
    {
        let c = s.get_char(i);
        r.push(c);
        proof {
            assert(s@.take(i as int).push(s@[i as int]) =~= s@.take(i + 1 as int));
        }
        i = i + 1;
    }
    proof {
        assert(s@.take(n as int) =~= s@);
    }
    r
}

impl Lexer {
    /// The cursor stands inside the text and `curr` is the character there.
    pub open spec fn wf(self) -> bool {
        &&& self.pos <= self.input@.len()
        &&& self.curr == (if self.pos < self.input@.len() {
            Some(self.input@[self.pos as int])
        } else {
            None::<char>
        })
    }

    /// The text not yet consumed.
    pub open spec fn rest(self) -> Seq<char> {
        self.input@.skip(self.pos as int)
    }

    /// A fresh lexer at the start of `input`, read character by character so
    /// that multi-byte text is handled safely.
    pub fn new(input: &str) -> (l: Lexer)
        ensures
            l.wf(),
            l.input@ == input@,
            l.pos == 0,
    {
        let chars = chars_of(input);
        let curr = if chars.len() > 0 {
            Some(chars[0])
        } else {
            None
        };
        Lexer { input: chars, pos: 0, curr }
    }

    /// Advances the cursor one character.
    pub fn read_char(&mut self)
        requires
            old(self).wf(),
            old(self).pos < old(self).input@.len(),
        ensures
            final(self).wf(),
            final(self).input@ == old(self).input@,
            final(self).pos == old(self).pos + 1,
    {
        let n = self.input.len();
        self.pos = self.pos + 1;
        self.curr = if self.pos < n {
            Some(self.input[self.pos])
        } else {
            None
        };
    }

    /// Whether the cursor stands on whitespace.
    fn on_space(&self) -> (b: bool)
        requires
            self.wf(),
        ensures
            b == (self.pos < self.input@.len() && is_space_char(self.input@[self.pos as int])),
    {
        match self.curr {
            Some(c) => is_space(c),
            None => false,
        }
    }

    /// Advances the cursor past whitespace, up to the next token character or
    /// the end of the text.
    pub fn skip_whitespace(&mut self)
        requires
            old(self).wf(),
        ensures
            final(self).wf(),
            final(self).input@ == old(self).input@,
            old(self).pos <= final(self).pos <= final(self).input@.len(),
            forall|i: int|
                old(self).pos <= i < final(self).pos ==> is_space_char(
                    #[trigger] final(self).input@[i],
                ),
            final(self).pos < final(self).input@.len() ==> !is_space_char(
                final(self).input@[final(self).pos as int],
            ),
    {
        while self.on_space()
            invariant
                self.wf(),
                self.input@ == old(self).input@,
                old(self).pos <= self.pos <= self.input@.len(),
                forall|i: int|
                    old(self).pos <= i < self.pos ==> is_space_char(#[trigger] self.input@[i]),
            decreases self.input@.len() - self.pos,
        {
            self.read_char();
        }
    }

    /// Whether the cursor stands on a character that extends the current
    /// numeric literal: a digit, or a first decimal point.
    fn lit_continues(&self, seen_point: bool) -> (b: bool)
        requires
            self.wf(),
        ensures
            b == (self.pos < self.input@.len() && (is_digit_char(self.input@[self.pos as int])
                || (self.input@[self.pos as int] == '.' && !seen_point))),
    {
        match self.curr {
            Some(c) => is_digit(c) || (c == '.' && !seen_point),
            None => false,
        }
    }

    /// Reads the numeric literal under the cursor: consecutive digits and at
    /// most one decimal point, turned into an exact rational token.
    pub fn read_number(&mut self) -> (r: Result<Token, LexError>)
        requires
            old(self).wf(),
            old(self).pos < old(self).input@.len(),
            is_digit_char(old(self).input@[old(self).pos as int]) || old(self).input@[old(
                self,
            ).pos as int] == '.',
        ensures
            final(self).wf(),
            final(self).input@ == old(self).input@,
            old(self).pos <= final(self).pos <= final(self).input@.len(),
            match r {
                Ok(t) => spec_read_number(old(self).rest()) == Ok::<_, LexError>(
                    (t, (final(self).pos - old(self).pos) as nat),
                ) && token_wf(t),
                Err(e) => spec_read_number(old(self).rest()) == Err::<(Token, nat), LexError>(e),
            },
    {
        let ghost s = self.rest();
        let ghost pos0 = self.pos as int;
        let mut mant: i64 = 0;
        let mut too_big: bool = false;
        let mut seen_point: bool = false;
        let mut has_digit: bool = false;
        let mut fcount: usize = 0;
        while self.lit_continues(seen_point)
            invariant
                self.wf(),
                self.input@ == old(self).input@,
                pos0 == old(self).pos,
                s == self.input@.skip(pos0),
                pos0 <= self.pos <= self.input@.len(),
                lit_len(s, false) == (self.pos - pos0) + lit_len(
                    self.input@.skip(self.pos as int),
                    seen_point,
                ),
                seen_point == has_point(s.take(self.pos - pos0)),
                has_digit == (digit_count(s.take(self.pos - pos0)) > 0),
                fcount == frac_digits(s.take(self.pos - pos0)),
                fcount <= self.pos - pos0,
                mant >= 0,
                !too_big ==> mant == lit_mant(s.take(self.pos - pos0)),
                too_big ==> lit_mant(s.take(self.pos - pos0)) > i64::MAX,
            decreases self.input@.len() - self.pos,
        {
            let c = match self.curr {
                Some(c) => c,
                None => {
                    proof {
                        assert(false);
                    }
                    ' '
                },
            };
            let ghost j = self.pos - pos0;
            proof {
                assert(s[j] == self.input@[pos0 + j]);
                assert(s.take(j + 1).drop_last() =~= s.take(j));
                assert(s.take(j + 1).last() == s[j]);
                assert(self.input@.skip(self.pos as int)[0] == self.input@[pos0 + j]);
                assert(self.input@.skip(self.pos as int).drop_first() =~= self.input@.skip(
                    self.pos + 1,
                ));
            }
            if is_digit(c) {
                let dv = (c as u32 - 48) as i64;
                if !too_big {
                    let m2: i128 = mant as i128 * 10 + dv as i128;
                    if m2 > i64::MAX as i128 {
                        too_big = true;
                    } else {
                        mant = m2 as i64;
                    }
                }
                if seen_point {
                    let n = self.input.len();
                    proof {
                        assert(fcount < n);
                    }
                    fcount = fcount + 1;
                }
                has_digit = true;
            } else {
                seen_point = true;
                fcount = 0;
            }
            self.read_char();
        }
        let ghost l = self.pos - pos0;
        proof {
            if self.pos < self.input@.len() {
                assert(self.input@.skip(self.pos as int)[0] == self.input@[pos0 + l]);
            }
            assert(lit_len(self.input@.skip(self.pos as int), seen_point) == 0);
            assert(lit_len(s, false) == l);
            assert(s.take(l) == s.take(lit_len(s, false) as int));
        }
        if !has_digit {
            return Err(LexError::MalformedNumber);
        }
        if too_big || fcount > 18 {
            return Err(LexError::NumberTooLarge);
        }
        let den = pow10_exec(fcount);
        Ok(Token::Num(Rat { num: mant, den }))
    }

    /// The next token of the text, `None` at its end, or the first fatal
    /// lexing error: what remains of the text always lexes to what it did,
    /// less the token handed out.
    pub fn next(&mut self) -> (r: Result<Option<Token>, LexError>)
        requires
            old(self).wf(),
        ensures
            final(self).wf(),
            final(self).input@ == old(self).input@,
            old(self).pos <= final(self).pos <= final(self).input@.len(),
            match r {
                Ok(Some(t)) => spec_lex(old(self).rest()) == (match spec_lex(final(self).rest()) {
                    Ok(ts) => Ok::<Seq<Token>, LexError>(seq![t] + ts),
                    Err(e) => Err(e),
                }) && token_wf(t) && old(self).pos < final(self).pos,
                Ok(None) => spec_lex(old(self).rest()) == Ok::<Seq<Token>, LexError>(Seq::empty())
                    && final(self).pos == final(self).input@.len(),
                Err(e) => spec_lex(old(self).rest()) == Err::<Seq<Token>, LexError>(e),
            },
    {
        let ghost s0 = self.rest();
        self.skip_whitespace();
        proof {
            assert(self.rest() =~= s0.skip(self.pos - old(self).pos));
            lemma_lex_skip_spaces(s0, self.pos - old(self).pos);
        }
        let ghost s1 = self.rest();
        let c = match self.curr {
            Some(c) => c,
            None => {
                return Ok(None);
            },
        };
        if is_digit(c) || c == '.' {
            let ghost p1 = self.pos as int;
            match self.read_number() {
                Ok(t) => {
                    proof {
                        assert(s1.skip(self.pos - p1) =~= self.rest());
                    }
                    Ok(Some(t))
                },
                Err(e) => Err(e),
            }
        } else if c == '+' || c == '-' || c == '*' || c == '/' || c == '(' || c == ')' {
            let t = if c == '+' {
                Token::Op(Op::Add)
            } else if c == '-' {
                Token::Op(Op::Sub)
            } else if c == '*' {
                Token::Op(Op::Mul)
            } else if c == '(' {
                Token::Lp
            } else if c == ')' {
                Token::Rp
            } else {
                Token::Op(Op::Div)
            };
            self.read_char();
            proof {
                assert(s1.drop_first() =~= self.rest());
            }
            Ok(Some(t))
        } else {
            Err(LexError::IllegalChar(c))
        }
    }
}

} // verus!
