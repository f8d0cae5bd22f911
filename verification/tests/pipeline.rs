use exprcalc::eval::EvalError;
use exprcalc::lexer::LexError;
use exprcalc::lexer::Lexer;
use exprcalc::parser::Parser;
use exprcalc::rat::Rat;
use exprcalc::token::Token;

fn eval_str(s: &str) -> Result<Rat, EvalError> {
    let mut parser = Parser::new(s).unwrap();
    parser.eval()
}

fn to_f64(r: Rat) -> f64 {
    r.num as f64 / r.den as f64
}

#[test]
fn num() {
    assert_eq!(to_f64(eval_str("2 + 3 * 4").unwrap()), 14.0);
    assert_eq!(to_f64(eval_str("2 * 4 + 3").unwrap()), 11.0);
}

#[test]
fn literal_integer() {
    let v = eval_str("123").unwrap();
    assert_eq!(v, Rat::from_int(123));
    assert_eq!(to_f64(v), 123.0);
}

#[test]
fn literal_decimal() {
    let v = eval_str("123.456").unwrap();
    assert_eq!(v, Rat { num: 123456, den: 1000 });
    assert_eq!(to_f64(v), 123.456);
}

#[test]
fn literal_point_forms() {
    assert_eq!(eval_str("5.").unwrap(), Rat { num: 5, den: 1 });
    assert_eq!(eval_str(".5").unwrap(), Rat { num: 5, den: 10 });
    assert_eq!(eval_str("0.5").unwrap(), Rat { num: 5, den: 10 });
}

#[test]
fn addition_and_subtraction() {
    assert_eq!(to_f64(eval_str("123 + 456").unwrap()), 579.0);
    assert_eq!(to_f64(eval_str("123 - 456").unwrap()), -333.0);
}

#[test]
fn multiplication_and_division() {
    assert_eq!(to_f64(eval_str("123 * 456").unwrap()), 56088.0);
    assert_eq!(eval_str("123 / 456").unwrap(), Rat { num: 123, den: 456 });
    assert_eq!(eval_str("1 / 3").unwrap(), Rat { num: 1, den: 3 });
}

#[test]
fn grouping_overrides_precedence() {
    assert_eq!(to_f64(eval_str("(2 + 3) * 4").unwrap()), 20.0);
    assert_eq!(to_f64(eval_str("((2))").unwrap()), 2.0);
    assert_eq!(to_f64(eval_str("2 * (3 + 4)").unwrap()), 14.0);
}

#[test]
fn left_associativity() {
    assert_eq!(to_f64(eval_str("10 - 3 - 2").unwrap()), 5.0);
    assert_eq!(to_f64(eval_str("24 / 4 / 2").unwrap()), 3.0);
}

#[test]
fn unary_negation_binds_tighter() {
    assert_eq!(to_f64(eval_str("-2 + 3").unwrap()), 1.0);
    assert_eq!(to_f64(eval_str("-2 * 3").unwrap()), -6.0);
    assert_eq!(to_f64(eval_str("2 * -3").unwrap()), -6.0);
    assert_eq!(to_f64(eval_str("-(2 + 3)").unwrap()), -5.0);
}

#[test]
fn division_by_zero_is_no_value() {
    assert_eq!(eval_str("1 / 0"), Err(EvalError::DivByZero));
    assert_eq!(eval_str("1 / (2 - 2)"), Err(EvalError::DivByZero));
    assert_eq!(eval_str("1 / 0.5").unwrap(), Rat { num: 10, den: 5 });
}

#[test]
fn repeated_evaluation_is_stable() {
    let first = eval_str("2 + 3 * 4");
    let second = eval_str("2 + 3 * 4");
    let third = eval_str("2 + 3 * 4");
    assert_eq!(first, second);
    assert_eq!(second, third);
    assert_eq!(to_f64(first.unwrap()), 14.0);
}

#[test]
fn malformed_input_is_rejected() {
    assert_eq!(eval_str("2 + "), Err(EvalError::NoExpr));
    assert_eq!(eval_str("(2"), Err(EvalError::NoExpr));
    assert_eq!(eval_str(""), Err(EvalError::NoExpr));
    assert_eq!(eval_str("   "), Err(EvalError::NoExpr));
    assert_eq!(eval_str(") 2"), Err(EvalError::NoExpr));
}

#[test]
fn illegal_character_is_fatal() {
    assert_eq!(Parser::new("2 $ 3").err(), Some(LexError::IllegalChar('$')));
    assert_eq!(Parser::new("2 + a").err(), Some(LexError::IllegalChar('a')));
}

#[test]
fn lone_point_is_malformed() {
    assert_eq!(Parser::new(".").err(), Some(LexError::MalformedNumber));
    assert_eq!(Parser::new("2 + .").err(), Some(LexError::MalformedNumber));
}

#[test]
fn oversized_literals_are_fatal() {
    assert_eq!(
        Parser::new("99999999999999999999").err(),
        Some(LexError::NumberTooLarge)
    );
    assert_eq!(
        Parser::new("0.0000000000000000001").err(),
        Some(LexError::NumberTooLarge)
    );
    assert_eq!(eval_str("9223372036854775807").unwrap(), Rat { num: i64::MAX, den: 1 });
}

#[test]
fn oversized_result_is_no_value() {
    assert_eq!(
        eval_str("9000000000000000000 * 9000000000000000000"),
        Err(EvalError::TooLarge)
    );
    assert_eq!(eval_str("- -9223372036854775807").unwrap(), Rat { num: i64::MAX, den: 1 });
}

#[test]
fn whitespace_is_skipped() {
    assert_eq!(to_f64(eval_str(" 2 +\t3\n* 4 ").unwrap()), 14.0);
    assert_eq!(to_f64(eval_str("2 ").unwrap()), 2.0);
}

#[test]
fn lexer_cursor_moves_forward() {
    let mut lx = Lexer::new(" 42");
    lx.skip_whitespace();
    assert!(matches!(lx.curr, Some('4')));
    lx.read_char();
    assert!(matches!(lx.curr, Some('2')));
    let tok = lx.next().unwrap();
    assert_eq!(tok, Some(Token::Num(Rat { num: 2, den: 1 })));
    assert_eq!(lx.next().unwrap(), None);
}

#[test]
fn lexer_reports_tokens_in_order() {
    let mut lx = Lexer::new("(1 + 2.5)");
    let mut toks: Vec<Token> = Vec::new();
    while let Some(t) = lx.next().unwrap() {
        toks.push(t);
    }
    assert_eq!(
        toks,
        vec![
            Token::Lp,
            Token::Num(Rat { num: 1, den: 1 }),
            Token::Op(exprcalc::token::Op::Add),
            Token::Num(Rat { num: 25, den: 10 }),
            Token::Rp,
        ]
    );
}
