use exprcalc::lexer::Tokenizer;
use exprcalc::machine::{push_numerals, ArithOp, EvalMachine, EvalOutcome, Status};
use exprcalc::parser::MathExpressionParser;
use exprcalc::token::{CalcError, MathError, Token, TokenError};

/// Performs one raw IEEE-754 arithmetic step requested by the machine.
fn arith(op: ArithOp, lhs: u64, rhs: u64) -> u64 {
    let a = f64::from_bits(lhs);
    let b = f64::from_bits(rhs);
    let r = match op {
        ArithOp::Add => a + b,
        ArithOp::Sub => a - b,
        ArithOp::Mul => a * b,
        ArithOp::Div => a / b,
        ArithOp::Pow => a.powf(b),
    };
    r.to_bits()
}

/// The full pipeline: lex, compile, bind the numerals' values, and run
/// the machine, computing each requested arithmetic step on doubles.
fn evaluate(input: &str) -> Result<f64, CalcError> {
    let mut tokenizer = Tokenizer::new(input);
    let tokens = match tokenizer.tokenize() {
        Ok(tokens) => tokens,
        Err(e) => return Err(CalcError::Token(e)),
    };
    let mut parser = MathExpressionParser::new(tokens);
    let program = parser.compile();
    let numerals = push_numerals(&program.ops);
    let mut values: Vec<u64> = Vec::new();
    for n in &numerals {
        match n.parse::<f64>() {
            Ok(v) if v.is_finite() => values.push(v.to_bits()),
            // never reached: the lexer admits only finite numerals
            _ => return Err(CalcError::Token(TokenError::InvalidNumber(n.clone()))),
        }
    }
    let mut machine = EvalMachine::for_program(program, values);
    let mut status = machine.step();
    loop {
        match status {
            Status::Running => {
                status = machine.step();
            }
            Status::NeedArith(req) => {
                status = machine.provide(arith(req.op, req.lhs, req.rhs));
            }
            Status::Finished => break,
        }
    }
    match machine.finish() {
        EvalOutcome::Value(bits) => Ok(f64::from_bits(bits)),
        EvalOutcome::Failure(e) => Err(e),
    }
}

#[test]
fn test_unmatched_parentheses_simulated() {
    let expression = "((1+2))))) =";

    let mut tokenizer = Tokenizer::new(expression);
    let result = tokenizer.tokenize();
    let tokens = result.unwrap();
    let mut parser = MathExpressionParser::new(tokens);
    let program = parser.compile();
    let numerals = push_numerals(&program.ops);
    let values: Vec<u64> = numerals
        .iter()
        .map(|n| n.parse::<f64>().unwrap().to_bits())
        .collect();
    let mut machine = EvalMachine::for_program(program, values);
    let mut status = machine.step();
    loop {
        match status {
            Status::Running => status = machine.step(),
            Status::NeedArith(req) => status = machine.provide(arith(req.op, req.lhs, req.rhs)),
            Status::Finished => break,
        }
    }

    println!("{:?}", machine.finish());
}

#[test]
fn precedence_of_multiplication() {
    assert_eq!(evaluate("2+3*4="), Ok(14.0));
}

#[test]
fn parentheses_override_precedence() {
    assert_eq!(evaluate("(2+3)*4="), Ok(20.0));
}

#[test]
fn implicit_multiplication_number_paren() {
    assert_eq!(evaluate("2(3+4)="), Ok(14.0));
}

#[test]
fn implicit_multiplication_adjacent_numbers() {
    assert_eq!(evaluate("4 5="), Ok(20.0));
}

#[test]
fn implicit_multiplication_after_operator_operand() {
    assert_eq!(evaluate("2+3 4="), Ok(14.0));
}

#[test]
fn implicit_multiplication_paren_number() {
    assert_eq!(evaluate("(2)3="), Ok(6.0));
}

#[test]
fn exponentiation_is_right_associative() {
    assert_eq!(evaluate("2^3^2="), Ok(512.0));
}

#[test]
fn cube_root() {
    assert_eq!(evaluate("27$3="), Ok(3.0));
}

#[test]
fn odd_root_of_negative_base() {
    assert_eq!(evaluate("-8$3="), Ok(-2.0));
}

#[test]
fn fractional_root_index() {
    assert_eq!(evaluate("2$0.5="), Ok(4.0));
}

#[test]
fn root_of_zero() {
    assert_eq!(evaluate("0$2="), Ok(0.0));
}

#[test]
fn division_by_zero() {
    assert_eq!(
        evaluate("5/0="),
        Err(CalcError::Math(MathError::DivisionByZero))
    );
}

#[test]
fn division_by_negative_zero() {
    assert_eq!(
        evaluate("1/-0="),
        Err(CalcError::Math(MathError::DivisionByZero))
    );
}

#[test]
fn even_root_of_negative_base() {
    assert_eq!(
        evaluate("(-8)$2="),
        Err(CalcError::Math(MathError::EvenRootOfNegative {
            base: (-8.0f64).to_bits(),
            root: 2.0f64.to_bits(),
        }))
    );
}

#[test]
fn fractional_root_of_negative_base() {
    assert_eq!(
        evaluate("(-8)$2.5="),
        Err(CalcError::Math(MathError::NegativeRoot {
            base: (-8.0f64).to_bits(),
            root: 2.5f64.to_bits(),
        }))
    );
}

#[test]
fn root_index_zero() {
    assert_eq!(
        evaluate("0$0="),
        Err(CalcError::Math(MathError::DivisionByZero))
    );
}

#[test]
fn unmatched_opening_parenthesis() {
    assert_eq!(
        evaluate("((1+2)="),
        Err(CalcError::Token(TokenError::UnmatchedParenthesis {
            found: ')',
            position: 7,
        }))
    );
}

#[test]
fn closing_parenthesis_without_opening() {
    assert!(matches!(
        evaluate(")1="),
        Err(CalcError::Token(TokenError::UnmatchedParenthesis { .. }))
    ));
}

#[test]
fn missing_terminator_at_end_of_input() {
    assert_eq!(evaluate("1+2"), Err(CalcError::Token(TokenError::UnexpectedEnd)));
}

#[test]
fn trailing_token_instead_of_terminator() {
    assert_eq!(
        evaluate("1+2)="),
        Err(CalcError::Token(TokenError::UnexpectedToken(
            Token::RightParen
        )))
    );
}

#[test]
fn tokens_after_terminator_are_ignored() {
    assert_eq!(evaluate("1=2"), Ok(1.0));
}

#[test]
fn arithmetic_error_precedes_later_syntax_error() {
    assert_eq!(
        evaluate("5/0)="),
        Err(CalcError::Math(MathError::DivisionByZero))
    );
}

#[test]
fn invalid_operator_character() {
    assert_eq!(
        evaluate("2%3="),
        Err(CalcError::Token(TokenError::InvalidOperator('%')))
    );
}

#[test]
fn numeral_with_two_decimal_points() {
    assert_eq!(
        evaluate("2..3="),
        Err(CalcError::Token(TokenError::InvalidNumber("2..".to_string())))
    );
}

#[test]
fn lone_decimal_point() {
    assert_eq!(
        evaluate(".="),
        Err(CalcError::Token(TokenError::InvalidNumber(".".to_string())))
    );
}

#[test]
fn missing_operand_after_operator() {
    assert!(matches!(
        evaluate("2 + ="),
        Err(CalcError::Token(TokenError::InvalidExpression(_)))
    ));
}

#[test]
fn decimal_numerals() {
    assert_eq!(evaluate("3.14="), Ok(3.14));
    assert_eq!(evaluate(".5+.5="), Ok(1.0));
    assert_eq!(evaluate("5.="), Ok(5.0));
}

#[test]
fn whitespace_is_skipped() {
    assert_eq!(evaluate("  2 +\t3 ="), Ok(5.0));
}

#[test]
fn repeated_negation() {
    assert_eq!(evaluate("--5="), Ok(5.0));
}

#[test]
fn negation_of_zero_keeps_its_sign() {
    let v = evaluate("-0=").unwrap();
    assert_eq!(v.to_bits(), 0x8000_0000_0000_0000);
}

#[test]
fn evaluation_is_deterministic() {
    let input = "(3 + 5 * (2 - 3) ^ 2) / (4 - 1) + -2 * (5 + 2) ^ 3 - 10 =";
    let first = evaluate(input);
    let second = evaluate(input);
    assert_eq!(first, second);
    assert_eq!(format!("{:.3}", first.unwrap()), "-693.333");
    assert_eq!(evaluate("(-8)$2="), evaluate("(-8)$2="));
}

#[test]
fn empty_input_is_not_an_expression() {
    assert!(matches!(
        evaluate(""),
        Err(CalcError::Token(TokenError::InvalidExpression(_)))
    ));
    assert!(matches!(
        evaluate("   "),
        Err(CalcError::Token(TokenError::InvalidExpression(_)))
    ));
}

#[test]
fn bare_terminator_is_not_an_expression() {
    assert!(matches!(
        evaluate("="),
        Err(CalcError::Token(TokenError::InvalidExpression(_)))
    ));
}

#[test]
fn extra_parentheses_do_not_change_the_value() {
    assert_eq!(evaluate("((2+3))*4="), Ok(20.0));
    assert_eq!(evaluate("(((7)))="), Ok(7.0));
    assert_eq!(evaluate("2+3*4="), evaluate("((2))+((3*4))="));
}

#[test]
fn addition_overflow_is_rejected() {
    let big = "9".repeat(308);
    let input = format!("{}+{}=", big, big);
    assert_eq!(
        evaluate(&input),
        Err(CalcError::Math(MathError::OverflowError))
    );
}

#[test]
fn exponentiation_to_infinity_is_rejected() {
    assert_eq!(
        evaluate("99999999^99999999="),
        Err(CalcError::Math(MathError::InvalidExponentiation {
            base: 99999999.0f64.to_bits(),
            exponent: 99999999.0f64.to_bits(),
        }))
    );
}

#[test]
fn subnormal_result_is_rejected_as_underflow() {
    assert_eq!(
        evaluate(".00001^64="),
        Err(CalcError::Math(MathError::UnderflowError))
    );
}

#[test]
fn subnormal_literal_passes_but_operating_on_it_underflows() {
    let tiny = format!(".{}1", "0".repeat(310));
    let v = evaluate(&format!("{}=", tiny)).unwrap();
    assert!(v > 0.0 && v < f64::MIN_POSITIVE);
    assert_eq!(
        evaluate(&format!("{}*1=", tiny)),
        Err(CalcError::Math(MathError::UnderflowError))
    );
}

#[test]
fn largest_finite_numeral_is_accepted() {
    // one below the decimal threshold of two to the 1024th minus two to
    // the 970th: still rounds to the largest finite double
    let just_under = "179769313486231580793728971405303415079934132710037826936173778980444968292764750946649017977587207096330286416692887910946555547851940402630657488671505820681908902000708383676273854845817711531764475730270069855571366959622842914819860834936475292719074168444365510704342711559699508093042880177904174497791";
    assert_eq!(evaluate(&format!("{}=", just_under)), Ok(f64::MAX));
}

#[test]
fn numeral_at_overflow_threshold_is_rejected() {
    let threshold = "179769313486231580793728971405303415079934132710037826936173778980444968292764750946649017977587207096330286416692887910946555547851940402630657488671505820681908902000708383676273854845817711531764475730270069855571366959622842914819860834936475292719074168444365510704342711559699508093042880177904174497792";
    assert_eq!(
        evaluate(&format!("{}=", threshold)),
        Err(CalcError::Token(TokenError::InvalidNumber(
            threshold.to_string()
        )))
    );
}

#[test]
fn oversized_numeral_is_rejected() {
    let huge = "9".repeat(310);
    assert_eq!(
        evaluate(&format!("{}=", huge)),
        Err(CalcError::Token(TokenError::InvalidNumber(huge.clone())))
    );
}

#[test]
fn zeros_do_not_rescue_an_oversized_numeral() {
    let threshold = "179769313486231580793728971405303415079934132710037826936173778980444968292764750946649017977587207096330286416692887910946555547851940402630657488671505820681908902000708383676273854845817711531764475730270069855571366959622842914819860834936475292719074168444365510704342711559699508093042880177904174497792";
    let padded = format!("000{}", threshold);
    assert!(matches!(
        evaluate(&format!("{}=", padded)),
        Err(CalcError::Token(TokenError::InvalidNumber(_)))
    ));
    // a fraction cannot bring a threshold-sized integer part back down
    assert!(matches!(
        evaluate(&format!("{}.5=", threshold)),
        Err(CalcError::Token(TokenError::InvalidNumber(_)))
    ));
}

#[test]
fn full_length_numeral_below_the_threshold_is_accepted() {
    let n = format!("1{}", "0".repeat(308));
    assert_eq!(evaluate(&format!("{}=", n)), Ok(1e308));
}

#[test]
fn root_whose_power_overflows_is_an_invalid_root() {
    assert_eq!(
        evaluate("9999999999$0.01="),
        Err(CalcError::Math(MathError::InvalidRoot {
            base: 9999999999.0f64.to_bits(),
            root: 0.01f64.to_bits(),
        }))
    );
}

#[test]
fn long_operator_chains_are_iterative() {
    let input = format!("{}1=", "1+".repeat(999));
    assert_eq!(evaluate(&input), Ok(1000.0));
    let input = format!("{}1=", "2*".repeat(100));
    assert_eq!(evaluate(&input), Ok(2.0f64.powi(100)));
}

#[test]
fn deep_exponent_and_negation_chains_are_rejected() {
    let input = format!("{}5=", "-".repeat(300));
    assert_eq!(
        evaluate(&input),
        Err(CalcError::Math(MathError::ExpressionTooComplex))
    );
    let input = format!("2{}=", "^1".repeat(300));
    assert_eq!(
        evaluate(&input),
        Err(CalcError::Math(MathError::ExpressionTooComplex))
    );
}

#[test]
fn nesting_beyond_the_depth_limit_is_rejected() {
    let input = format!("{}1{}=", "(".repeat(300), ")".repeat(300));
    assert_eq!(
        evaluate(&input),
        Err(CalcError::Math(MathError::ExpressionTooComplex))
    );
}

#[test]
fn deep_but_allowed_nesting_evaluates() {
    let input = format!("{}1{}=", "(".repeat(100), ")".repeat(100));
    assert_eq!(evaluate(&input), Ok(1.0));
}

#[test]
fn token_from_char_classifies_symbols() {
    assert_eq!(Token::from_char('+'), Some(Token::Plus));
    assert_eq!(Token::from_char('$'), Some(Token::Dollar));
    assert_eq!(Token::from_char('x'), None);
}

#[test]
fn is_operator_only_for_additive_and_multiplicative() {
    assert!(Token::Plus.is_operator());
    assert!(Token::Divide.is_operator());
    assert!(!Token::LeftParen.is_operator());
    assert!(!Token::Caret.is_operator());
}
