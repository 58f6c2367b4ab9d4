use expr_eval::errors::{ArithmeticError, Expected, ExpressionError};
use expr_eval::parser::evaluate;

#[test]
fn test_add_basic() {
    assert_eq!(evaluate("4+5"), Ok(9));
}

#[test]
fn test_sub_basic() {
    assert_eq!(evaluate("10-3"), Ok(7));
}

#[test]
fn test_mul_basic() {
    assert_eq!(evaluate("6*7"), Ok(42));
}

#[test]
fn test_div_basic() {
    assert_eq!(evaluate("20/5"), Ok(4));
}

#[test]
fn test_single_number() {
    assert_eq!(evaluate("42"), Ok(42));
}

#[test]
fn test_precedence() {
    assert_eq!(evaluate("2+3*4"), Ok(14));
    assert_eq!(evaluate("(2+3)*4"), Ok(20));
}

#[test]
fn test_left_associativity() {
    assert_eq!(evaluate("10-3-2"), Ok(5));
}

#[test]
fn test_division_left_associativity() {
    assert_eq!(evaluate("20/4/2"), Ok(2));
}

#[test]
fn test_divide_by_zero() {
    assert_eq!(
        evaluate("5/0"),
        Err(ExpressionError::Arithmetic(ArithmeticError::DivideByZero))
    );
}

#[test]
fn test_lex_error_at_position_two() {
    match evaluate("4+x") {
        Err(ExpressionError::Lex(e)) => {
            assert_eq!(e.position, 2);
            assert_eq!(e.character, 'x');
        }
        other => panic!("expected a lexical error, got {:?}", other),
    }
}

#[test]
fn test_unmatched_parenthesis() {
    match evaluate("(1+2") {
        Err(ExpressionError::Parse(e)) => {
            assert_eq!(e.expected, Expected::ClosingParen);
            assert_eq!(e.found, None);
        }
        other => panic!("expected a parse error, got {:?}", other),
    }
}

#[test]
fn test_idempotent_evaluation() {
    let first = evaluate("12*(3+4)-5");
    let second = evaluate("12*(3+4)-5");
    let third = evaluate("12*(3+4)-5");
    assert_eq!(first, Ok(79));
    assert_eq!(second, first);
    assert_eq!(third, first);
}

#[test]
fn test_whitespace_insensitive() {
    assert_eq!(evaluate("4 + 5"), Ok(9));
    assert_eq!(evaluate("4+5"), Ok(9));
    assert_eq!(evaluate(" 12 *\t3 "), Ok(36));
}

#[test]
fn test_unary_minus() {
    assert_eq!(evaluate("-5+8"), Ok(3));
    assert_eq!(evaluate("--4"), Ok(4));
    assert_eq!(evaluate("2*-3"), Ok(-6));
    assert_eq!(evaluate("-(2+3)"), Ok(-5));
}

#[test]
fn test_division_truncates_toward_zero() {
    assert_eq!(evaluate("7/2"), Ok(3));
    assert_eq!(evaluate("(0-7)/2"), Ok(-3));
    assert_eq!(evaluate("-7/2"), Ok(-3));
}

#[test]
fn test_max_literal() {
    assert_eq!(evaluate("9223372036854775807"), Ok(i64::MAX));
}

#[test]
fn test_literal_overflow() {
    assert_eq!(
        evaluate("9223372036854775808"),
        Err(ExpressionError::Arithmetic(ArithmeticError::Overflow))
    );
}

#[test]
fn test_addition_overflow() {
    assert_eq!(
        evaluate("9223372036854775807+1"),
        Err(ExpressionError::Arithmetic(ArithmeticError::Overflow))
    );
}

#[test]
fn test_negation_overflow() {
    // 0-9223372036854775807-1 is i64::MIN; negating it overflows
    assert_eq!(evaluate("0-9223372036854775807-1"), Ok(i64::MIN));
    assert_eq!(
        evaluate("-(0-9223372036854775807-1)"),
        Err(ExpressionError::Arithmetic(ArithmeticError::Overflow))
    );
}

#[test]
fn test_min_divided_by_minus_one_overflows() {
    assert_eq!(
        evaluate("(0-9223372036854775807-1)/(0-1)"),
        Err(ExpressionError::Arithmetic(ArithmeticError::Overflow))
    );
}

#[test]
fn test_empty_input() {
    match evaluate("") {
        Err(ExpressionError::Parse(e)) => {
            assert_eq!(e.position, 0);
            assert_eq!(e.expected, Expected::Operand);
            assert_eq!(e.found, None);
        }
        other => panic!("expected a parse error, got {:?}", other),
    }
}

#[test]
fn test_missing_operand() {
    match evaluate("1+") {
        Err(ExpressionError::Parse(e)) => {
            assert_eq!(e.expected, Expected::Operand);
            assert_eq!(e.found, None);
        }
        other => panic!("expected a parse error, got {:?}", other),
    }
}

#[test]
fn test_trailing_tokens() {
    match evaluate("1 2") {
        Err(ExpressionError::Parse(e)) => {
            assert_eq!(e.position, 1);
            assert_eq!(e.expected, Expected::EndOfInput);
        }
        other => panic!("expected a parse error, got {:?}", other),
    }
}

#[test]
fn test_nested_parentheses() {
    assert_eq!(evaluate("((1+2)*(3+4))/7"), Ok(3));
}
