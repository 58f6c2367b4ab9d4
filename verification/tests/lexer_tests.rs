use expr_eval::errors::ExpressionError;
use expr_eval::lexer::Parser;
use expr_eval::token::TokenType;

#[test]
fn test() {
    let p = Parser {};
    let tokens = p.lex("4+5".into()).unwrap();
    println!("{:?}", tokens);
    assert_eq!(tokens.get(0).expect("missing token 0").kind, TokenType::Number);
    assert_eq!(tokens.get(0).expect("missing token 0").value, "4".to_string());
    assert_eq!(tokens.get(1).expect("missing token 1").kind, TokenType::AdditionOp);
    assert_eq!(tokens.get(1).expect("missing token 1").value, "+".to_string());
    assert_eq!(tokens.get(2).expect("missing token 2").kind, TokenType::Number);
    assert_eq!(tokens.get(2).expect("missing token 2").value, "5".to_string());
}

#[test]
fn test_sub() {
    let p = Parser {};
    let tokens = p.lex("4-56".into()).unwrap();
    println!("{:?}", tokens);
    assert_eq!(tokens.get(0).expect("missing token 0").kind, TokenType::Number);
    assert_eq!(tokens.get(0).expect("missing token 0").value, "4".to_string());
    assert_eq!(tokens.get(1).expect("missing token 1").kind, TokenType::SubtractionOp);
    assert_eq!(tokens.get(1).expect("missing token 1").value, "-".to_string());
    assert_eq!(tokens.get(2).expect("missing token 2").kind, TokenType::Number);
    assert_eq!(tokens.get(2).expect("missing token 2").value, "56".to_string());
}

#[test]
fn test_lex_all_kinds() {
    let p = Parser {};
    let tokens = p.lex("1*(2/3)".into()).unwrap();
    let kinds: Vec<TokenType> = tokens.iter().map(|t| t.kind).collect();
    assert_eq!(
        kinds,
        vec![
            TokenType::Number,
            TokenType::MultiplicationOp,
            TokenType::LParen,
            TokenType::Number,
            TokenType::DivisionOp,
            TokenType::Number,
            TokenType::RParen,
        ]
    );
}

#[test]
fn test_lex_skips_whitespace() {
    let p = Parser {};
    let tokens = p.lex(" 12 \t+\n34 ".into()).unwrap();
    assert_eq!(tokens.len(), 3);
    assert_eq!(tokens[0].num, 12);
    assert_eq!(tokens[0].value, "12".to_string());
    assert_eq!(tokens[1].kind, TokenType::AdditionOp);
    assert_eq!(tokens[2].num, 34);
}

#[test]
fn test_lex_unrecognized_character() {
    let p = Parser {};
    let r = p.lex("4+x".into());
    match r {
        Err(ExpressionError::Lex(e)) => {
            assert_eq!(e.position, 2);
            assert_eq!(e.character, 'x');
        }
        other => panic!("expected a lexical error, got {:?}", other),
    }
}

#[test]
fn test_lex_keeps_leading_zeros() {
    let p = Parser {};
    let tokens = p.lex("007".into()).unwrap();
    assert_eq!(tokens.len(), 1);
    assert_eq!(tokens[0].value, "007".to_string());
    assert_eq!(tokens[0].num, 7);
}

#[test]
fn test_lex_literal_overflow() {
    let p = Parser {};
    let r = p.lex("9223372036854775808".into());
    assert!(matches!(
        r,
        Err(ExpressionError::Arithmetic(
            expr_eval::errors::ArithmeticError::Overflow
        ))
    ));
}
