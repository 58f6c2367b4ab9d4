//! The recursive-descent parser and evaluator.
//!
//! Grammar (LL(1), all binary operators left-associative):
//! ```text
//! expr   := term (( '+' | '-' ) term)*
//! term   := factor (( '*' | '/' ) factor)*
//! factor := NUMBER | '(' expr ')' | '-' factor
//! ```
//! Arithmetic is `i64` arithmetic; an intermediate result outside the `i64`
//! range is an overflow error, and division by zero is its own error.

use vstd::prelude::*;
use crate::errors::{ArithmeticError, Expected, ExpressionError, ParseError};
use crate::lexer::{spec_lex, tokenize};
use crate::token::{toks_view, SpecTok, Token, TokenType};

verus! {

/// The value fits in an i64.
pub open spec fn in_i64(v: int) -> bool {
    i64::MIN <= v <= i64::MAX
}

/// Division truncating toward zero, as i64 division does (d != 0).
pub open spec fn tdiv(x: int, d: int) -> int {
    if x == 0 {
        0
    } else if x > 0 && d > 0 {
        x / d
    } else if x < 0 && d < 0 {
        (x * -1) / (d * -1)
    } else if x < 0 {
        ((x * -1) / d) * -1
    } else {
        (x / (d * -1)) * -1
    }
}

/// Parse a factor at token index i: its value and the index after it.
pub open spec fn sp_factor(t: Seq<SpecTok>, i: int) -> Result<(int, int), ExpressionError>
    decreases t.len() - i, 0int,
        when 0 <= i
{
    if i >= t.len() {
        Err(ExpressionError::Parse(ParseError {
            position: i as usize,
            expected: Expected::Operand,
            found: None,
        }))
    } else {
        let tk = t[i];
        match tk.kind {
            TokenType::Number => Ok((tk.val, i + 1)),
            TokenType::SubtractionOp => (match sp_factor(t, i + 1) {
                Ok((v, j)) => if in_i64(-v) {
                    Ok((-v, j))
                } else {
                    Err(ExpressionError::Arithmetic(ArithmeticError::Overflow))
                },
                Err(e) => Err(e),
            }),
            TokenType::LParen => (match sp_expr(t, i + 1) {
                Ok((v, j)) => if j < t.len() && t[j].kind == TokenType::RParen {
                    Ok((v, j + 1))
                } else {
                    Err(ExpressionError::Parse(ParseError {
                        position: j as usize,
                        expected: Expected::ClosingParen,
                        found: (if 0 <= j < t.len() {
                            Some(t[j].kind)
                        } else {
                            None
                        }),
                    }))
                },
                Err(e) => Err(e),
            }),
            _ => Err(ExpressionError::Parse(ParseError {
                position: i as usize,
                expected: Expected::Operand,
                found: Some(tk.kind),
            })),
        }
    }
}

/// Parse the rest of a term after a factor whose value is acc: fold in
/// each following '*' or '/' factor, left to right.
pub open spec fn sp_term_more(t: Seq<SpecTok>, i: int, acc: int) -> Result<
    (int, int),
    ExpressionError,
>
    decreases t.len() - i, 2int,
        when 0 <= i
{
    if i < t.len() && (t[i].kind == TokenType::MultiplicationOp || t[i].kind
        == TokenType::DivisionOp) {
        match sp_factor(t, i + 1) {
            Ok((w, j)) => if i + 1 < j <= t.len() {
                if t[i].kind == TokenType::MultiplicationOp {
                    if in_i64(acc * w) {
                        sp_term_more(t, j, acc * w)
                    } else {
                        Err(ExpressionError::Arithmetic(ArithmeticError::Overflow))
                    }
                } else {
                    if w == 0 {
                        Err(ExpressionError::Arithmetic(ArithmeticError::DivideByZero))
                    } else if !in_i64(tdiv(acc, w)) {
                        Err(ExpressionError::Arithmetic(ArithmeticError::Overflow))
                    } else {
                        sp_term_more(t, j, tdiv(acc, w))
                    }
                }
            } else {
                // a factor always ends past where it began; never reached
                Err(ExpressionError::Arithmetic(ArithmeticError::Overflow))
            },
            Err(e) => Err(e),
        }
    } else {
        Ok((acc, i))
    }
}

/// Parse a term at token index i: its value and the index after it.
pub open spec fn sp_term(t: Seq<SpecTok>, i: int) -> Result<(int, int), ExpressionError>
    decreases t.len() - i, 1int,
        when 0 <= i
{
    match sp_factor(t, i) {
        Ok((v, j)) => if i < j <= t.len() {
            sp_term_more(t, j, v)
        } else {
            // a factor always ends past where it began; never reached
            Err(ExpressionError::Arithmetic(ArithmeticError::Overflow))
        },
        Err(e) => Err(e),
    }
}

/// Parse the rest of an expression after a term whose value is acc: fold
/// in each following '+' or '-' term, left to right.
pub open spec fn sp_expr_more(t: Seq<SpecTok>, i: int, acc: int) -> Result<
    (int, int),
    ExpressionError,
>
    decreases t.len() - i, 4int,
        when 0 <= i
{
    if i < t.len() && (t[i].kind == TokenType::AdditionOp || t[i].kind
        == TokenType::SubtractionOp) {
        match sp_term(t, i + 1) {
            Ok((w, j)) => if i + 1 < j <= t.len() {
                let acc2 = if t[i].kind == TokenType::AdditionOp {
                    acc + w
                } else {
                    acc - w
                };
                if in_i64(acc2) {
                    sp_expr_more(t, j, acc2)
                } else {
                    Err(ExpressionError::Arithmetic(ArithmeticError::Overflow))
                }
            } else {
                // a term always ends past where it began; never reached
                Err(ExpressionError::Arithmetic(ArithmeticError::Overflow))
            },
            Err(e) => Err(e),
        }
    } else {
        Ok((acc, i))
    }
}

/// Parse an expression at token index i: its value and the index after it.
pub open spec fn sp_expr(t: Seq<SpecTok>, i: int) -> Result<(int, int), ExpressionError>
    decreases t.len() - i, 3int,
        when 0 <= i
{
    match sp_term(t, i) {
        Ok((v, j)) => if i < j <= t.len() {
            sp_expr_more(t, j, v)
        } else {
            // a term always ends past where it began; never reached
            Err(ExpressionError::Arithmetic(ArithmeticError::Overflow))
        },
        Err(e) => Err(e),
    }
}

/// Evaluate a whole token sequence: one expression, then end of input.
pub open spec fn spec_eval_tokens(t: Seq<SpecTok>) -> Result<int, ExpressionError> {
    match sp_expr(t, 0) {
        Ok((v, j)) => if j == t.len() {
            Ok(v)
        } else {
            Err(ExpressionError::Parse(ParseError {
                position: j as usize,
                expected: Expected::EndOfInput,
                found: (if 0 <= j < t.len() {
                    Some(t[j].kind)
                } else {
                    None
                }),
            }))
        },
        Err(e) => Err(e),
    }
}

/// What evaluating an expression string yields: the tokens of the string,
/// evaluated as one expression.
pub open spec fn spec_evaluate(s: Seq<char>) -> Result<int, ExpressionError> {
    match spec_lex(s, 0) {
        Ok(ts) => spec_eval_tokens(ts),
        Err(e) => Err(e),
    }
}

/// Parse a factor at token index i.
fn parse_factor(t: &Vec<Token>, i: usize) -> (r: Result<(i64, usize), ExpressionError>)
    requires
        i <= t@.len(),
    ensures
        (match r {
            Ok((v, j)) => sp_factor(toks_view(t@), i as int) == Ok::<(int, int), ExpressionError>(
                (v as int, j as int),
            ) && i < j <= t@.len(),
            Err(e) => sp_factor(toks_view(t@), i as int) == Err::<(int, int), ExpressionError>(e),
        }),
    decreases t@.len() - i, 0int,
{
    if i >= t.len() {
        Err(ExpressionError::Parse(ParseError {
            position: i,
            expected: Expected::Operand,
            found: None,
        }))
    } else {
        let kind = t[i].kind;
        assert(toks_view(t@)[i as int] == t@[i as int]@);
        match kind {
            TokenType::Number => {
                let v = t[i].num;
                Ok((v, i + 1))
            },
            TokenType::SubtractionOp => {
                match parse_factor(t, i + 1) {
                    Ok((v, j)) => {
                        match (0i64).checked_sub(v) {
                            Some(nv) => Ok((nv, j)),
                            None => Err(ExpressionError::Arithmetic(ArithmeticError::Overflow)),
                        }
                    },
                    Err(e) => Err(e),
                }
            },
            TokenType::LParen => {
                match parse_expr(t, i + 1) {
                    Ok((v, j)) => {
                        if j < t.len() {
                            let next = t[j].kind;
                            assert(toks_view(t@)[j as int] == t@[j as int]@);
                            match next {
                                TokenType::RParen => Ok((v, j + 1)),
                                _ => Err(ExpressionError::Parse(ParseError {
                                    position: j,
                                    expected: Expected::ClosingParen,
                                    found: Some(next),
                                })),
                            }
                        } else {
                            Err(ExpressionError::Parse(ParseError {
                                position: j,
                                expected: Expected::ClosingParen,
                                found: None,
                            }))
                        }
                    },
                    Err(e) => Err(e),
                }
            },
            _ => Err(ExpressionError::Parse(ParseError {
                position: i,
                expected: Expected::Operand,
                found: Some(kind),
            })),
        }
    }
}

/// Parse the rest of a term after a factor whose value is acc.
fn parse_term_more(t: &Vec<Token>, i: usize, acc: i64) -> (r: Result<
    (i64, usize),
    ExpressionError,
>)
    requires
        i <= t@.len(),
    ensures
        (match r {
            Ok((v, j)) => sp_term_more(toks_view(t@), i as int, acc as int) == Ok::<
                (int, int),
                ExpressionError,
            >((v as int, j as int)) && i <= j <= t@.len(),
            Err(e) => sp_term_more(toks_view(t@), i as int, acc as int) == Err::<
                (int, int),
                ExpressionError,
            >(e),
        }),
    decreases t@.len() - i, 2int,
{
    let mut op: Option<TokenType> = None;
    if i < t.len() {
        assert(toks_view(t@)[i as int] == t@[i as int]@);
        match t[i].kind {
            TokenType::MultiplicationOp => {
                op = Some(TokenType::MultiplicationOp);
            },
            TokenType::DivisionOp => {
                op = Some(TokenType::DivisionOp);
            },
            _ => {},
        }
    }
    match op {
        Some(kind) => {
            match parse_factor(t, i + 1) {
                Ok((w, j)) => {
                    match kind {
                        TokenType::MultiplicationOp => {
                            match acc.checked_mul(w) {
                                Some(p) => parse_term_more(t, j, p),
                                None => Err(
                                    ExpressionError::Arithmetic(ArithmeticError::Overflow),
                                ),
                            }
                        },
                        _ => {
                            if w == 0 {
                                Err(ExpressionError::Arithmetic(ArithmeticError::DivideByZero))
                            } else {
                                match acc.checked_div(w) {
                                    Some(q) => parse_term_more(t, j, q),
                                    None => Err(
                                        ExpressionError::Arithmetic(ArithmeticError::Overflow),
                                    ),
                                }
                            }
                        },
                    }
                },
                Err(e) => Err(e),
            }
        },
        None => Ok((acc, i)),
    }
}

/// Parse a term at token index i.
fn parse_term(t: &Vec<Token>, i: usize) -> (r: Result<(i64, usize), ExpressionError>)
    requires
        i <= t@.len(),
    ensures
        (match r {
            Ok((v, j)) => sp_term(toks_view(t@), i as int) == Ok::<(int, int), ExpressionError>(
                (v as int, j as int),
            ) && i < j <= t@.len(),
            Err(e) => sp_term(toks_view(t@), i as int) == Err::<(int, int), ExpressionError>(e),
        }),
    decreases t@.len() - i, 1int,
{
    match parse_factor(t, i) {
        Ok((v, j)) => parse_term_more(t, j, v),
        Err(e) => Err(e),
    }
}

/// Parse the rest of an expression after a term whose value is acc.
fn parse_expr_more(t: &Vec<Token>, i: usize, acc: i64) -> (r: Result<
    (i64, usize),
    ExpressionError,
>)
    requires
        i <= t@.len(),
    ensures
        (match r {
            Ok((v, j)) => sp_expr_more(toks_view(t@), i as int, acc as int) == Ok::<
                (int, int),
                ExpressionError,
            >((v as int, j as int)) && i <= j <= t@.len(),
            Err(e) => sp_expr_more(toks_view(t@), i as int, acc as int) == Err::<
                (int, int),
                ExpressionError,
            >(e),
        }),
    decreases t@.len() - i, 4int,
{
    let mut op: Option<TokenType> = None;
    if i < t.len() {
        assert(toks_view(t@)[i as int] == t@[i as int]@);
        match t[i].kind {
            TokenType::AdditionOp => {
                op = Some(TokenType::AdditionOp);
            },
            TokenType::SubtractionOp => {
                op = Some(TokenType::SubtractionOp);
            },
            _ => {},
        }
    }
    match op {
        Some(kind) => {
            match parse_term(t, i + 1) {
                Ok((w, j)) => {
                    let sum = match kind {
                        TokenType::AdditionOp => acc.checked_add(w),
                        _ => acc.checked_sub(w),
                    };
                    match sum {
                        Some(acc2) => parse_expr_more(t, j, acc2),
                        None => Err(ExpressionError::Arithmetic(ArithmeticError::Overflow)),
                    }
                },
                Err(e) => Err(e),
            }
        },
        None => Ok((acc, i)),
    }
}

/// Parse an expression at token index i.
fn parse_expr(t: &Vec<Token>, i: usize) -> (r: Result<(i64, usize), ExpressionError>)
    requires
        i <= t@.len(),
    ensures
        (match r {
            Ok((v, j)) => sp_expr(toks_view(t@), i as int) == Ok::<(int, int), ExpressionError>(
                (v as int, j as int),
            ) && i < j <= t@.len(),
            Err(e) => sp_expr(toks_view(t@), i as int) == Err::<(int, int), ExpressionError>(e),
        }),
    decreases t@.len() - i, 3int,
{
    match parse_term(t, i) {
        Ok((v, j)) => parse_expr_more(t, j, v),
        Err(e) => Err(e),
    }
}

/// Evaluate an arithmetic expression string: lex it, parse it by the
/// grammar above, and compute its i64 value, or report the first lexical,
/// grammatical or arithmetic error.
pub fn evaluate(input: &str) -> (r: Result<i64, ExpressionError>)
    ensures
        (match r {
            Ok(v) => spec_evaluate(input@) == Ok::<int, ExpressionError>(v as int),
            Err(e) => spec_evaluate(input@) == Err::<int, ExpressionError>(e),
        }),
{
    match tokenize(input) {
        Err(e) => Err(e),
        Ok(toks) => {
            match parse_expr(&toks, 0) {
                Err(e) => Err(e),
                Ok((v, j)) => {
                    if j == toks.len() {
                        Ok(v)
                    } else {
                        let next = toks[j].kind;
                        assert(toks_view(toks@)[j as int] == toks@[j as int]@);
                        Err(ExpressionError::Parse(ParseError {
                            position: j,
                            expected: Expected::EndOfInput,
                            found: Some(next),
                        }))
                    }
                },
            }
        },
    }
}

} // verus!
