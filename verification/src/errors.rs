//! Error values returned by the expression evaluator. Every failure is an
//! explicit result value carrying the position and the offending character
//! or token.

use vstd::prelude::*;
use crate::token::TokenType;

verus! {

/// Failure of integer arithmetic during evaluation.
#[derive(Debug, Clone, Copy, PartialEq, Eq)]
pub enum ArithmeticError {
    DivideByZero,
    Overflow,
}

/// An unrecognized character in the input, at a character position
/// (counted from zero).
#[derive(Debug, Clone, Copy, PartialEq, Eq)]
pub struct LexError {
    pub position: usize,
    pub character: char,
}

/// What the parser was looking for when it failed.
#[derive(Debug, Clone, Copy, PartialEq, Eq)]
pub enum Expected {
    /// A number, a parenthesized expression, or a unary minus.
    Operand,
    /// The closing parenthesis of a parenthesized expression.
    ClosingParen,
    /// No further tokens after a complete expression.
    EndOfInput,
}

/// A grammar violation, at a token index (counted from zero); `found` is
/// `None` when the token stream ended early.
#[derive(Debug, Clone, Copy, PartialEq, Eq)]
pub struct ParseError {
    pub position: usize,
    pub expected: Expected,
    pub found: Option<TokenType>,
}

/// Any failure of `evaluate`: lexical, grammatical, or arithmetic.
#[derive(Debug, Clone, Copy, PartialEq, Eq)]
pub enum ExpressionError {
    Lex(LexError),
    Parse(ParseError),
    Arithmetic(ArithmeticError),
}

} // verus!
