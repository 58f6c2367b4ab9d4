//! The lexer: turns an expression string into a sequence of tokens.
//!
//! Scanning rule: whitespace is skipped; a maximal run of digits becomes one
//! number token; each of `+ - * / ( )` becomes a single-character token; any
//! other character is a lexical error at its position. A number literal that
//! does not fit in an `i64` is an arithmetic overflow error.

use vstd::prelude::*;
use vstd::string::StrSliceExecFns;
use crate::decimal::{digit_val, is_digit_char};
use crate::errors::{ArithmeticError, ExpressionError, LexError};
use crate::token::{num_tok, op_tok, toks_view, SpecTok, Token, TokenType};

verus! {

/// The whitespace characters the lexer skips.
pub open spec fn is_space_char(c: char) -> bool {
    c == ' ' || c == '\t' || c == '\n' || c == '\r'
}

/// Prepend a token to the result of lexing the rest of the input.
pub open spec fn lex_cons(t: SpecTok, rest: Result<Seq<SpecTok>, ExpressionError>) -> Result<
    Seq<SpecTok>,
    ExpressionError,
> {
    match rest {
        Ok(ts) => Ok(seq![t] + ts),
        Err(e) => Err(e),
    }
}

/// The tokens of s from position i on (i not inside a digit run).
pub open spec fn spec_lex(s: Seq<char>, i: int) -> Result<Seq<SpecTok>, ExpressionError>
    decreases s.len() - i, 0int,
        when 0 <= i
{
    if i >= s.len() {
        Ok(Seq::empty())
    } else {
        let c = s[i];
        if is_space_char(c) {
            spec_lex(s, i + 1)
        } else if is_digit_char(c) {
            spec_lex_num(s, i + 1, i, digit_val(c))
        } else if c == '+' {
            lex_cons(op_tok(TokenType::AdditionOp, c), spec_lex(s, i + 1))
        } else if c == '-' {
            lex_cons(op_tok(TokenType::SubtractionOp, c), spec_lex(s, i + 1))
        } else if c == '*' {
            lex_cons(op_tok(TokenType::MultiplicationOp, c), spec_lex(s, i + 1))
        } else if c == '/' {
            lex_cons(op_tok(TokenType::DivisionOp, c), spec_lex(s, i + 1))
        } else if c == '(' {
            lex_cons(op_tok(TokenType::LParen, c), spec_lex(s, i + 1))
        } else if c == ')' {
            lex_cons(op_tok(TokenType::RParen, c), spec_lex(s, i + 1))
        } else {
            Err(ExpressionError::Lex(LexError { position: i as usize, character: c }))
        }
    }
}

/// The tokens of s from position i on, while scanning the digit run that
/// began at `start` and denotes `acc` so far.
pub open spec fn spec_lex_num(s: Seq<char>, i: int, start: int, acc: int) -> Result<
    Seq<SpecTok>,
    ExpressionError,
>
    decreases s.len() - i, 1int,
        when 0 <= i
{
    if i < s.len() && is_digit_char(s[i]) {
        let acc2 = acc * 10 + digit_val(s[i]);
        if acc2 > i64::MAX {
            Err(ExpressionError::Arithmetic(ArithmeticError::Overflow))
        } else {
            spec_lex_num(s, i + 1, start, acc2)
        }
    } else {
        lex_cons(num_tok(acc, s.subrange(start, i)), spec_lex(s, i))
    }
}

/// The character is a decimal digit.
fn ch_is_digit(c: char) -> (b: bool)
    ensures
        b == is_digit_char(c),
{
    let u = c as u32;
    48 <= u && u <= 57
}

/// The numeric value of a digit character.
fn ch_digit_val(c: char) -> (d: u32)
    requires
        is_digit_char(c),
    ensures
        d as int == digit_val(c),
        d < 10,
{
    c as u32 - 48
}

/// The character is whitespace.
fn ch_is_space(c: char) -> (b: bool)
    ensures
        b == is_space_char(c),
{
    c == ' ' || c == '\t' || c == '\n' || c == '\r'
}

/// Lex s from character i on; n is the character length of s.
fn lex_from(s: &str, i: usize, n: usize) -> (r: Result<Vec<Token>, ExpressionError>)
    requires
        n == s@.len(),
        i <= n,
    ensures
        (match r {
            Ok(v) => spec_lex(s@, i as int) == Ok::<Seq<SpecTok>, ExpressionError>(toks_view(v@)),
            Err(e) => spec_lex(s@, i as int) == Err::<Seq<SpecTok>, ExpressionError>(e),
        }),
    decreases n - i, 0int,
{
    if i >= n {
        let v: Vec<Token> = Vec::new();
        assert(toks_view(v@) =~= Seq::<SpecTok>::empty());
        Ok(v)
    } else {
        let c = s.get_char(i);
        if ch_is_space(c) {
            lex_from(s, i + 1, n)
        } else if ch_is_digit(c) {
            let d = ch_digit_val(c);
            lex_num(s, i + 1, i, d as i64, n)
        } else {
            let kind_opt: Option<TokenType> = if c == '+' {
                Some(TokenType::AdditionOp)
            } else if c == '-' {
                Some(TokenType::SubtractionOp)
            } else if c == '*' {
                Some(TokenType::MultiplicationOp)
            } else if c == '/' {
                Some(TokenType::DivisionOp)
            } else if c == '(' {
                Some(TokenType::LParen)
            } else if c == ')' {
                Some(TokenType::RParen)
            } else {
                None
            };
            match kind_opt {
                None => Err(ExpressionError::Lex(LexError { position: i, character: c })),
                Some(kind) => {
                    let text = s.substring_char(i, i + 1).to_owned();
                    assert(text@ =~= seq![c]);
                    let tok = Token { value: text, kind, num: 0 };
                    assert(tok@ == op_tok(kind, c));
                    match lex_from(s, i + 1, n) {
                        Ok(mut rest) => {
                            let ghost prev = rest@;
                            rest.insert(0, tok);
                            assert(toks_view(rest@) =~= seq![tok@] + toks_view(prev));
                            Ok(rest)
                        },
                        Err(e) => Err(e),
                    }
                },
            }
        }
    }
}

/// Lex s from character i on, inside the digit run that began at `start`
/// and denotes `acc` so far.
fn lex_num(s: &str, i: usize, start: usize, acc: i64, n: usize) -> (r: Result<
    Vec<Token>,
    ExpressionError,
>)
    requires
        n == s@.len(),
        start < i <= n,
        0 <= acc,
    ensures
        (match r {
            Ok(v) => spec_lex_num(s@, i as int, start as int, acc as int) == Ok::<
                Seq<SpecTok>,
                ExpressionError,
            >(toks_view(v@)),
            Err(e) => spec_lex_num(s@, i as int, start as int, acc as int) == Err::<
                Seq<SpecTok>,
                ExpressionError,
            >(e),
        }),
    decreases n - i, 1int,
{
    let mut next_digit: Option<u32> = None;
    if i < n {
        let c = s.get_char(i);
        if ch_is_digit(c) {
            next_digit = Some(ch_digit_val(c));
        }
    }
    match next_digit {
        Some(d) => {
            match acc.checked_mul(10) {
                Some(m) => {
                    match m.checked_add(d as i64) {
                        Some(acc2) => lex_num(s, i + 1, start, acc2, n),
                        None => {
                            assert(acc * 10 + digit_val(s@[i as int]) > i64::MAX);
                            Err(ExpressionError::Arithmetic(ArithmeticError::Overflow))
                        },
                    }
                },
                None => {
                    assert(acc * 10 + digit_val(s@[i as int]) > i64::MAX);
                    Err(ExpressionError::Arithmetic(ArithmeticError::Overflow))
                },
            }
        },
        None => {
            let text = s.substring_char(start, i).to_owned();
            let tok = Token { value: text, kind: TokenType::Number, num: acc };
            assert(tok@ == num_tok(acc as int, s@.subrange(start as int, i as int)));
            match lex_from(s, i, n) {
                Ok(mut rest) => {
                    let ghost prev = rest@;
                    rest.insert(0, tok);
                    assert(toks_view(rest@) =~= seq![tok@] + toks_view(prev));
                    Ok(rest)
                },
                Err(e) => Err(e),
            }
        },
    }
}

/// Tokenize an expression string.
pub fn tokenize(s: &str) -> (r: Result<Vec<Token>, ExpressionError>)
    ensures
        (match r {
            Ok(v) => spec_lex(s@, 0) == Ok::<Seq<SpecTok>, ExpressionError>(toks_view(v@)),
            Err(e) => spec_lex(s@, 0) == Err::<Seq<SpecTok>, ExpressionError>(e),
        }),
{
    let n = s.unicode_len();
    lex_from(s, 0, n)
}

/// The expression scanner.
pub struct Parser {}

impl Parser {
    /// Tokenize an expression string.
    pub fn lex(&self, input: String) -> (r: Result<Vec<Token>, ExpressionError>)
        ensures
            (match r {
                Ok(v) => spec_lex(input@, 0) == Ok::<Seq<SpecTok>, ExpressionError>(
                    toks_view(v@),
                ),
                Err(e) => spec_lex(input@, 0) == Err::<Seq<SpecTok>, ExpressionError>(e),
            }),
    {
        tokenize(input.as_str())
    }
}

} // verus!
