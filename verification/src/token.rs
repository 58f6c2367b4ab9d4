//! Tokens produced by the lexer, and their mathematical model.

use vstd::prelude::*;

verus! {

/// The kind of a token: a number, one of the four operators, or a
/// parenthesis.
#[derive(Debug, Clone, Copy, PartialEq, Eq)]
pub enum TokenType {
    Number,
    AdditionOp,
    SubtractionOp,
    MultiplicationOp,
    DivisionOp,
    LParen,
    RParen,
}

/// A token: its kind, the text it was scanned from, and, for a number,
/// its value (0 for every other kind).
#[derive(Debug, PartialEq, Eq)]
pub struct Token {
    pub value: String,
    pub kind: TokenType,
    pub num: i64,
}

/// The mathematical model of a token.
#[verifier::ext_equal]
pub struct SpecTok {
    pub kind: TokenType,
    pub val: int,
    pub text: Seq<char>,
}

impl View for Token {
    type V = SpecTok;

    open spec fn view(&self) -> SpecTok {
        SpecTok { kind: self.kind, val: self.num as int, text: self.value@ }
    }
}

/// The model of an operator or parenthesis token scanned from c.
pub open spec fn op_tok(kind: TokenType, c: char) -> SpecTok {
    SpecTok { kind, val: 0, text: seq![c] }
}

/// The model of a number token with value v scanned from the digit run text.
pub open spec fn num_tok(v: int, text: Seq<char>) -> SpecTok {
    SpecTok { kind: TokenType::Number, val: v, text }
}

/// The models of a sequence of tokens.
pub open spec fn toks_view(ts: Seq<Token>) -> Seq<SpecTok> {
    ts.map_values(|t: Token| t@)
}

} // verus!
