//! General properties of the library, stated over the specification
//! functions that the executable contracts use and proved for all inputs:
//! for all non-negative integers a and b (written in decimal), "a+b"
//! evaluates to a + b, "a-b" to a - b, and "a*b" to a * b; inserting
//! whitespace outside a number changes nothing; and parsing the dot
//! notation of any 32-bit address gives the address back.

use vstd::prelude::*;
use crate::decimal::{
    all_digits, digit_val, digits_value, is_digit_char, lemma_digits_value_concat,
    lemma_digits_value_nonneg, lemma_digits_value_prefix, lemma_pow10_pos,
    lemma_spec_decimal_value, pow10, spec_decimal,
};
use crate::errors::{ArithmeticError, ExpressionError};
use crate::ipv4::{ipv4_scan, ipv4_wrap, spec_ipv4_string, spec_parse_ipv4};
use crate::lexer::{is_space_char, lex_cons, spec_lex, spec_lex_num};
use crate::parser::{
    sp_expr, sp_expr_more, sp_factor, sp_term, sp_term_more, spec_eval_tokens, spec_evaluate,
    tdiv,
};
use crate::token::{num_tok, op_tok, SpecTok, TokenType};

verus! {

/// The token kind of an operator character.
pub open spec fn char_kind(c: char) -> TokenType {
    if c == '+' {
        TokenType::AdditionOp
    } else if c == '-' {
        TokenType::SubtractionOp
    } else if c == '*' {
        TokenType::MultiplicationOp
    } else {
        TokenType::DivisionOp
    }
}

/// Scanning a maximal digit run that denotes a value within i64 range
/// produces one number token for the whole run.
proof fn lemma_lex_digit_run(s: Seq<char>, i: int, start: int, m: int)
    requires
        0 <= start < i <= m <= s.len(),
        forall|k: int| start <= k < m ==> is_digit_char(#[trigger] s[k]),
        m == s.len() || !is_digit_char(s[m]),
        digits_value(s.subrange(start, m)) <= i64::MAX,
    ensures
        spec_lex_num(s, i, start, digits_value(s.subrange(start, i))) == lex_cons(
            num_tok(digits_value(s.subrange(start, m)), s.subrange(start, m)),
            spec_lex(s, m),
        ),
    decreases m - i,
{
    if i == m {
        assert(!(i < s.len() && is_digit_char(s[i])));
    } else {
        assert(is_digit_char(s[i]));
        let pre = s.subrange(start, i);
        let ext = s.subrange(start, i + 1);
        assert(ext =~= pre.push(s[i]));
        assert(ext.drop_last() =~= pre);
        assert(digits_value(ext) == digits_value(pre) * 10 + digit_val(s[i]));
        assert(s.subrange(start, m) =~= ext + s.subrange(i + 1, m));
        assert(all_digits(ext));
        assert(all_digits(s.subrange(i + 1, m)));
        lemma_digits_value_prefix(ext, s.subrange(i + 1, m));
        assert(digits_value(ext) <= i64::MAX);
        lemma_lex_digit_run(s, i + 1, start, m);
    }
}

/// The value of a single digit character as a one-character run.
proof fn lemma_digits_value_single(s: Seq<char>, i: int)
    requires
        0 <= i < s.len(),
    ensures
        digits_value(s.subrange(i, i + 1)) == digit_val(s[i]),
{
    let one = s.subrange(i, i + 1);
    assert(one.drop_last() =~= Seq::<char>::empty());
    assert(digits_value(Seq::<char>::empty()) == 0);
    assert(one.last() == s[i]);
}

/// Lexing "a<c>b", with a and b written in decimal and c one of the four
/// operator characters, yields exactly three tokens: a, the operator, b.
pub proof fn lemma_lex_literal_pair(a: int, b: int, c: char)
    requires
        0 <= a <= i64::MAX,
        0 <= b <= i64::MAX,
        c == '+' || c == '-' || c == '*' || c == '/',
    ensures
        spec_lex(spec_decimal(a) + seq![c] + spec_decimal(b), 0) == Ok::<
            Seq<SpecTok>,
            ExpressionError,
        >(
            seq![
                num_tok(a, spec_decimal(a)),
                op_tok(char_kind(c), c),
                num_tok(b, spec_decimal(b)),
            ],
        ),
{
    let ta = spec_decimal(a);
    let tb = spec_decimal(b);
    let s = ta + seq![c] + tb;
    let al = ta.len() as int;
    let len = s.len() as int;
    lemma_spec_decimal_value(a);
    lemma_spec_decimal_value(b);
    assert(len == al + 1 + tb.len());
    assert forall|k: int| 0 <= k < al implies s[k] == ta[k] && is_digit_char(#[trigger] s[k]) by {
        assert(s[k] == ta[k]);
    }
    assert(s[al] == c);
    assert forall|k: int| al + 1 <= k < len implies s[k] == tb[k - al - 1] && is_digit_char(
        #[trigger] s[k],
    ) by {
        assert(s[k] == tb[k - al - 1]);
    }
    // the operator character is neither whitespace nor a digit
    assert(!is_space_char(c) && !is_digit_char(c));
    assert(!is_space_char(s[0]) && !is_space_char(s[al + 1]));

    // first number token
    assert(spec_lex(s, 0) == spec_lex_num(s, 1, 0, digit_val(s[0])));
    lemma_digits_value_single(s, 0);
    assert(s.subrange(0, al) =~= ta);
    lemma_lex_digit_run(s, 1, 0, al);
    assert(spec_lex(s, 0) == lex_cons(num_tok(a, ta), spec_lex(s, al)));

    // operator token
    assert(spec_lex(s, al) == lex_cons(op_tok(char_kind(c), c), spec_lex(s, al + 1)));

    // second number token
    assert(spec_lex(s, al + 1) == spec_lex_num(s, al + 2, al + 1, digit_val(s[al + 1])));
    lemma_digits_value_single(s, al + 1);
    assert(s.subrange(al + 1, len) =~= tb);
    lemma_lex_digit_run(s, al + 2, al + 1, len);
    assert(spec_lex(s, len) == Ok::<Seq<SpecTok>, ExpressionError>(Seq::empty()));
    assert(spec_lex(s, al + 1) == lex_cons(
        num_tok(b, tb),
        Ok::<Seq<SpecTok>, ExpressionError>(Seq::empty()),
    ));

    // assemble the three-token sequence
    let numa = num_tok(a, ta);
    let opc = op_tok(char_kind(c), c);
    let numb = num_tok(b, tb);
    assert(seq![numb] + Seq::<SpecTok>::empty() =~= seq![numb]);
    assert(seq![opc] + seq![numb] =~= seq![opc, numb]);
    assert(seq![numa] + seq![opc, numb] =~= seq![numa, opc, numb]);
}

/// Lexing "a<c>b<e>d", with a, b and d written in decimal and c, e
/// operator characters, yields exactly five tokens.
pub proof fn lemma_lex_literal_triple(a: int, b: int, d: int, c: char, e: char)
    requires
        0 <= a <= i64::MAX,
        0 <= b <= i64::MAX,
        0 <= d <= i64::MAX,
        c == '+' || c == '-' || c == '*' || c == '/',
        e == '+' || e == '-' || e == '*' || e == '/',
    ensures
        spec_lex(spec_decimal(a) + seq![c] + spec_decimal(b) + seq![e] + spec_decimal(d), 0)
            == Ok::<Seq<SpecTok>, ExpressionError>(
            seq![
                num_tok(a, spec_decimal(a)),
                op_tok(char_kind(c), c),
                num_tok(b, spec_decimal(b)),
                op_tok(char_kind(e), e),
                num_tok(d, spec_decimal(d)),
            ],
        ),
{
    let ta = spec_decimal(a);
    let tb = spec_decimal(b);
    let td = spec_decimal(d);
    let s = ta + seq![c] + tb + seq![e] + td;
    let al = ta.len() as int;
    let p2 = al + 1 + tb.len();
    let len = s.len() as int;
    lemma_spec_decimal_value(a);
    lemma_spec_decimal_value(b);
    lemma_spec_decimal_value(d);
    assert(len == p2 + 1 + td.len());
    assert forall|k: int| 0 <= k < al implies s[k] == ta[k] && is_digit_char(#[trigger] s[k]) by {
        assert(s[k] == ta[k]);
    }
    assert(s[al] == c);
    assert forall|k: int| al + 1 <= k < p2 implies s[k] == tb[k - al - 1] && is_digit_char(
        #[trigger] s[k],
    ) by {
        assert(s[k] == tb[k - al - 1]);
    }
    assert(s[p2] == e);
    assert forall|k: int| p2 + 1 <= k < len implies s[k] == td[k - p2 - 1] && is_digit_char(
        #[trigger] s[k],
    ) by {
        assert(s[k] == td[k - p2 - 1]);
    }
    assert(!is_space_char(c) && !is_digit_char(c));
    assert(!is_space_char(e) && !is_digit_char(e));
    assert(!is_space_char(s[0]) && !is_space_char(s[al + 1]) && !is_space_char(s[p2 + 1]));

    // first number token
    assert(spec_lex(s, 0) == spec_lex_num(s, 1, 0, digit_val(s[0])));
    lemma_digits_value_single(s, 0);
    assert(s.subrange(0, al) =~= ta);
    lemma_lex_digit_run(s, 1, 0, al);
    assert(spec_lex(s, 0) == lex_cons(num_tok(a, ta), spec_lex(s, al)));

    // first operator token
    assert(spec_lex(s, al) == lex_cons(op_tok(char_kind(c), c), spec_lex(s, al + 1)));

    // second number token
    assert(spec_lex(s, al + 1) == spec_lex_num(s, al + 2, al + 1, digit_val(s[al + 1])));
    lemma_digits_value_single(s, al + 1);
    assert(s.subrange(al + 1, p2) =~= tb);
    lemma_lex_digit_run(s, al + 2, al + 1, p2);
    assert(spec_lex(s, al + 1) == lex_cons(num_tok(b, tb), spec_lex(s, p2)));

    // second operator token
    assert(spec_lex(s, p2) == lex_cons(op_tok(char_kind(e), e), spec_lex(s, p2 + 1)));

    // third number token
    assert(spec_lex(s, p2 + 1) == spec_lex_num(s, p2 + 2, p2 + 1, digit_val(s[p2 + 1])));
    lemma_digits_value_single(s, p2 + 1);
    assert(s.subrange(p2 + 1, len) =~= td);
    lemma_lex_digit_run(s, p2 + 2, p2 + 1, len);
    assert(spec_lex(s, len) == Ok::<Seq<SpecTok>, ExpressionError>(Seq::empty()));
    assert(spec_lex(s, p2 + 1) == lex_cons(
        num_tok(d, td),
        Ok::<Seq<SpecTok>, ExpressionError>(Seq::empty()),
    ));

    // assemble the five-token sequence
    let n1 = num_tok(a, ta);
    let o1 = op_tok(char_kind(c), c);
    let n2 = num_tok(b, tb);
    let o2 = op_tok(char_kind(e), e);
    let n3 = num_tok(d, td);
    assert(seq![n3] + Seq::<SpecTok>::empty() =~= seq![n3]);
    assert(seq![o2] + seq![n3] =~= seq![o2, n3]);
    assert(seq![n2] + seq![o2, n3] =~= seq![n2, o2, n3]);
    assert(seq![o1] + seq![n2, o2, n3] =~= seq![o1, n2, o2, n3]);
    assert(seq![n1] + seq![o1, n2, o2, n3] =~= seq![n1, o1, n2, o2, n3]);
}

/// Multiplication binds tighter than addition: for all non-negative
/// i64-range integers a, b and d, "a+b*d" evaluates to a + (b * d).
pub proof fn lemma_evaluate_precedence(a: int, b: int, d: int)
    requires
        0 <= a <= i64::MAX,
        0 <= b <= i64::MAX,
        0 <= d <= i64::MAX,
        b * d <= i64::MAX,
        a + b * d <= i64::MAX,
    ensures
        spec_evaluate(spec_decimal(a) + seq!['+'] + spec_decimal(b) + seq!['*'] + spec_decimal(d))
            == Ok::<int, ExpressionError>(a + b * d),
{
    assert(b * d >= 0) by (nonlinear_arith)
        requires b >= 0 && d >= 0,
    ;
    lemma_lex_literal_triple(a, b, d, '+', '*');
    let t = seq![
        num_tok(a, spec_decimal(a)),
        op_tok(TokenType::AdditionOp, '+'),
        num_tok(b, spec_decimal(b)),
        op_tok(TokenType::MultiplicationOp, '*'),
        num_tok(d, spec_decimal(d)),
    ];
    reveal_with_fuel(sp_factor, 5);
    reveal_with_fuel(sp_term, 5);
    reveal_with_fuel(sp_term_more, 5);
    reveal_with_fuel(sp_expr, 5);
    reveal_with_fuel(sp_expr_more, 5);
    assert(char_kind('+') == TokenType::AdditionOp && char_kind('*')
        == TokenType::MultiplicationOp);
    assert(sp_factor(t, 0) == Ok::<(int, int), ExpressionError>((a, 1)));
    assert(sp_factor(t, 2) == Ok::<(int, int), ExpressionError>((b, 3)));
    assert(sp_factor(t, 4) == Ok::<(int, int), ExpressionError>((d, 5)));
    assert(sp_term_more(t, 1, a) == Ok::<(int, int), ExpressionError>((a, 1)));
    assert(sp_term(t, 0) == Ok::<(int, int), ExpressionError>((a, 1)));
    assert(sp_term_more(t, 5, b * d) == Ok::<(int, int), ExpressionError>((b * d, 5)));
    assert(sp_term_more(t, 3, b) == Ok::<(int, int), ExpressionError>((b * d, 5)));
    assert(sp_term(t, 2) == Ok::<(int, int), ExpressionError>((b * d, 5)));
    assert(sp_expr_more(t, 5, a + b * d) == Ok::<(int, int), ExpressionError>((a + b * d, 5)));
    assert(sp_expr_more(t, 1, a) == Ok::<(int, int), ExpressionError>((a + b * d, 5)));
    assert(sp_expr(t, 0) == Ok::<(int, int), ExpressionError>((a + b * d, 5)));
}

/// Subtraction is left-associative: for all non-negative i64-range
/// integers a, b and d, "a-b-d" evaluates to (a - b) - d.
pub proof fn lemma_evaluate_left_assoc(a: int, b: int, d: int)
    requires
        0 <= a <= i64::MAX,
        0 <= b <= i64::MAX,
        0 <= d <= i64::MAX,
        i64::MIN <= a - b - d,
    ensures
        spec_evaluate(spec_decimal(a) + seq!['-'] + spec_decimal(b) + seq!['-'] + spec_decimal(d))
            == Ok::<int, ExpressionError>(a - b - d),
{
    lemma_lex_literal_triple(a, b, d, '-', '-');
    let t = seq![
        num_tok(a, spec_decimal(a)),
        op_tok(TokenType::SubtractionOp, '-'),
        num_tok(b, spec_decimal(b)),
        op_tok(TokenType::SubtractionOp, '-'),
        num_tok(d, spec_decimal(d)),
    ];
    reveal_with_fuel(sp_factor, 5);
    reveal_with_fuel(sp_term, 5);
    reveal_with_fuel(sp_term_more, 5);
    reveal_with_fuel(sp_expr, 5);
    reveal_with_fuel(sp_expr_more, 5);
    assert(char_kind('-') == TokenType::SubtractionOp);
    assert(sp_factor(t, 0) == Ok::<(int, int), ExpressionError>((a, 1)));
    assert(sp_factor(t, 2) == Ok::<(int, int), ExpressionError>((b, 3)));
    assert(sp_factor(t, 4) == Ok::<(int, int), ExpressionError>((d, 5)));
    assert(sp_term_more(t, 1, a) == Ok::<(int, int), ExpressionError>((a, 1)));
    assert(sp_term(t, 0) == Ok::<(int, int), ExpressionError>((a, 1)));
    assert(sp_term_more(t, 3, b) == Ok::<(int, int), ExpressionError>((b, 3)));
    assert(sp_term(t, 2) == Ok::<(int, int), ExpressionError>((b, 3)));
    assert(sp_term_more(t, 5, d) == Ok::<(int, int), ExpressionError>((d, 5)));
    assert(sp_term(t, 4) == Ok::<(int, int), ExpressionError>((d, 5)));
    assert(sp_expr_more(t, 5, a - b - d) == Ok::<(int, int), ExpressionError>((a - b - d, 5)));
    assert(sp_expr_more(t, 3, a - b) == Ok::<(int, int), ExpressionError>((a - b - d, 5)));
    assert(sp_expr_more(t, 1, a) == Ok::<(int, int), ExpressionError>((a - b - d, 5)));
    assert(sp_expr(t, 0) == Ok::<(int, int), ExpressionError>((a - b - d, 5)));
}

/// Evaluating the three tokens "a <op> b" applies the operator once,
/// left to right, for op one of '+', '-', '*'.
proof fn lemma_eval_tokens_binop(a: int, b: int, c: char, v: int)
    requires
        c == '+' || c == '-' || c == '*',
        v == (if c == '+' {
            a + b
        } else if c == '-' {
            a - b
        } else {
            a * b
        }),
        i64::MIN <= a <= i64::MAX,
        i64::MIN <= b <= i64::MAX,
        i64::MIN <= v <= i64::MAX,
    ensures
        spec_eval_tokens(
            seq![
                num_tok(a, spec_decimal(a)),
                op_tok(char_kind(c), c),
                num_tok(b, spec_decimal(b)),
            ],
        ) == Ok::<int, ExpressionError>(v),
{
    let t = seq![
        num_tok(a, spec_decimal(a)),
        op_tok(char_kind(c), c),
        num_tok(b, spec_decimal(b)),
    ];
    reveal_with_fuel(sp_factor, 3);
    reveal_with_fuel(sp_term, 3);
    reveal_with_fuel(sp_term_more, 3);
    reveal_with_fuel(sp_expr, 3);
    reveal_with_fuel(sp_expr_more, 3);
    assert(t[0].kind == TokenType::Number && t[0].val == a);
    assert(t[1].kind == char_kind(c));
    assert(t[2].kind == TokenType::Number && t[2].val == b);
    assert(sp_factor(t, 0) == Ok::<(int, int), ExpressionError>((a, 1)));
    assert(sp_factor(t, 2) == Ok::<(int, int), ExpressionError>((b, 3)));
    if c == '*' {
        assert(sp_term_more(t, 3, a * b) == Ok::<(int, int), ExpressionError>((a * b, 3)));
        assert(sp_term_more(t, 1, a) == Ok::<(int, int), ExpressionError>((a * b, 3)));
        assert(sp_term(t, 0) == Ok::<(int, int), ExpressionError>((a * b, 3)));
        assert(sp_expr_more(t, 3, a * b) == Ok::<(int, int), ExpressionError>((a * b, 3)));
        assert(sp_expr(t, 0) == Ok::<(int, int), ExpressionError>((a * b, 3)));
    } else {
        assert(sp_term_more(t, 1, a) == Ok::<(int, int), ExpressionError>((a, 1)));
        assert(sp_term(t, 0) == Ok::<(int, int), ExpressionError>((a, 1)));
        assert(sp_term_more(t, 3, b) == Ok::<(int, int), ExpressionError>((b, 3)));
        assert(sp_term(t, 2) == Ok::<(int, int), ExpressionError>((b, 3)));
        assert(sp_expr_more(t, 1, a) == Ok::<(int, int), ExpressionError>((v, 3)));
        assert(sp_expr(t, 0) == Ok::<(int, int), ExpressionError>((v, 3)));
    }
}

/// The shape of s2: s with one whitespace character inserted at k, where
/// k does not split a digit run.
spec fn ws_shape(s: Seq<char>, s2: Seq<char>, k: int) -> bool {
    &&& 0 <= k <= s.len()
    &&& s2.len() == s.len() + 1
    &&& (forall|j: int| 0 <= j < k ==> #[trigger] s2[j] == s[j])
    &&& is_space_char(s2[k])
    &&& !is_digit_char(s2[k])
    &&& (forall|j: int| k <= j < s.len() ==> #[trigger] s2[j + 1] == s[j])
    &&& !(0 < k && k < s.len() && is_digit_char(s[k - 1]) && is_digit_char(s[k]))
}

/// Scanning past the inserted character: positions of s2 after k are
/// those of s shifted by one.
proof fn lemma_ws_after(s: Seq<char>, s2: Seq<char>, k: int, i: int)
    requires
        ws_shape(s, s2, k),
        k <= i <= s.len(),
        spec_lex(s, i) is Ok,
    ensures
        spec_lex(s2, i + 1) == spec_lex(s, i),
    decreases s.len() - i, 0int,
{
    if i < s.len() {
        let c = s[i];
        assert(s2[i + 1] == c);
        if is_space_char(c) {
            lemma_ws_after(s, s2, k, i + 1);
        } else if is_digit_char(c) {
            assert(spec_lex(s, i) == spec_lex_num(s, i + 1, i, digit_val(c)));
            lemma_ws_after_num(s, s2, k, i + 1, i, digit_val(c));
        } else if c == '+' || c == '-' || c == '*' || c == '/' || c == '(' || c == ')' {
            assert(spec_lex(s, i + 1) is Ok);
            lemma_ws_after(s, s2, k, i + 1);
        } else {
            assert(spec_lex(s, i) is Err);
        }
    }
}

/// Scanning a digit run that lies wholly at or after the insertion point.
proof fn lemma_ws_after_num(s: Seq<char>, s2: Seq<char>, k: int, i: int, start: int, acc: int)
    requires
        ws_shape(s, s2, k),
        k <= start < i <= s.len(),
        spec_lex_num(s, i, start, acc) is Ok,
    ensures
        spec_lex_num(s2, i + 1, start + 1, acc) == spec_lex_num(s, i, start, acc),
    decreases s.len() - i, 1int,
{
    if i < s.len() && is_digit_char(s[i]) {
        assert(s2[i + 1] == s[i]);
        let acc2 = acc * 10 + digit_val(s[i]);
        assert(acc2 <= i64::MAX);
        lemma_ws_after_num(s, s2, k, i + 1, start, acc2);
    } else {
        if i < s.len() {
            assert(s2[i + 1] == s[i]);
        }
        assert forall|t: int| 0 <= t < i - start implies s2.subrange(start + 1, i + 1)[t]
            == s.subrange(start, i)[t] by {
            assert(s2[(start + t) + 1] == s[start + t]);
        }
        assert(s2.subrange(start + 1, i + 1) =~= s.subrange(start, i));
        assert(spec_lex(s, i) is Ok);
        lemma_ws_after(s, s2, k, i);
    }
}

/// Scanning up to the insertion point: positions of s2 before k are
/// those of s unchanged.
proof fn lemma_ws_before(s: Seq<char>, s2: Seq<char>, k: int, i: int)
    requires
        ws_shape(s, s2, k),
        0 <= i <= k,
        spec_lex(s, i) is Ok,
    ensures
        spec_lex(s2, i) == spec_lex(s, i),
    decreases k - i, 0int,
{
    if i == k {
        assert(spec_lex(s2, k) == spec_lex(s2, k + 1));
        lemma_ws_after(s, s2, k, k);
    } else {
        let c = s[i];
        assert(s2[i] == c);
        if is_space_char(c) {
            lemma_ws_before(s, s2, k, i + 1);
        } else if is_digit_char(c) {
            assert(spec_lex(s, i) == spec_lex_num(s, i + 1, i, digit_val(c)));
            lemma_ws_before_num(s, s2, k, i + 1, i, digit_val(c));
        } else if c == '+' || c == '-' || c == '*' || c == '/' || c == '(' || c == ')' {
            assert(spec_lex(s, i + 1) is Ok);
            lemma_ws_before(s, s2, k, i + 1);
        } else {
            assert(spec_lex(s, i) is Err);
        }
    }
}

/// Scanning a digit run that began before the insertion point: since the
/// insertion does not split a run, the run ends by k.
proof fn lemma_ws_before_num(s: Seq<char>, s2: Seq<char>, k: int, i: int, start: int, acc: int)
    requires
        ws_shape(s, s2, k),
        0 <= start < i <= k,
        forall|j: int| start <= j < i ==> is_digit_char(#[trigger] s[j]),
        spec_lex_num(s, i, start, acc) is Ok,
    ensures
        spec_lex_num(s2, i, start, acc) == spec_lex_num(s, i, start, acc),
    decreases k - i, 1int,
{
    if i < s.len() && is_digit_char(s[i]) {
        if i == k {
            assert(is_digit_char(s[k - 1]));
            assert(false);
        }
        assert(s2[i] == s[i]);
        let acc2 = acc * 10 + digit_val(s[i]);
        assert(acc2 <= i64::MAX);
        lemma_ws_before_num(s, s2, k, i + 1, start, acc2);
    } else {
        if i < k {
            assert(s2[i] == s[i]);
        }
        assert(s2.subrange(start, i) =~= s.subrange(start, i));
        assert(spec_lex(s, i) is Ok);
        lemma_ws_before(s, s2, k, i);
    }
}

/// Inserting one whitespace character at any position that does not split
/// a number leaves the token sequence of a well-formed expression string
/// unchanged.
pub proof fn lemma_whitespace_insensitive(s: Seq<char>, k: int, w: char)
    requires
        0 <= k <= s.len(),
        is_space_char(w),
        !(0 < k && k < s.len() && is_digit_char(s[k - 1]) && is_digit_char(s[k])),
        spec_lex(s, 0) is Ok,
    ensures
        spec_lex(s.insert(k, w), 0) == spec_lex(s, 0),
{
    let s2 = s.insert(k, w);
    s.insert_ensures(k, w);
    assert(!is_digit_char(w));
    lemma_ws_before(s, s2, k, 0);
}

/// Inserting one whitespace character at any position that does not split
/// a number leaves the value of an expression unchanged.
pub proof fn lemma_evaluate_whitespace_insensitive(s: Seq<char>, k: int, w: char)
    requires
        0 <= k <= s.len(),
        is_space_char(w),
        !(0 < k && k < s.len() && is_digit_char(s[k - 1]) && is_digit_char(s[k])),
        spec_lex(s, 0) is Ok,
    ensures
        spec_evaluate(s.insert(k, w)) == spec_evaluate(s),
{
    lemma_whitespace_insensitive(s, k, w);
}

/// For all non-negative integers a and b whose sum fits in an i64,
/// evaluating "a+b" (both in decimal) yields a + b.
pub proof fn lemma_evaluate_add(a: int, b: int)
    requires
        0 <= a,
        0 <= b,
        a + b <= i64::MAX,
    ensures
        spec_evaluate(spec_decimal(a) + seq!['+'] + spec_decimal(b)) == Ok::<
            int,
            ExpressionError,
        >(a + b),
{
    lemma_lex_literal_pair(a, b, '+');
    lemma_eval_tokens_binop(a, b, '+', a + b);
}

/// For all non-negative i64-range integers a and b, evaluating "a-b"
/// (both in decimal) yields a - b.
pub proof fn lemma_evaluate_sub(a: int, b: int)
    requires
        0 <= a <= i64::MAX,
        0 <= b <= i64::MAX,
    ensures
        spec_evaluate(spec_decimal(a) + seq!['-'] + spec_decimal(b)) == Ok::<
            int,
            ExpressionError,
        >(a - b),
{
    lemma_lex_literal_pair(a, b, '-');
    lemma_eval_tokens_binop(a, b, '-', a - b);
}

/// For all non-negative integers a and b whose product fits in an i64,
/// evaluating "a*b" (both in decimal) yields a * b.
pub proof fn lemma_evaluate_mul(a: int, b: int)
    requires
        0 <= a <= i64::MAX,
        0 <= b <= i64::MAX,
        a * b <= i64::MAX,
    ensures
        spec_evaluate(spec_decimal(a) + seq!['*'] + spec_decimal(b)) == Ok::<
            int,
            ExpressionError,
        >(a * b),
{
    assert(a * b >= 0) by (nonlinear_arith)
        requires a >= 0 && b >= 0,
    ;
    lemma_lex_literal_pair(a, b, '*');
    lemma_eval_tokens_binop(a, b, '*', a * b);
}

/// For all non-negative i64-range integers a and b with b positive,
/// evaluating "a/b" (both in decimal) yields a divided by b.
pub proof fn lemma_evaluate_div(a: int, b: int)
    requires
        0 <= a <= i64::MAX,
        0 < b <= i64::MAX,
    ensures
        spec_evaluate(spec_decimal(a) + seq!['/'] + spec_decimal(b)) == Ok::<
            int,
            ExpressionError,
        >(a / b),
{
    lemma_lex_literal_pair(a, b, '/');
    let t = seq![
        num_tok(a, spec_decimal(a)),
        op_tok(TokenType::DivisionOp, '/'),
        num_tok(b, spec_decimal(b)),
    ];
    reveal_with_fuel(sp_factor, 3);
    reveal_with_fuel(sp_term, 3);
    reveal_with_fuel(sp_term_more, 3);
    reveal_with_fuel(sp_expr, 3);
    reveal_with_fuel(sp_expr_more, 3);
    assert(char_kind('/') == TokenType::DivisionOp);
    assert(sp_factor(t, 0) == Ok::<(int, int), ExpressionError>((a, 1)));
    assert(sp_factor(t, 2) == Ok::<(int, int), ExpressionError>((b, 3)));
    vstd::arithmetic::div_mod::lemma_div_pos_is_pos(a, b);
    vstd::arithmetic::div_mod::lemma_div_is_ordered_by_denominator(a, 1, b);
    vstd::arithmetic::div_mod::lemma_div_by_multiple(a, 1);
    assert(0 <= a / b <= a);
    assert(tdiv(a, b) == a / b);
    assert(sp_term_more(t, 3, a / b) == Ok::<(int, int), ExpressionError>((a / b, 3)));
    assert(sp_term_more(t, 1, a) == Ok::<(int, int), ExpressionError>((a / b, 3)));
    assert(sp_expr(t, 0) == Ok::<(int, int), ExpressionError>((a / b, 3)));
}

/// For every non-negative i64-range integer a, evaluating "a/0" fails
/// with division by zero.
pub proof fn lemma_evaluate_div_zero(a: int)
    requires
        0 <= a <= i64::MAX,
    ensures
        spec_evaluate(spec_decimal(a) + seq!['/'] + spec_decimal(0)) == Err::<
            int,
            ExpressionError,
        >(ExpressionError::Arithmetic(ArithmeticError::DivideByZero)),
{
    lemma_lex_literal_pair(a, 0, '/');
    let t = seq![
        num_tok(a, spec_decimal(a)),
        op_tok(TokenType::DivisionOp, '/'),
        num_tok(0, spec_decimal(0)),
    ];
    reveal_with_fuel(sp_factor, 3);
    reveal_with_fuel(sp_term, 3);
    reveal_with_fuel(sp_term_more, 3);
    reveal_with_fuel(sp_expr, 3);
    reveal_with_fuel(sp_expr_more, 3);
    assert(char_kind('/') == TokenType::DivisionOp);
    assert(sp_factor(t, 0) == Ok::<(int, int), ExpressionError>((a, 1)));
    assert(sp_factor(t, 2) == Ok::<(int, int), ExpressionError>((0, 3)));
    assert(sp_term_more(t, 1, a) == Err::<(int, int), ExpressionError>(
        ExpressionError::Arithmetic(ArithmeticError::DivideByZero),
    ));
}

/// Scanning a run of digits whose accumulated value stays below 2^32
/// folds the run's value into the current octet without wrapping.
proof fn lemma_ipv4_scan_run(s: Seq<char>, i: int, m: int, ip: int, cur: int)
    requires
        0 <= i <= m <= s.len(),
        forall|j: int| i <= j < m ==> is_digit_char(#[trigger] s[j]),
        0 <= cur,
        0 <= ip,
        cur * pow10((m - i) as nat) + digits_value(s.subrange(i, m)) < 0x1_0000_0000,
    ensures
        ipv4_scan(s, i, ip, cur) == ipv4_scan(
            s,
            m,
            ip,
            cur * pow10((m - i) as nat) + digits_value(s.subrange(i, m)),
        ),
    decreases m - i,
{
    if i == m {
        assert(s.subrange(i, m) =~= Seq::<char>::empty());
        assert(digits_value(Seq::<char>::empty()) == 0);
        assert(cur * pow10(0nat) + 0 == cur) by (nonlinear_arith)
            requires pow10(0nat) == 1,
        ;
    } else {
        let d = digit_val(s[i]);
        let one = s.subrange(i, i + 1);
        let rest = s.subrange(i + 1, m);
        lemma_digits_value_single(s, i);
        assert(s.subrange(i, m) =~= one + rest);
        lemma_digits_value_concat(one, rest);
        assert(all_digits(rest));
        lemma_digits_value_nonneg(rest);
        lemma_pow10_pos((m - i - 1) as nat);
        let cur2 = cur * 10 + d;
        let total = cur * pow10((m - i) as nat) + digits_value(s.subrange(i, m));
        assert(pow10((m - i) as nat) == 10 * pow10((m - i - 1) as nat));
        assert(cur2 * pow10((m - i - 1) as nat) + digits_value(rest) == total) by (nonlinear_arith)
            requires
                cur2 == cur * 10 + d,
                pow10((m - i) as nat) == 10 * pow10((m - i - 1) as nat),
                digits_value(s.subrange(i, m)) == d * pow10((m - i - 1) as nat) + digits_value(rest),
                total == cur * pow10((m - i) as nat) + digits_value(s.subrange(i, m)),
        ;
        assert(cur2 <= cur2 * pow10((m - i - 1) as nat)) by (nonlinear_arith)
            requires cur2 >= 0 && pow10((m - i - 1) as nat) >= 1,
        ;
        assert(0 <= cur2 < 0x1_0000_0000);
        assert(ipv4_wrap(cur2) == cur2);
        lemma_ipv4_scan_run(s, i + 1, m, ip, cur2);
    }
}

/// Parsing the dot notation of a 32-bit address yields the address back.
pub proof fn lemma_ipv4_round_trip(x: u32)
    ensures
        spec_parse_ipv4(spec_ipv4_string(x)) == x,
{
    let a = (x >> 24) as int;
    let b = ((x >> 16) & 255) as int;
    let c = ((x >> 8) & 255) as int;
    let d = (x & 255) as int;
    assert(x >> 24 < 256 && (x >> 16) & 255 < 256 && (x >> 8) & 255 < 256 && x & 255 < 256)
        by (bit_vector);
    assert(x == ((((x >> 24) * 256 + ((x >> 16) & 255)) * 256 + ((x >> 8) & 255)) * 256 + (
    x & 255))) by (bit_vector);
    let ta = spec_decimal(a);
    let tb = spec_decimal(b);
    let tc = spec_decimal(c);
    let td = spec_decimal(d);
    lemma_spec_decimal_value(a);
    lemma_spec_decimal_value(b);
    lemma_spec_decimal_value(c);
    lemma_spec_decimal_value(d);
    let s = spec_ipv4_string(x);
    let al = ta.len() as int;
    let bl = tb.len() as int;
    let cl = tc.len() as int;
    let dl = td.len() as int;
    let p1 = al;
    let p2 = al + 1 + bl;
    let p3 = al + 1 + bl + 1 + cl;
    let len = s.len() as int;
    assert(len == al + bl + cl + dl + 3);
    assert forall|j: int| 0 <= j < al implies s[j] == ta[j] && is_digit_char(#[trigger] s[j]) by {
        assert(s[j] == ta[j]);
    }
    assert(s[p1] == '.');
    assert forall|j: int| p1 + 1 <= j < p2 implies s[j] == tb[j - p1 - 1] && is_digit_char(
        #[trigger] s[j],
    ) by {
        assert(s[j] == tb[j - p1 - 1]);
    }
    assert(s[p2] == '.');
    assert forall|j: int| p2 + 1 <= j < p3 implies s[j] == tc[j - p2 - 1] && is_digit_char(
        #[trigger] s[j],
    ) by {
        assert(s[j] == tc[j - p2 - 1]);
    }
    assert(s[p3] == '.');
    assert forall|j: int| p3 + 1 <= j < len implies s[j] == td[j - p3 - 1] && is_digit_char(
        #[trigger] s[j],
    ) by {
        assert(s[j] == td[j - p3 - 1]);
    }
    assert(s.subrange(0, p1) =~= ta);
    assert(s.subrange(p1 + 1, p2) =~= tb);
    assert(s.subrange(p2 + 1, p3) =~= tc);
    assert(s.subrange(p3 + 1, len) =~= td);
    lemma_pow10_pos(al as nat);

    // first octet, then its dot
    assert(0 * pow10(al as nat) == 0) by (nonlinear_arith);
    lemma_ipv4_scan_run(s, 0, p1, 0, 0);
    assert(ipv4_scan(s, 0, 0, 0) == ipv4_scan(s, p1, 0, a));
    assert(!is_digit_char('.') && ipv4_wrap(0 * 256 + a) == a);
    assert(ipv4_scan(s, p1, 0, a) == ipv4_scan(s, p1 + 1, a, 0));

    // second octet, then its dot
    assert(0 * pow10(bl as nat) == 0) by (nonlinear_arith);
    lemma_ipv4_scan_run(s, p1 + 1, p2, a, 0);
    assert(ipv4_wrap(a * 256 + b) == a * 256 + b);
    assert(ipv4_scan(s, p2, a, b) == ipv4_scan(s, p2 + 1, a * 256 + b, 0));

    // third octet, then its dot
    assert(0 * pow10(cl as nat) == 0) by (nonlinear_arith);
    lemma_ipv4_scan_run(s, p2 + 1, p3, a * 256 + b, 0);
    assert(ipv4_wrap((a * 256 + b) * 256 + c) == (a * 256 + b) * 256 + c);
    assert(ipv4_scan(s, p3, a * 256 + b, c) == ipv4_scan(s, p3 + 1, (a * 256 + b) * 256 + c, 0));

    // fourth octet, then the end of the string
    assert(0 * pow10(dl as nat) == 0) by (nonlinear_arith);
    lemma_ipv4_scan_run(s, p3 + 1, len, (a * 256 + b) * 256 + c, 0);
    assert(ipv4_scan(s, len, (a * 256 + b) * 256 + c, d) == ipv4_wrap(
        ((a * 256 + b) * 256 + c) * 256 + d,
    ));
    assert(ipv4_wrap(((a * 256 + b) * 256 + c) * 256 + d) == ((a * 256 + b) * 256 + c) * 256 + d);
}

} // verus!
