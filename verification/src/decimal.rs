//! Decimal digits: what a run of digit characters denotes, the canonical
//! decimal representation of a non-negative integer, and executable
//! conversion from numbers to decimal strings.

use vstd::prelude::*;
use vstd::string::StringExecFns;

verus! {

/// The character is one of '0' through '9'.
pub open spec fn is_digit_char(c: char) -> bool {
    '0' as int <= c as int && c as int <= '9' as int
}

/// The numeric value of a digit character.
pub open spec fn digit_val(c: char) -> int {
    c as int - '0' as int
}

/// The digit character for a value below ten.
pub open spec fn digit_char(d: int) -> char {
    if d == 0 {
        '0'
    } else if d == 1 {
        '1'
    } else if d == 2 {
        '2'
    } else if d == 3 {
        '3'
    } else if d == 4 {
        '4'
    } else if d == 5 {
        '5'
    } else if d == 6 {
        '6'
    } else if d == 7 {
        '7'
    } else if d == 8 {
        '8'
    } else {
        '9'
    }
}

/// Every character of the sequence is a decimal digit.
pub open spec fn all_digits(s: Seq<char>) -> bool {
    forall|i: int| 0 <= i < s.len() ==> is_digit_char(#[trigger] s[i])
}

/// The number denoted by a sequence of digit characters (most
/// significant digit first); 0 for the empty sequence.
pub open spec fn digits_value(s: Seq<char>) -> int
    decreases s.len(),
{
    if s.len() == 0 {
        0
    } else {
        digits_value(s.drop_last()) * 10 + digit_val(s.last())
    }
}

/// The digit characters of n, most significant first; empty for n <= 0.
pub open spec fn spec_digits(n: int) -> Seq<char>
    decreases n,
{
    if n <= 0 {
        Seq::empty()
    } else {
        spec_digits(n / 10).push(digit_char(n % 10))
    }
}

/// The canonical decimal representation of a non-negative integer.
pub open spec fn spec_decimal(n: int) -> Seq<char> {
    if n == 0 {
        seq!['0']
    } else {
        spec_digits(n)
    }
}

/// Ten to the power k.
pub open spec fn pow10(k: nat) -> int
    decreases k,
{
    if k == 0 {
        1
    } else {
        10 * pow10((k - 1) as nat)
    }
}

pub proof fn lemma_pow10_pos(k: nat)
    ensures
        pow10(k) >= 1,
    decreases k,
{
    if k > 0 {
        lemma_pow10_pos((k - 1) as nat);
    }
}

/// digit_char and digit_val are mutual inverses on single digits.
pub proof fn lemma_digit_char_val(d: int)
    requires
        0 <= d < 10,
    ensures
        is_digit_char(digit_char(d)),
        digit_val(digit_char(d)) == d,
{
}

/// The canonical digits of n denote n and consist of digits only.
pub proof fn lemma_spec_digits_value(n: int)
    requires
        n >= 0,
    ensures
        all_digits(spec_digits(n)),
        digits_value(spec_digits(n)) == n,
        n > 0 ==> spec_digits(n).len() >= 1,
    decreases n,
{
    if n > 0 {
        vstd::arithmetic::div_mod::lemma_div_is_ordered_by_denominator(n, 1, 10);
        vstd::arithmetic::div_mod::lemma_div_by_multiple(n, 1);
        assert(n / 10 < n || n / 10 == n);
        if n / 10 == n {
            vstd::arithmetic::div_mod::lemma_fundamental_div_mod(n, 10);
            assert(false) by (nonlinear_arith)
                requires n == (n / 10) * 10 + n % 10 && n / 10 == n && n > 0 && 0 <= n % 10 < 10,
            ;
        }
        lemma_spec_digits_value(n / 10);
        vstd::arithmetic::div_mod::lemma_fundamental_div_mod(n, 10);
        lemma_digit_char_val(n % 10);
        let pre = spec_digits(n / 10);
        let whole = spec_digits(n);
        assert(whole == pre.push(digit_char(n % 10)));
        assert(whole.drop_last() =~= pre);
        assert(digits_value(whole) == digits_value(pre) * 10 + (n % 10));
        assert forall|i: int| 0 <= i < whole.len() implies is_digit_char(#[trigger] whole[i]) by {
            if i < pre.len() {
                assert(whole[i] == pre[i]);
            }
        }
    }
}

/// The canonical decimal representation of n denotes n, is non-empty,
/// and consists of digits only.
pub proof fn lemma_spec_decimal_value(n: int)
    requires
        n >= 0,
    ensures
        all_digits(spec_decimal(n)),
        digits_value(spec_decimal(n)) == n,
        spec_decimal(n).len() >= 1,
{
    if n == 0 {
        let s = spec_decimal(0);
        assert(s.drop_last() =~= Seq::<char>::empty());
        assert(digits_value(Seq::<char>::empty()) == 0);
        assert(s.last() == '0');
        assert(digits_value(s) == digit_val('0'));
    } else {
        lemma_spec_digits_value(n);
    }
}

/// A digit sequence denotes a non-negative number.
pub proof fn lemma_digits_value_nonneg(s: Seq<char>)
    requires
        all_digits(s),
    ensures
        digits_value(s) >= 0,
    decreases s.len(),
{
    if s.len() > 0 {
        assert(all_digits(s.drop_last())) by {
            assert forall|i: int| 0 <= i < s.drop_last().len()
                implies is_digit_char(#[trigger] s.drop_last()[i]) by {
                assert(s.drop_last()[i] == s[i]);
            }
        }
        lemma_digits_value_nonneg(s.drop_last());
        assert(digits_value(s.drop_last()) * 10 >= 0) by (nonlinear_arith)
            requires digits_value(s.drop_last()) >= 0,
        ;
        assert(is_digit_char(s.last()));
    }
}

/// Splitting a digit string: the value of a concatenation.
pub proof fn lemma_digits_value_concat(x: Seq<char>, y: Seq<char>)
    ensures
        digits_value(x + y) == digits_value(x) * pow10(y.len()) + digits_value(y),
    decreases y.len(),
{
    if y.len() == 0 {
        assert(x + y =~= x);
    } else {
        lemma_digits_value_concat(x, y.drop_last());
        assert((x + y).drop_last() =~= x + y.drop_last());
        assert((x + y).last() == y.last());
        let dx = digits_value(x);
        let dvd = digits_value(y.drop_last());
        let k = y.drop_last().len();
        assert(digits_value(x + y) == digits_value(x + y.drop_last()) * 10 + digit_val(y.last()));
        assert(digits_value(x + y.drop_last()) == dx * pow10(k) + dvd);
        assert((dx * pow10(k) + dvd) * 10 + digit_val(y.last())
            == dx * (10 * pow10(k)) + (dvd * 10 + digit_val(y.last()))) by (nonlinear_arith);
        assert(digits_value(y) == dvd * 10 + digit_val(y.last()));
        assert(pow10(y.len()) == 10 * pow10(k));
    }
}

/// The value of a digit prefix never exceeds the value of the whole run.
pub proof fn lemma_digits_value_prefix(x: Seq<char>, y: Seq<char>)
    requires
        all_digits(x),
        all_digits(y),
    ensures
        digits_value(x) <= digits_value(x + y),
{
    lemma_digits_value_concat(x, y);
    lemma_digits_value_nonneg(x);
    lemma_digits_value_nonneg(y);
    lemma_pow10_pos(y.len());
    assert(digits_value(x) * pow10(y.len()) >= digits_value(x)) by (nonlinear_arith)
        requires digits_value(x) >= 0 && pow10(y.len()) >= 1,
    ;
}

/// Append the digit character for d to a string.
pub fn append_digit(s: &mut String, d: u32)
    requires
        d < 10,
    ensures
        final(s)@ == old(s)@.push(digit_char(d as int)),
{
    proof {
        reveal_strlit("0");
        reveal_strlit("1");
        reveal_strlit("2");
        reveal_strlit("3");
        reveal_strlit("4");
        reveal_strlit("5");
        reveal_strlit("6");
        reveal_strlit("7");
        reveal_strlit("8");
        reveal_strlit("9");
    }
    if d == 0 {
        s.append("0");
        assert(s@ =~= old(s)@.push('0'));
    } else if d == 1 {
        s.append("1");
        assert(s@ =~= old(s)@.push('1'));
    } else if d == 2 {
        s.append("2");
        assert(s@ =~= old(s)@.push('2'));
    } else if d == 3 {
        s.append("3");
        assert(s@ =~= old(s)@.push('3'));
    } else if d == 4 {
        s.append("4");
        assert(s@ =~= old(s)@.push('4'));
    } else if d == 5 {
        s.append("5");
        assert(s@ =~= old(s)@.push('5'));
    } else if d == 6 {
        s.append("6");
        assert(s@ =~= old(s)@.push('6'));
    } else if d == 7 {
        s.append("7");
        assert(s@ =~= old(s)@.push('7'));
    } else if d == 8 {
        s.append("8");
        assert(s@ =~= old(s)@.push('8'));
    } else {
        s.append("9");
        assert(s@ =~= old(s)@.push('9'));
    }
}

/// The digit characters of n, most significant first (empty for 0).
pub fn digits_string(n: u32) -> (r: String)
    ensures
        r@ == spec_digits(n as int),
    decreases n,
{
    if n == 0 {
        String::new()
    } else {
        let mut s = digits_string(n / 10);
        append_digit(&mut s, n % 10);
        s
    }
}

/// The decimal representation of n.
pub fn decimal_string(n: u32) -> (r: String)
    ensures
        r@ == spec_decimal(n as int),
{
    if n == 0 {
        let r = String::from_str("0");
        proof {
            reveal_strlit("0");
            assert(r@ =~= seq!['0']);
        }
        r
    } else {
        digits_string(n)
    }
}

} // verus!
