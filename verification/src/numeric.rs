//! Arbitrary-precision amounts. A decimal or an integer travels through the
//! library as its numeral; the arithmetic on it is done by `bigdecimal` and
//! its big integers. An integer numeral stands for a number, and what the
//! integer operations return is stated over those numbers, and so is the
//! whole part of an amount; the sum, the difference and the order of
//! decimals have a name each. A decimal is always in plain form,
//! without exponent, so that no operation meets a scale beyond the length of
//! the texts it is given.

use crate::codec::decimal_text;
use crate::codec::digits_value;
use crate::codec::is_decimal_digit;
use vstd::prelude::*;

verus! {

/// How many points a text holds.
pub open spec fn points(text: Seq<char>) -> nat
    decreases text.len(),
{
    if text.len() == 0 {
        0
    } else if text.last() == '.' {
        points(text.drop_last()) + 1
    } else {
        points(text.drop_last())
    }
}

/// Whether a text is an amount: decimal digits, then at most once a point
/// and more digits. An amount has no sign and no exponent, so it is not
/// below zero, and its scale is not above its length.
pub open spec fn is_amount(text: Seq<char>) -> bool {
    &&& text.len() > 0
    &&& text[0] != '.'
    &&& text[text.len() - 1] != '.'
    &&& points(text) <= 1
    &&& forall|i: int| 0 <= i < text.len() ==> is_decimal_digit(#[trigger] text[i]) || text[i] == '.'
}

/// Whether a text is a plain decimal: an amount, or a minus sign before one.
pub open spec fn is_decimal(text: Seq<char>) -> bool {
    is_amount(text) || (text.len() > 0 && text[0] == '-' && is_amount(
        text.subrange(1, text.len() as int),
    ))
}

/// The text of the sum of two decimals, in plain form.
pub uninterp spec fn decimal_sum(a: Seq<char>, b: Seq<char>) -> Seq<char>;

/// The text of the first decimal less the second, in plain form.
pub uninterp spec fn decimal_difference(a: Seq<char>, b: Seq<char>) -> Seq<char>;

/// Whether the first decimal is strictly below the second.
pub uninterp spec fn decimal_below(a: Seq<char>, b: Seq<char>) -> bool;

/// Where the point of an amount stands: the number of characters before
/// it, or the length of an amount without a point.
pub open spec fn point_at(text: Seq<char>) -> int
    decreases text.len(),
{
    if text.len() == 0 || text[0] == '.' {
        0
    } else {
        1 + point_at(text.drop_first())
    }
}

/// Whether an amount has no fractional part: every digit after the point,
/// if there is any, is a zero.
pub open spec fn decimal_is_whole(a: Seq<char>) -> bool {
    forall|i: int| point_at(a) < i < a.len() ==> #[trigger] a[i] == '0'
}

/// The integer that an amount is cut down to, its fraction dropped: the
/// number that the digits before the point stand for.
pub open spec fn decimal_whole_part(a: Seq<char>) -> int {
    digits_value(a.subrange(0, point_at(a))) as int
}

/// The number that an integer numeral stands for, where `BigInt` accepts
/// the text.
pub uninterp spec fn parsed_integer(text: Seq<char>) -> Option<int>;

/// Whether a text is an integer numeral.
pub open spec fn is_integer(text: Seq<char>) -> bool {
    parsed_integer(text).is_some()
}

/// The number that an integer numeral stands for.
pub open spec fn integer_of(text: Seq<char>) -> int {
    parsed_integer(text).unwrap()
}

/// The numeral of an integer: its decimal digits, after a minus sign where
/// it is below zero.
pub open spec fn integer_text(value: int) -> Seq<char> {
    if value < 0 {
        seq!['-'] + decimal_text((-value) as nat)
    } else {
        decimal_text(value as nat)
    }
}

/// Whether a text is what `BigInt` prints for a number: the number's
/// numeral, which stands for the number again.
pub open spec fn prints(text: Seq<char>, value: int) -> bool {
    &&& text == integer_text(value)
    &&& parsed_integer(text) == Some(value)
}

/// The numeral of zero.
pub open spec fn zero_text() -> Seq<char> {
    seq!['0']
}

/// Whether a text is an amount: digits, then at most once a point and more
/// digits.
pub fn is_amount_text(text: &str) -> (ok: bool)
    ensures
        ok == is_amount(text@),
{
    if !text.is_ascii() {
        return false;
    }
    proof {
        vstd::utf8::is_ascii_chars_encode_utf8(text@);
    }
    let bytes = text.as_bytes();
    let length = bytes.len();
    if length == 0 || bytes[0] == 46 || bytes[length - 1] == 46 {
        return false;
    }
    let mut seen: usize = 0;
    let mut i: usize = 0;
    assert(text@.subrange(0, 0) =~= Seq::<char>::empty());
    while i < length
        invariant
            i <= length,
            length == text@.len(),
            bytes@.len() == length,
            forall|j: int| 0 <= j < length ==> text@[j] as u8 == #[trigger] bytes@[j],
            forall|j: int| 0 <= j < length ==> '\0' <= #[trigger] text@[j] <= '\u{7f}',
            seen <= 1,
            seen == points(text@.subrange(0, i as int)),
            forall|j: int| 0 <= j < i ==> is_decimal_digit(#[trigger] text@[j]) || text@[j] == '.',
        decreases length - i,
    {
        let ghost before = text@.subrange(0, i as int);
        let ghost after = text@.subrange(0, i + 1);
        assert(after.drop_last() =~= before);
        assert(after.last() == text@[i as int]);
        let byte = bytes[i];
        if byte == 46 {
            if seen == 1 {
                proof {
                    points_grow(text@, i + 1);
                }
                return false;
            }
            seen = 1;
        } else if byte < 48 || byte > 57 {
            return false;
        }
        i = i + 1;
    }
    assert(text@.subrange(0, i as int) =~= text@);
    true
}

/// The numeral of zero is an amount.
pub proof fn zero_is_amount()
    ensures
        is_amount(zero_text()),
        is_decimal(zero_text()),
{
    let zero = zero_text();
    assert(zero.drop_last() =~= Seq::<char>::empty());
    assert(points(zero.drop_last()) == 0);
}

/// A text holds at least as many points as a part of it from the start.
proof fn points_grow(text: Seq<char>, n: int)
    requires
        0 <= n <= text.len(),
    ensures
        points(text.subrange(0, n)) <= points(text),
    decreases text.len() - n,
{
    if n < text.len() {
        assert(text.subrange(0, n + 1).drop_last() =~= text.subrange(0, n));
        points_grow(text, n + 1);
    } else {
        assert(text.subrange(0, n) =~= text);
    }
}

/// Prints `BigDecimal`'s zero in plain form: the numeral `0`.
#[verifier::external_body]
pub(crate) fn decimal_zero() -> (text: String)
    ensures
        text@ == zero_text(),
{
    <bigdecimal::BigDecimal as bigdecimal::Zero>::zero().to_plain_string()
}

/// Adds two plain decimals with `BigDecimal`'s `+` and prints the sum with
/// `to_plain_string`: a plain decimal again.
#[verifier::external_body]
pub(crate) fn decimal_add(a: &str, b: &str) -> (sum: String)
    requires
        is_decimal(a@),
        is_decimal(b@),
    ensures
        sum@ == decimal_sum(a@, b@),
        is_decimal(sum@),
{
    let x = <bigdecimal::BigDecimal as std::str::FromStr>::from_str(a).unwrap();
    let y = <bigdecimal::BigDecimal as std::str::FromStr>::from_str(b).unwrap();
    (x + y).to_plain_string()
}

/// Subtracts two plain decimals with `BigDecimal`'s `-` and prints the
/// difference with `to_plain_string`: a plain decimal again.
#[verifier::external_body]
pub(crate) fn decimal_subtract(a: &str, b: &str) -> (difference: String)
    requires
        is_decimal(a@),
        is_decimal(b@),
    ensures
        difference@ == decimal_difference(a@, b@),
        is_decimal(difference@),
{
    let x = <bigdecimal::BigDecimal as std::str::FromStr>::from_str(a).unwrap();
    let y = <bigdecimal::BigDecimal as std::str::FromStr>::from_str(b).unwrap();
    (x - y).to_plain_string()
}

/// Compares two plain decimals with `BigDecimal`'s `<`.
#[verifier::external_body]
pub(crate) fn decimal_less(a: &str, b: &str) -> (below: bool)
    requires
        is_decimal(a@),
        is_decimal(b@),
    ensures
        below == decimal_below(a@, b@),
{
    let x = <bigdecimal::BigDecimal as std::str::FromStr>::from_str(a).unwrap();
    let y = <bigdecimal::BigDecimal as std::str::FromStr>::from_str(b).unwrap();
    x < y
}

/// Asks `BigDecimal::is_integer` of an amount: whether the digits after the
/// point, if there are any, are all zeros.
#[verifier::external_body]
pub(crate) fn decimal_whole(a: &str) -> (whole: bool)
    requires
        is_amount(a@),
    ensures
        whole == decimal_is_whole(a@),
{
    <bigdecimal::BigDecimal as std::str::FromStr>::from_str(a).unwrap().is_integer()
}

/// Converts an amount with `ToBigInt::to_bigint`, which drops the fraction,
/// and prints the integer: the number that the digits before the point stand
/// for.
#[verifier::external_body]
pub(crate) fn decimal_to_integer(a: &str) -> (integer: String)
    requires
        is_amount(a@),
    ensures
        prints(integer@, decimal_whole_part(a@)),
{
    let x = <bigdecimal::BigDecimal as std::str::FromStr>::from_str(a).unwrap();
    bigdecimal::num_bigint::ToBigInt::to_bigint(&x).unwrap().to_string()
}

/// Prints `BigInt`'s zero.
#[verifier::external_body]
pub(crate) fn integer_zero() -> (text: String)
    ensures
        text@ == integer_text(0),
        parsed_integer(text@) == Some(0int),
{
    <bigdecimal::num_bigint::BigInt as bigdecimal::Zero>::zero().to_string()
}

/// Prints a 64-bit number as `BigInt` does.
#[verifier::external_body]
pub(crate) fn integer_from_u64(n: u64) -> (text: String)
    ensures
        text@ == integer_text(n as int),
        parsed_integer(text@) == Some(n as int),
{
    bigdecimal::num_bigint::BigInt::from(n).to_string()
}

/// Adds two integers with `BigInt`'s `+` and prints the sum; nothing comes
/// back where either text is no integer.
#[verifier::external_body]
pub(crate) fn integer_add(a: &str, b: &str) -> (sum: Option<String>)
    ensures
        sum.is_some() == (is_integer(a@) && is_integer(b@)),
        sum.is_some() ==> prints(sum.unwrap()@, integer_of(a@) + integer_of(b@)),
{
    let x = <bigdecimal::num_bigint::BigInt as std::str::FromStr>::from_str(a).ok()?;
    let y = <bigdecimal::num_bigint::BigInt as std::str::FromStr>::from_str(b).ok()?;
    Some((x + y).to_string())
}

/// Subtracts with `BigInt`'s `-` and prints the difference; nothing comes
/// back where either text is no integer.
#[verifier::external_body]
pub(crate) fn integer_subtract(a: &str, b: &str) -> (difference: Option<String>)
    ensures
        difference.is_some() == (is_integer(a@) && is_integer(b@)),
        difference.is_some() ==> prints(difference.unwrap()@, integer_of(a@) - integer_of(b@)),
{
    let x = <bigdecimal::num_bigint::BigInt as std::str::FromStr>::from_str(a).ok()?;
    let y = <bigdecimal::num_bigint::BigInt as std::str::FromStr>::from_str(b).ok()?;
    Some((x - y).to_string())
}

/// Compares two integers with `BigInt`'s `<`; nothing comes back where
/// either text is no integer.
#[verifier::external_body]
pub(crate) fn integer_less(a: &str, b: &str) -> (below: Option<bool>)
    ensures
        below.is_some() == (is_integer(a@) && is_integer(b@)),
        below.is_some() ==> below.unwrap() == (integer_of(a@) < integer_of(b@)),
{
    let x = <bigdecimal::num_bigint::BigInt as std::str::FromStr>::from_str(a).ok()?;
    let y = <bigdecimal::num_bigint::BigInt as std::str::FromStr>::from_str(b).ok()?;
    Some(x < y)
}

/// Divides a 64-bit number by an integer above zero with `BigInt`'s `%` and
/// prints the remainder.
#[verifier::external_body]
pub(crate) fn integer_rem(n: u64, modulus: &str) -> (remainder: String)
    requires
        is_integer(modulus@),
        integer_of(modulus@) > 0,
    ensures
        prints(remainder@, n as int % integer_of(modulus@)),
{
    let m = <bigdecimal::num_bigint::BigInt as std::str::FromStr>::from_str(modulus).unwrap();
    (bigdecimal::num_bigint::BigInt::from(n) % m).to_string()
}

} // verus!
