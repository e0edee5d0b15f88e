//! Scalars written out in decimal.

use vstd::prelude::*;
use crate::fixed::{abs_u64, magnitude, Fixed};

verus! {

/// The character of the decimal digit `d`.
pub open spec fn digit(d: int) -> char {
    (48 + d) as char
}

/// The decimal digits of a non-negative number, without leading zeros.
pub open spec fn decimal(n: int) -> Seq<char>
    decreases n,
{
    if n < 10 {
        seq![digit(n)]
    } else {
        decimal(n / 10).push(digit(n % 10))
    }
}

/// The number of hundredths nearest to `m` billionths; of two that are
/// equally near, the even one.
pub open spec fn hundredths(m: int) -> int {
    let q = m / 10_000_000;
    let r = m % 10_000_000;
    if r > 5_000_000 || (r == 5_000_000 && q % 2 == 1) {
        q + 1
    } else {
        q
    }
}

/// The scalar with the given raw value, written with two decimals: a minus
/// sign if it is negative, its whole part, a point and two digits.
pub open spec fn two_decimals(raw: int) -> Seq<char> {
    let h = hundredths(magnitude(raw));
    let sign = if raw < 0 {
        seq!['-']
    } else {
        Seq::<char>::empty()
    };
    sign + decimal(h / 100) + seq!['.', digit(h / 10 % 10), digit(h % 10)]
}

/// Appends a character to a string, with `String::push`.
///
/// Not proved: that the string then holds the characters it held, followed
/// by the new one.
#[verifier::external_body]
fn push_char(s: &mut String, c: char)
    ensures
        final(s)@ == old(s)@.push(c),
{
    s.push(c)
}

/// The character of the decimal digit `d`.
fn digit_char(d: u8) -> (c: char)
    requires
        d < 10,
    ensures
        c == digit(d as int),
{
    (48u8 + d) as char
}

/// Appends the decimal digits of `n` to a string.
fn push_decimal(s: &mut String, n: u64)
    ensures
        final(s)@ == old(s)@ + decimal(n as int),
    decreases n,
{
    if n >= 10 {
        push_decimal(s, n / 10);
    }
    push_char(s, digit_char((n % 10) as u8));
    assert(s@ =~= old(s)@ + decimal(n as int));
}

/// Writes a scalar with two decimals.
pub fn format_two_decimals(value: Fixed) -> (s: String)
    ensures
        s@ == two_decimals(value@),
{
    let m: u64 = abs_u64(value.raw);
    let q: u64 = m / 10_000_000;
    let r: u64 = m % 10_000_000;
    let h: u64 = if r > 5_000_000 || (r == 5_000_000 && q % 2 == 1) {
        q + 1
    } else {
        q
    };
    let mut s = String::new();
    if value.raw < 0 {
        push_char(&mut s, '-');
    }
    push_decimal(&mut s, h / 100);
    push_char(&mut s, '.');
    push_char(&mut s, digit_char((h / 10 % 10) as u8));
    push_char(&mut s, digit_char((h % 10) as u8));
    assert(s@ =~= two_decimals(value@));
    s
}

} // verus!
