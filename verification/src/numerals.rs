//! Integers as text: plain decimal, and decimal with thousands separators.

use vstd::prelude::*;
use num_format::{Locale, ToFormattedString};

verus! {

/// The decimal digit `d` as a character.
pub open spec fn digit_char(d: nat) -> char
    recommends
        d < 10,
{
    ((48 + d) as u8) as char
}

/// `n` written in decimal, without sign or leading zeros.
pub open spec fn decimal(n: nat) -> Seq<char>
    decreases n,
{
    if n < 10 {
        seq![digit_char(n)]
    } else {
        decimal(n / 10).push(digit_char(n % 10))
    }
}

/// `n` below 1000 written with exactly three digits.
pub open spec fn three_digits(n: nat) -> Seq<char>
    recommends
        n < 1000,
{
    seq![digit_char(n / 100), digit_char((n / 10) % 10), digit_char(n % 10)]
}

/// `n` written in decimal with a comma between groups of three digits,
/// counted from the right: `1,234,567`.
pub open spec fn grouped(n: nat) -> Seq<char>
    decreases n,
{
    if n < 1000 {
        decimal(n)
    } else {
        grouped(n / 1000) + seq![','] + three_digits(n % 1000)
    }
}

/// Writes `n` as std displays an unsigned integer (`to_string`): in decimal
/// digits, without sign, padding or leading zeros.
#[verifier::external_body]
pub(crate) fn decimal_string(n: usize) -> (text: String)
    ensures
        text@ == decimal(n as nat),
{
    n.to_string()
}

/// Writes `n` with `to_formatted_string` of num-format in the locale `en`:
/// decimal digits in groups of three, counted from the right, with `,`
/// between the groups.
#[verifier::external_body]
pub(crate) fn grouped_string(n: u128) -> (text: String)
    ensures
        text@ == grouped(n as nat),
{
    n.to_formatted_string(&Locale::en)
}

} // verus!
