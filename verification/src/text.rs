//! The few pieces of text that the library writes: numbers in decimal.

use vstd::prelude::*;
use vstd::string::StringExecFns;

verus! {

/// The character of a digit below ten.
pub open spec fn digit(d: nat) -> char
    recommends
        d < 10,
{
    if d == 0 {
        '0'
    } else if d == 1 {
        '1'
    } else if d == 2 {
        '2'
    } else if d == 3 {
        '3'
    } else if d == 4 {
        '4'
    } else if d == 5 {
        '5'
    } else if d == 6 {
        '6'
    } else if d == 7 {
        '7'
    } else if d == 8 {
        '8'
    } else {
        '9'
    }
}

/// `n` written in decimal, without leading zeros.
pub open spec fn decimal(n: nat) -> Seq<char>
    decreases n,
{
    if n < 10 {
        seq![digit(n)]
    } else {
        decimal(n / 10).push(digit(n % 10))
    }
}

fn digit_text(d: usize) -> (text: &'static str)
    requires
        d < 10,
    ensures
        text@ == seq![digit(d as nat)],
{
    proof {
        reveal_strlit("0");
        reveal_strlit("1");
        reveal_strlit("2");
        reveal_strlit("3");
        reveal_strlit("4");
        reveal_strlit("5");
        reveal_strlit("6");
        reveal_strlit("7");
        reveal_strlit("8");
        reveal_strlit("9");
    }
    if d == 0 {
        "0"
    } else if d == 1 {
        "1"
    } else if d == 2 {
        "2"
    } else if d == 3 {
        "3"
    } else if d == 4 {
        "4"
    } else if d == 5 {
        "5"
    } else if d == 6 {
        "6"
    } else if d == 7 {
        "7"
    } else if d == 8 {
        "8"
    } else {
        "9"
    }
}

/// Writes `n` in decimal.
pub fn to_decimal(n: usize) -> (text: String)
    ensures
        text@ == decimal(n as nat),
    decreases n,
{
    if n < 10 {
        String::from_str(digit_text(n))
    } else {
        to_decimal(n / 10).concat(digit_text(n % 10))
    }
}

/// `label` followed by `n` in decimal.
pub open spec fn labelled(label: Seq<char>, n: nat) -> Seq<char> {
    label + decimal(n)
}

/// Writes `label` followed by `n` in decimal.
pub fn label_number(label: &str, n: usize) -> (text: String)
    ensures
        text@ == labelled(label@, n as nat),
{
    let digits = to_decimal(n);
    String::from_str(label).concat(digits.as_str())
}

/// `lead`, `first` in decimal, `middle`, and `second` in decimal.
pub open spec fn two_numbers(lead: Seq<char>, first: nat, middle: Seq<char>, second: nat) -> Seq<
    char,
> {
    lead + decimal(first) + middle + decimal(second)
}

/// Writes `lead`, `first` in decimal, `middle`, and `second` in decimal.
pub fn write_two_numbers(lead: &str, first: usize, middle: &str, second: usize) -> (text: String)
    ensures
        text@ == two_numbers(lead@, first as nat, middle@, second as nat),
{
    let first_digits = to_decimal(first);
    let second_digits = to_decimal(second);
    String::from_str(lead).concat(first_digits.as_str()).concat(middle).concat(
        second_digits.as_str(),
    )
}

} // verus!
