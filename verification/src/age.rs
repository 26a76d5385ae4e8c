//! Reading an age that a person typed in.

use vstd::prelude::*;
use vstd::string::StringExecFns;
use crate::number::{parse_u8, parse_u8_outcome, ParseFailure};

verus! {

/// The digit that stands for `d`, a number below ten.
pub open spec fn digit_char(d: nat) -> char
    recommends
        d < 10,
{
    if d == 0 {
        '0'
    } else if d == 1 {
        '1'
    } else if d == 2 {
        '2'
    } else if d == 3 {
        '3'
    } else if d == 4 {
        '4'
    } else if d == 5 {
        '5'
    } else if d == 6 {
        '6'
    } else if d == 7 {
        '7'
    } else if d == 8 {
        '8'
    } else {
        '9'
    }
}

/// The decimal numeral of `n`, without leading zeros.
pub open spec fn decimal_text(n: nat) -> Seq<char>
    decreases n,
{
    if n < 10 {
        seq![digit_char(n)]
    } else {
        decimal_text(n / 10).push(digit_char(n % 10))
    }
}

/// What is said of a text that is no number below 256.
pub open spec fn failure_text(failure: ParseFailure) -> Seq<char> {
    match failure {
        ParseFailure::Empty => "cannot parse integer from empty string"@,
        ParseFailure::InvalidDigit => "invalid digit found in string"@,
        ParseFailure::TooLarge => "number too large to fit in target type"@,
    }
}

/// The age that `input` gives, or the message that says why it gives none.
/// An age is a number up to 150.
pub open spec fn parse_age_outcome(input: Seq<char>) -> Result<u8, Seq<char>> {
    match parse_u8_outcome(input) {
        Ok(age) => if age > 150 {
            Err("年齢 "@ + decimal_text(age as nat) + " は現実的ではありません"@)
        } else {
            Ok(age)
        },
        Err(failure) => Err("年齢のパースに失敗: "@ + failure_text(failure)),
    }
}

/// The digit that stands for `d`.
fn digit_str(d: u8) -> (digit: &'static str)
    requires
        d < 10,
    ensures
        digit@ == seq![digit_char(d as nat)],
{
    proof {
        reveal_strlit("0");
        reveal_strlit("1");
        reveal_strlit("2");
        reveal_strlit("3");
        reveal_strlit("4");
        reveal_strlit("5");
        reveal_strlit("6");
        reveal_strlit("7");
        reveal_strlit("8");
        reveal_strlit("9");
    }
    let digit = if d == 0 {
        "0"
    } else if d == 1 {
        "1"
    } else if d == 2 {
        "2"
    } else if d == 3 {
        "3"
    } else if d == 4 {
        "4"
    } else if d == 5 {
        "5"
    } else if d == 6 {
        "6"
    } else if d == 7 {
        "7"
    } else if d == 8 {
        "8"
    } else {
        "9"
    };
    assert(digit@ =~= seq![digit_char(d as nat)]);
    digit
}

/// The decimal numeral of `n` at the end of `text`.
fn append_decimal(text: &mut String, n: u8)
    ensures
        final(text)@ == old(text)@ + decimal_text(n as nat),
{
    reveal_with_fuel(decimal_text, 3);
    if n >= 100 {
        text.append(digit_str(n / 100));
    }
    if n >= 10 {
        text.append(digit_str((n / 10) % 10));
    }
    text.append(digit_str(n % 10));
    assert(text@ =~= old(text)@ + decimal_text(n as nat));
}

/// The text that `failure` is reported with.
fn failure_str(failure: ParseFailure) -> (text: &'static str)
    ensures
        text@ == failure_text(failure),
{
    match failure {
        ParseFailure::Empty => "cannot parse integer from empty string",
        ParseFailure::InvalidDigit => "invalid digit found in string",
        ParseFailure::TooLarge => "number too large to fit in target type",
    }
}

/// The age that `input` gives: a number up to 150, written in digits, with
/// nothing around it but a plus sign in front. Any other input is answered
/// with a message that says what is wrong with it.
pub fn parse_age(input: &str) -> (age: Result<u8, String>)
    ensures
        match age {
            Ok(years) => parse_age_outcome(input@) == Ok::<u8, Seq<char>>(years),
            Err(message) => parse_age_outcome(input@) == Err::<u8, Seq<char>>(message@),
        },
{
    match parse_u8(input) {
        Ok(years) => {
            if years > 150 {
                let mut message = String::from_str("年齢 ");
                append_decimal(&mut message, years);
                message.append(" は現実的ではありません");
                Err(message)
            } else {
                Ok(years)
            }
        },
        Err(failure) => {
            let mut message = String::from_str("年齢のパースに失敗: ");
            message.append(failure_str(failure));
            Err(message)
        },
    }
}

} // verus!
