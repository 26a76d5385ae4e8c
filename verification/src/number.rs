//! Reading a small number written in decimal digits.

use vstd::prelude::*;

verus! {

/// Why a text is not the decimal form of a number that fits in a byte.
#[derive(Debug, PartialEq, Eq, Clone, Copy)]
pub enum ParseFailure {
    /// The text is empty.
    Empty,
    /// The text holds something that is not a digit, or no digit at all.
    InvalidDigit,
    /// The number is greater than 255.
    TooLarge,
}

/// Whether `c` is one of the digits `0` to `9`.
pub open spec fn is_digit(c: char) -> bool {
    '0' <= c && c <= '9'
}

/// The number that the digit `c` stands for.
pub open spec fn digit_value(c: char) -> nat
    recommends
        is_digit(c),
{
    (c as u32 - '0' as u32) as nat
}

/// The number that `digits`, read as a decimal numeral, stands for.
pub open spec fn decimal_value(digits: Seq<char>) -> nat
    decreases digits.len(),
{
    if digits.len() == 0 {
        0
    } else {
        decimal_value(digits.drop_last()) * 10 + digit_value(digits.last())
    }
}

/// Number of digits at the start of `text`.
pub open spec fn digit_run(text: Seq<char>) -> nat
    decreases text.len(),
{
    if text.len() == 0 || !is_digit(text[0]) {
        0
    } else {
        1 + digit_run(text.drop_first())
    }
}

/// `text` without the plus sign that it may start with.
pub open spec fn unsigned_part(text: Seq<char>) -> Seq<char> {
    if text.len() > 0 && text[0] == '+' {
        text.drop_first()
    } else {
        text
    }
}

/// What reading `text` as a number below 256 comes to. The text is an
/// optional plus sign followed by digits, and nothing else. Reading goes from
/// left to right and stops at the first fault: a number that has grown beyond
/// 255 is reported in front of a character that follows it and is no digit.
pub open spec fn parse_u8_outcome(text: Seq<char>) -> Result<u8, ParseFailure> {
    let digits = unsigned_part(text);
    let leading = digits.take(digit_run(digits) as int);
    if text.len() == 0 {
        Err(ParseFailure::Empty)
    } else if decimal_value(leading) > 255 {
        Err(ParseFailure::TooLarge)
    } else if digits.len() == 0 || digit_run(digits) < digits.len() {
        Err(ParseFailure::InvalidDigit)
    } else {
        Ok(decimal_value(digits) as u8)
    }
}

/// `digit_run` is the position of the first character that is no digit, or
/// the length of the text where all are digits.
pub proof fn lemma_digit_run(text: Seq<char>)
    ensures
        digit_run(text) <= text.len(),
        forall|j: int| 0 <= j < digit_run(text) ==> is_digit(text[j]),
        digit_run(text) < text.len() ==> !is_digit(text[digit_run(text) as int]),
    decreases text.len(),
{
    if !(text.len() == 0 || !is_digit(text[0])) {
        let rest = text.drop_first();
        lemma_digit_run(rest);
        assert forall|j: int| 0 <= j < digit_run(text) implies is_digit(text[j]) by {
            if j > 0 {
                assert(text[j] == rest[j - 1]);
            }
        }
    }
}

/// A numeral is worth no less than any numeral that it starts with.
pub proof fn lemma_decimal_value_grows(digits: Seq<char>, n: int)
    requires
        0 <= n <= digits.len(),
    ensures
        decimal_value(digits.take(n)) <= decimal_value(digits),
    decreases digits.len(),
{
    if n < digits.len() {
        let init = digits.drop_last();
        lemma_decimal_value_grows(init, n);
        assert(init.take(n) =~= digits.take(n));
        assert(decimal_value(init) <= decimal_value(init) * 10) by (nonlinear_arith);
    } else {
        assert(digits.take(n) =~= digits);
    }
}

/// The number below 256 that `text` is the decimal form of.
pub fn parse_u8(text: &str) -> (parsed: Result<u8, ParseFailure>)
    ensures
        parsed == parse_u8_outcome(text@),
{
    let ghost digits = unsigned_part(text@);
    let ghost signed = text@.len() > 0 && text@[0] == '+';
    let mut value: u8 = 0;
    let mut at_start = true;
    let mut any_digit = false;
    proof {
        assert(digits.take(0) =~= Seq::<char>::empty());
    }
    for c in it: text.chars()
        invariant
            it.seq() == text@,
            digits == unsigned_part(text@),
            signed == (text@.len() > 0 && text@[0] == '+'),
            at_start == (it.index() == 0),
            any_digit == (it.index() > (if signed { 1int } else { 0int })),
            !at_start ==> {
                let n = it.index() - (if signed { 1int } else { 0int });
                &&& 0 <= n <= digits.len()
                &&& forall|j: int| 0 <= j < n ==> is_digit(digits[j])
                &&& value == decimal_value(digits.take(n))
            },
            at_start ==> value == 0,
    {
        let ghost n = it.index() - (if signed { 1int } else { 0int });
        if at_start && c == '+' {
            at_start = false;
        } else {
            proof {
                assert(text@[it.index()] == c);
                assert(0 <= n < digits.len() && digits[n] == c);
                assert(value == decimal_value(digits.take(n))) by {
                    if at_start {
                        assert(digits.take(0) =~= Seq::<char>::empty());
                    }
                }
            }
            at_start = false;
            if !('0' <= c && c <= '9') {
                proof {
                    lemma_digit_run(digits);
                    assert(digit_run(digits) == n);
                }
                return Err(ParseFailure::InvalidDigit);
            }
            let d: u8 = (c as u32 - '0' as u32) as u8;
            proof {
                assert(digits.take(n + 1).drop_last() =~= digits.take(n));
                assert(digits.take(n + 1).last() == c);
                assert(decimal_value(digits.take(n + 1)) == value * 10 + d);
            }
            if value > 25 || (value == 25 && d > 5) {
                proof {
                    lemma_digit_run(digits);
                    let k = digit_run(digits) as int;
                    assert(k >= n + 1) by {
                        if k < n + 1 {
                            assert(is_digit(digits[k]));
                        }
                    }
                    lemma_decimal_value_grows(digits.take(k), n + 1);
                    assert(digits.take(k).take(n + 1) =~= digits.take(n + 1));
                }
                return Err(ParseFailure::TooLarge);
            }
            value = value * 10 + d;
            any_digit = true;
        }
    }
    proof {
        lemma_digit_run(digits);
        if text@.len() > 0 && digits.len() > 0 {
            let k = digit_run(digits) as int;
            assert(k == digits.len()) by {
                if k < digits.len() {
                    assert(is_digit(digits[k]));
                }
            }
            assert(digits.take(k) =~= digits);
        }
        if digits.len() == 0 {
            assert(digits.take(0) =~= Seq::<char>::empty());
        }
    }
    if at_start {
        Err(ParseFailure::Empty)
    } else if !any_digit {
        Err(ParseFailure::InvalidDigit)
    } else {
        Ok(value)
    }
}

} // verus!
