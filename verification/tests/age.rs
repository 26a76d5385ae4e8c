use minigrep::age::parse_age;
use minigrep::number::{parse_u8, ParseFailure};

#[test]
fn ages_up_to_150() {
    assert_eq!(parse_age("25"), Ok(25));
    assert_eq!(parse_age("0"), Ok(0));
    assert_eq!(parse_age("150"), Ok(150));
    assert_eq!(parse_age("+42"), Ok(42));
    assert_eq!(parse_age("007"), Ok(7));
}

#[test]
fn ages_beyond_150_are_not_believed() {
    assert_eq!(
        parse_age("200"),
        Err(String::from("年齢 200 は現実的ではありません"))
    );
    assert_eq!(
        parse_age("151"),
        Err(String::from("年齢 151 は現実的ではありません"))
    );
    assert_eq!(
        parse_age("255"),
        Err(String::from("年齢 255 は現実的ではありません"))
    );
}

#[test]
fn what_is_no_number_is_reported() {
    assert_eq!(
        parse_age("abc"),
        Err(String::from("年齢のパースに失敗: invalid digit found in string"))
    );
    assert_eq!(
        parse_age(""),
        Err(String::from(
            "年齢のパースに失敗: cannot parse integer from empty string"
        ))
    );
    assert_eq!(
        parse_age("256"),
        Err(String::from(
            "年齢のパースに失敗: number too large to fit in target type"
        ))
    );
}

#[test]
fn messages_are_those_of_the_standard_library() {
    for input in ["", "abc", "256", "+", "-1", "9999", " 5"] {
        let expected = format!("年齢のパースに失敗: {}", input.parse::<u8>().unwrap_err());
        assert_eq!(parse_age(input), Err(expected));
    }
}

#[test]
fn parse_failures_by_kind() {
    assert_eq!(parse_u8(""), Err(ParseFailure::Empty));
    assert_eq!(parse_u8("+"), Err(ParseFailure::InvalidDigit));
    assert_eq!(parse_u8("-"), Err(ParseFailure::InvalidDigit));
    assert_eq!(parse_u8("12a"), Err(ParseFailure::InvalidDigit));
    assert_eq!(parse_u8("256"), Err(ParseFailure::TooLarge));
    assert_eq!(parse_u8("999x"), Err(ParseFailure::TooLarge));
    assert_eq!(parse_u8("26x"), Err(ParseFailure::InvalidDigit));
    assert_eq!(parse_u8("255"), Ok(255));
}

#[test]
fn parse_u8_agrees_with_the_standard_library() {
    let samples = [
        "", "+", "-", "0", "+0", "-0", "00", "000255", "0000256", "255", "256", "260", "300",
        "999", "1000", "25x", "26x", "2x6", "999x", "x999", "+255", "+256", "++1", "+-1", "1+",
        " 1", "1 ", "１２", "٣", "12.5", "1e2", "0x10", "99999999999999999999",
    ];
    for sample in samples {
        let expected = match sample.parse::<u8>() {
            Ok(value) => Ok(value),
            Err(error) => Err(match error.kind() {
                std::num::IntErrorKind::Empty => ParseFailure::Empty,
                std::num::IntErrorKind::InvalidDigit => ParseFailure::InvalidDigit,
                _ => ParseFailure::TooLarge,
            }),
        };
        assert_eq!(parse_u8(sample), expected, "on {:?}", sample);
    }
}

#[test]
fn every_byte_value_reads_back() {
    for value in 0..=255u8 {
        assert_eq!(parse_u8(&value.to_string()), Ok(value));
        let expected = if value > 150 {
            Err(format!("年齢 {} は現実的ではありません", value))
        } else {
            Ok(value)
        };
        assert_eq!(parse_age(&value.to_string()), expected);
    }
}
