use anthropic_api_key_manager::amount::{
    digit, parse_cents, read_cents, CentsReading, MICROS_PER_CENT, MICROS_PER_DOLLAR,
};

#[test]
fn whole_cents_become_micro_dollars() {
    assert_eq!(parse_cents("250"), Some(2_500_000));
    assert_eq!(parse_cents("1"), Some(MICROS_PER_CENT));
    assert_eq!(parse_cents("100"), Some(MICROS_PER_DOLLAR));
}

#[test]
fn fractional_cents_keep_four_places() {
    assert_eq!(parse_cents("123.45"), Some(1_234_500));
    assert_eq!(parse_cents("0.0001"), Some(1));
    assert_eq!(parse_cents("0.5"), Some(5_000));
    assert_eq!(parse_cents("7.1234"), Some(71_234));
}

#[test]
fn digits_past_the_fourth_place_are_dropped() {
    assert_eq!(parse_cents("1.23456"), Some(12_345));
    assert_eq!(parse_cents("1.99999"), Some(19_999));
    assert_eq!(parse_cents("0.00009"), Some(0));
}

#[test]
fn zero_in_every_spelling_is_zero() {
    assert_eq!(parse_cents("0"), Some(0));
    assert_eq!(parse_cents("0.00"), Some(0));
    assert_eq!(parse_cents("000"), Some(0));
    assert_eq!(parse_cents("-0"), Some(0));
    assert_eq!(parse_cents(".0"), Some(0));
}

#[test]
fn a_sign_is_read() {
    assert_eq!(parse_cents("-5"), Some(-50_000));
    assert_eq!(parse_cents("+5"), Some(50_000));
    assert_eq!(parse_cents("-0.25"), Some(-2_500));
}

#[test]
fn a_point_may_stand_first_or_last() {
    assert_eq!(parse_cents("5."), Some(50_000));
    assert_eq!(parse_cents(".5"), Some(5_000));
}

#[test]
fn what_is_no_numeral_is_refused() {
    assert_eq!(parse_cents(""), None);
    assert_eq!(parse_cents("."), None);
    assert_eq!(parse_cents("-"), None);
    assert_eq!(parse_cents("+"), None);
    assert_eq!(parse_cents("abc"), None);
    assert_eq!(parse_cents("12a"), None);
    assert_eq!(parse_cents("1.2.3"), None);
    assert_eq!(parse_cents("1.2x"), None);
    assert_eq!(parse_cents("1.23456x"), None);
    assert_eq!(parse_cents("1e5"), None);
    assert_eq!(parse_cents(" 5"), None);
    assert_eq!(parse_cents("5 "), None);
    assert_eq!(parse_cents("--5"), None);
    assert_eq!(parse_cents("inf"), None);
    assert_eq!(parse_cents("NaN"), None);
}

#[test]
fn the_limits_of_sixty_four_bits_are_exact() {
    assert_eq!(parse_cents("922337203685477.5807"), Some(i64::MAX));
    assert_eq!(parse_cents("922337203685477.5808"), None);
    assert_eq!(parse_cents("-922337203685477.5808"), Some(i64::MIN));
    assert_eq!(parse_cents("-922337203685477.5809"), None);
    assert_eq!(parse_cents("922337203685478"), None);
    assert_eq!(parse_cents("99999999999999999999999999999999999999999999"), None);
    assert_eq!(parse_cents("99999999999999999999999999999999999999999999.5x"), None);
    assert_eq!(parse_cents("000000000000000000000000000000000000000000001"), Some(10_000));
}

#[test]
fn digits_have_their_values() {
    assert_eq!(digit('0'), Some(0));
    assert_eq!(digit('7'), Some(7));
    assert_eq!(digit('9'), Some(9));
    assert_eq!(digit('a'), None);
    assert_eq!(digit('.'), None);
    assert_eq!(digit('٣'), None);
}

#[test]
fn a_reading_tells_zero_from_less_than_a_micro_dollar() {
    assert_eq!(read_cents("0"), Some(CentsReading { micros: 0, is_zero: true }));
    assert_eq!(read_cents("0.0000"), Some(CentsReading { micros: 0, is_zero: true }));
    assert_eq!(read_cents("-000.000000000"), Some(CentsReading { micros: 0, is_zero: true }));
    assert_eq!(read_cents(".0"), Some(CentsReading { micros: 0, is_zero: true }));
    assert_eq!(read_cents("0.00001"), Some(CentsReading { micros: 0, is_zero: false }));
    assert_eq!(read_cents("-0.00009"), Some(CentsReading { micros: 0, is_zero: false }));
    assert_eq!(read_cents("0.000000000000000000001"), Some(CentsReading { micros: 0, is_zero: false }));
    assert_eq!(read_cents("250"), Some(CentsReading { micros: 2_500_000, is_zero: false }));
    assert_eq!(read_cents("0.0001"), Some(CentsReading { micros: 1, is_zero: false }));
    assert_eq!(read_cents("10"), Some(CentsReading { micros: 100_000, is_zero: false }));
}

#[test]
fn a_reading_refuses_what_parsing_refuses() {
    for text in ["", ".", "-", "abc", "1e5", "0.0x", "922337203685478", "0x"] {
        assert_eq!(read_cents(text), None);
        assert_eq!(parse_cents(text), None);
    }
    for text in ["0", "1.5", "-7.00001", "922337203685477.5807"] {
        assert_eq!(read_cents(text).map(|r| r.micros), parse_cents(text));
    }
}
