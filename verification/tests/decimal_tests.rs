use trade_zones::decimal::{format_price, parse_price, parse_price_or_zero};

#[test]
fn parses_whole_and_fractional_prices() {
    assert_eq!(parse_price("0.0"), Some(0));
    assert_eq!(parse_price("1"), Some(100_000_000));
    assert_eq!(parse_price("43250.10"), Some(4_325_010_000_000));
    assert_eq!(parse_price("0.00000001"), Some(1));
    assert_eq!(parse_price("007.5"), Some(750_000_000));
}

#[test]
fn rounds_at_the_ninth_fractional_digit() {
    assert_eq!(parse_price("1.234567899"), Some(123_456_790));
    assert_eq!(parse_price("1.234567894"), Some(123_456_789));
    assert_eq!(parse_price("1.234567895"), Some(123_456_790));
    assert_eq!(parse_price("1.2345678949999"), Some(123_456_789));
    assert_eq!(parse_price("0.000000009"), Some(1));
    assert_eq!(parse_price("0.000000005"), Some(1));
    assert_eq!(parse_price("0.000000004"), Some(0));
    assert_eq!(parse_price("0.999999995"), Some(100_000_000));
    assert_eq!(parse_price("4.5"), Some(450_000_000));
}

#[test]
fn rounding_beyond_sixty_four_bits_has_no_value() {
    assert_eq!(parse_price("184467440737.095516154"), Some(u64::MAX));
    assert_eq!(parse_price("184467440737.095516155"), None);
    assert_eq!(parse_price("184467440737.095516149"), Some(u64::MAX));
    assert_eq!(parse_price("184467440737.095516144"), Some(u64::MAX - 1));
}

#[test]
fn rejects_text_outside_the_grammar() {
    assert_eq!(parse_price(""), None);
    assert_eq!(parse_price("."), None);
    assert_eq!(parse_price(".5"), None);
    assert_eq!(parse_price("5."), None);
    assert_eq!(parse_price("-1.0"), None);
    assert_eq!(parse_price("1e5"), None);
    assert_eq!(parse_price("1.2.3"), None);
    assert_eq!(parse_price("12a"), None);
    assert_eq!(parse_price("1,5"), None);
    assert_eq!(parse_price("１"), None);
    assert_eq!(parse_price("NaN"), None);
}

#[test]
fn rejects_prices_beyond_sixty_four_bits() {
    assert_eq!(parse_price("184467440737.09551615"), Some(u64::MAX));
    assert_eq!(parse_price("184467440737.09551616"), None);
    assert_eq!(parse_price("999999999999999999999"), None);
}

#[test]
fn text_without_a_value_counts_as_zero() {
    assert_eq!(parse_price_or_zero("abc"), 0);
    assert_eq!(parse_price_or_zero("2.5"), 250_000_000);
}

#[test]
fn writes_eight_fractional_digits() {
    assert_eq!(format_price(0), "0.00000000");
    assert_eq!(format_price(1), "0.00000001");
    assert_eq!(format_price(100_000_000), "1.00000000");
    assert_eq!(format_price(4_325_010_000_000), "43250.10000000");
    assert_eq!(format_price(u64::MAX), "184467440737.09551615");
}

#[test]
fn written_prices_read_back() {
    for v in [0u64, 1, 99_999_999, 100_000_000, 123_456_789_012, u64::MAX] {
        assert_eq!(parse_price(&format_price(v)), Some(v));
    }
}

#[test]
fn texts_are_equal_character_by_character() {
    use_text_eq("", "", true);
    use_text_eq("BTCUSDT", "BTCUSDT", true);
    use_text_eq("BTCUSDT", "BTCUSD", false);
    use_text_eq("BTCUSDT", "BTCUSDC", false);
    use_text_eq("é", "e", false);
    use_text_eq("é", "é", true);
    use_text_eq("a", "", false);
}

fn use_text_eq(a: &str, b: &str, expected: bool) {
    assert_eq!(trade_zones::text::text_eq(a, b), expected, "{:?} {:?}", a, b);
}

#[test]
fn statuses_are_compared_with_the_absent_one() {
    let same = trade_zones::dto::same_status;
    let in7 = trade_zones::dto::TradeStatus::InZone7;
    let in3 = trade_zones::dto::TradeStatus::InZone3;
    assert!(same(None, None));
    assert!(same(Some(in7), Some(in7)));
    assert!(!same(Some(in7), Some(in3)));
    assert!(!same(Some(in7), None));
    assert!(!same(None, Some(in3)));
}

#[test]
fn json_strings_are_quoted_and_escaped() {
    let mut out = String::from("x=");
    trade_zones::encoding::push_json_string(&mut out, "a\"b");
    assert_eq!(out, "x=\"a\\\"b\"");
    let mut out = String::new();
    trade_zones::encoding::push_json_string(&mut out, "");
    assert_eq!(out, "\"\"");
    assert_eq!(trade_zones::encoding::bias_text(trade_zones::dto::Bias::Neutral), "None");
    assert_eq!(
        trade_zones::encoding::status_text(trade_zones::dto::TradeStatus::TargetShortZone1),
        "TargetShortZone1"
    );
}
