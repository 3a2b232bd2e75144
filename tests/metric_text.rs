use netoptim::metric_text::{parse_metric, parse_percent, MetricError};

#[test]
fn reads_decimals_in_thousandths() {
    assert_eq!(parse_metric("45.2"), Ok(Some(45_200)));
    assert_eq!(parse_metric("  12 "), Ok(Some(12_000)));
    assert_eq!(parse_metric("0"), Ok(Some(0)));
    assert_eq!(parse_metric("5."), Ok(Some(5_000)));
    assert_eq!(parse_metric(".5"), Ok(Some(500)));
    assert_eq!(parse_metric("0.05"), Ok(Some(50)));
    assert_eq!(parse_metric("1.23400"), Ok(Some(1_234)));
    assert_eq!(parse_metric("\t150.001\n"), Ok(Some(150_001)));
    assert_eq!(parse_metric("+2"), Ok(Some(2_000)));
}

#[test]
fn reads_exponents() {
    assert_eq!(parse_metric("1e3"), Ok(Some(1_000_000)));
    assert_eq!(parse_metric("2.5E-1"), Ok(Some(250)));
    assert_eq!(parse_metric("1e-3"), Ok(Some(1)));
    assert_eq!(parse_metric("+4.2e+1"), Ok(Some(42_000)));
    assert_eq!(parse_metric("0e999999999999999999999999"), Ok(Some(0)));
    assert_eq!(parse_metric("1.8446744073709551615e16"), Ok(Some(u64::MAX)));
}

#[test]
fn digits_past_thousandths_are_too_precise() {
    assert_eq!(parse_metric("1.23456"), Err(MetricError::TooPrecise));
    assert_eq!(parse_metric("5.0004"), Err(MetricError::TooPrecise));
    assert_eq!(parse_metric("1e-4"), Err(MetricError::TooPrecise));
    assert_eq!(parse_metric("1e-99999999999999999999999"), Err(MetricError::TooPrecise));
    assert_eq!(parse_metric("0.0000"), Ok(Some(0)));
}

#[test]
fn unknown_tokens_are_no_value() {
    for s in ["", "   ", "n/a", "N/A", "Unknown", "NULL", " null ", "\u{c}", "\u{b}n/a\u{85}", "\u{a0}unknown\u{3000}"] {
        assert_eq!(parse_metric(s), Ok(None), "{s:?}");
        assert_eq!(parse_percent(s), Ok(None), "{s:?}");
    }
}

#[test]
fn malformed_numbers_are_rejected() {
    for s in ["abc", ".", "-1", "1.2.3", "4 5", "n/a x", "e5", "1e", "1e+", "1e-2.5", "inf", "NaN", "++1"] {
        assert_eq!(parse_metric(s), Err(MetricError::NotANumber), "{s:?}");
    }
}

#[test]
fn values_past_u64_are_too_large() {
    assert_eq!(parse_metric("18446744073709551.615"), Ok(Some(u64::MAX)));
    assert_eq!(parse_metric("18446744073709551.616"), Err(MetricError::TooLarge));
    assert_eq!(parse_metric("99999999999999999999999"), Err(MetricError::TooLarge));
    assert_eq!(parse_metric("1e999999999999999999999999"), Err(MetricError::TooLarge));
    assert_eq!(parse_metric("1e17"), Err(MetricError::TooLarge));
}

#[test]
fn percentages_drop_the_sign() {
    assert_eq!(parse_percent("85%"), Ok(Some(85_000)));
    assert_eq!(parse_percent(" 31 % "), Ok(Some(31_000)));
    assert_eq!(parse_percent("72.5"), Ok(Some(72_500)));
    assert_eq!(parse_percent("%"), Ok(None));
    assert_eq!(parse_percent("n/a"), Ok(None));
    assert_eq!(parse_percent("abc%"), Err(MetricError::NotANumber));
    assert_eq!(parse_metric("85%"), Err(MetricError::NotANumber));
}
