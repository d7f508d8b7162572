use image_processor::text::{format_decimal, format_signed_decimal, parse_trimmed_int_saturating};

#[test]
fn parses_integers() {
    assert_eq!(parse_trimmed_int_saturating("0"), Some(0));
    assert_eq!(parse_trimmed_int_saturating("255"), Some(255));
    assert_eq!(parse_trimmed_int_saturating(" \t+17 \r\n"), Some(17));
    assert_eq!(parse_trimmed_int_saturating("-42"), Some(-42));
    assert_eq!(parse_trimmed_int_saturating("-0"), Some(0));
    assert_eq!(parse_trimmed_int_saturating("000000000000000000042"), Some(42));
    assert_eq!(parse_trimmed_int_saturating("2147483647"), Some(i32::MAX));
    assert_eq!(parse_trimmed_int_saturating("-2147483648"), Some(i32::MIN));
}

#[test]
fn saturates_out_of_range_integers() {
    assert_eq!(parse_trimmed_int_saturating("2147483648"), Some(i32::MAX));
    assert_eq!(parse_trimmed_int_saturating("-2147483649"), Some(i32::MIN));
    assert_eq!(parse_trimmed_int_saturating("99999999999999999999"), Some(i32::MAX));
    assert_eq!(parse_trimmed_int_saturating("-99999999999999999999"), Some(i32::MIN));
}

#[test]
fn rejects_non_integers() {
    assert_eq!(parse_trimmed_int_saturating(""), None);
    assert_eq!(parse_trimmed_int_saturating("   "), None);
    assert_eq!(parse_trimmed_int_saturating("+"), None);
    assert_eq!(parse_trimmed_int_saturating("-"), None);
    assert_eq!(parse_trimmed_int_saturating("++1"), None);
    assert_eq!(parse_trimmed_int_saturating("-+1"), None);
    assert_eq!(parse_trimmed_int_saturating("1x"), None);
    assert_eq!(parse_trimmed_int_saturating("1 2"), None);
    assert_eq!(parse_trimmed_int_saturating("١"), None);
}

#[test]
fn parsing_agrees_with_std_in_range() {
    for s in ["7", " 8 ", "+9", "-300", "x", "", " ", "\u{2003}12\u{2003}", "0012", "-0", "--1"] {
        assert_eq!(parse_trimmed_int_saturating(s), s.trim().parse::<i32>().ok(), "{:?}", s);
    }
}

#[test]
fn formats_decimals() {
    assert_eq!(format_decimal(0), "0");
    assert_eq!(format_decimal(7), "7");
    assert_eq!(format_decimal(10), "10");
    assert_eq!(format_decimal(1234567890), "1234567890");
    assert_eq!(format_decimal(u64::MAX), u64::MAX.to_string());
    assert_eq!(format_signed_decimal(0), "0");
    assert_eq!(format_signed_decimal(-15), "-15");
    assert_eq!(format_signed_decimal(i32::MAX), "2147483647");
}
