use frame_relay::numeral::{format_natural, parse_natural, NumberError};
use frame_relay::rate::{get_fraction, FrameRate, RationalFrameRate};

fn rational(numerator: u32, denominator: u32) -> Option<RationalFrameRate> {
    Some(RationalFrameRate { numerator, denominator })
}

fn convert(text: &str) -> Option<RationalFrameRate> {
    get_fraction(FrameRate::parse(text).expect("a decimal number"))
}

#[test]
fn whole_rates_go_over_one() {
    for n in [0u32, 1, 24, 25, 30, 60, 120, 1000, u32::MAX] {
        assert_eq!(get_fraction(FrameRate::whole(n)), rational(n, 1));
    }
}

#[test]
fn whole_rate_written_with_zeros_behind_the_point() {
    assert_eq!(convert("30.0"), rational(30, 1));
    assert_eq!(convert("30.000"), rational(30, 1));
    assert_eq!(convert("30."), rational(30, 1));
    assert_eq!(convert("0.0"), rational(0, 1));
}

#[test]
fn broadcast_rates_come_from_the_table() {
    assert_eq!(convert("23.976"), rational(24000, 1001));
    assert_eq!(convert("29.97"), rational(30000, 1001));
    assert_eq!(convert("59.94"), rational(60000, 1001));
    assert_eq!(convert("119.88"), rational(120000, 1001));
}

#[test]
fn rates_near_a_table_entry_match_it() {
    assert_eq!(convert("29.9701"), rational(30000, 1001));
    assert_eq!(convert("29.9699"), rational(30000, 1001));
    assert_eq!(convert("23.9769999"), rational(24000, 1001));
    assert_eq!(convert("29.97000000000000001"), rational(30000, 1001));
}

#[test]
fn rates_a_thousandth_off_the_table_are_scaled() {
    assert_eq!(convert("29.971"), rational(29971, 1000));
    assert_eq!(convert("29.969"), rational(29969, 1000));
    assert_eq!(convert("23.975"), rational(23975, 1000));
}

#[test]
fn other_fractions_are_scaled_by_tens() {
    assert_eq!(convert("12.5"), rational(125, 10));
    assert_eq!(convert("12.50"), rational(125, 10));
    assert_eq!(convert("0.25"), rational(25, 100));
    assert_eq!(convert(".5"), rational(5, 10));
    assert_eq!(convert("7.125"), rational(7125, 1000));
    assert_eq!(convert("0.000000001"), rational(1, 1_000_000_000));
}

#[test]
fn rates_that_do_not_fit_are_refused() {
    assert_eq!(convert("4294967296"), None);
    assert_eq!(convert("0.0000000001"), None);
    assert_eq!(convert("429496729.75"), None);
    assert_eq!(convert("4294967295"), rational(u32::MAX, 1));
    assert_eq!(convert("0.00000000000000000001"), None);
}

#[test]
fn frame_rate_keeps_every_digit() {
    assert_eq!(FrameRate::parse("29.97"), Ok(FrameRate { digits: 2997, scale: 2 }));
    assert_eq!(FrameRate::parse("+12.50"), Ok(FrameRate { digits: 1250, scale: 2 }));
    assert_eq!(FrameRate::parse("30"), Ok(FrameRate { digits: 30, scale: 0 }));
    assert_eq!(FrameRate::parse("5."), Ok(FrameRate { digits: 5, scale: 0 }));
    assert_eq!(FrameRate::parse(".5"), Ok(FrameRate { digits: 5, scale: 1 }));
    assert_eq!(FrameRate::parse("007.10"), Ok(FrameRate { digits: 710, scale: 2 }));
}

#[test]
fn frame_rate_refuses_what_is_no_decimal() {
    for text in ["", "+", ".", "+.", "-5", "1e3", "1.2.3", " 30", "30 ", "3O", "inf", "nan", "１２", "1,5", "++1"] {
        assert_eq!(FrameRate::parse(text), Err(NumberError::Malformed), "{text:?}");
    }
}

#[test]
fn frame_rate_refuses_digits_beyond_its_range() {
    assert_eq!(
        FrameRate::parse("18446744073709551615"),
        Ok(FrameRate { digits: u64::MAX, scale: 0 })
    );
    assert_eq!(FrameRate::parse("18446744073709551616"), Err(NumberError::TooLarge));
    assert_eq!(FrameRate::parse("1.8446744073709551616"), Err(NumberError::TooLarge));
    assert_eq!(FrameRate::parse("99999999999999999999999.x"), Err(NumberError::Malformed));
}

#[test]
fn naturals_are_read() {
    assert_eq!(parse_natural("640", u64::MAX), Ok(640));
    assert_eq!(parse_natural("+480", u64::MAX), Ok(480));
    assert_eq!(parse_natural("000", u64::MAX), Ok(0));
    assert_eq!(parse_natural("255", 255), Ok(255));
    assert_eq!(parse_natural("256", 255), Err(NumberError::TooLarge));
    assert_eq!(parse_natural("99999999999999999999999999", u64::MAX), Err(NumberError::TooLarge));
    for text in ["", "+", "-1", "1.0", "12a", "a12", " 1", "1 ", "1_000", "+-1"] {
        assert_eq!(parse_natural(text, u64::MAX), Err(NumberError::Malformed), "{text:?}");
    }
    assert_eq!(parse_natural("99999999999999999999999999x", u64::MAX), Err(NumberError::Malformed));
}

#[test]
fn naturals_are_written_and_read_back() {
    assert_eq!(format_natural(0), "0");
    assert_eq!(format_natural(7), "7");
    assert_eq!(format_natural(10), "10");
    assert_eq!(format_natural(1001), "1001");
    assert_eq!(format_natural(u64::MAX), "18446744073709551615");
    for n in [0u64, 9, 10, 99, 100, 12345, u64::MAX] {
        assert_eq!(parse_natural(&format_natural(n), u64::MAX), Ok(n));
    }
}

#[test]
fn rational_stays_within_two_thousandths_of_the_rate() {
    for text in [
        "0", "1", "23.976", "23.9765", "23.9755", "29.97", "29.9709", "59.94", "59.9391",
        "119.88", "119.8809", "12.5", "0.001", "99.999", "7.5", "1000.25", "4294967295",
    ] {
        let rate = FrameRate::parse(text).unwrap();
        let q = get_fraction(rate).unwrap();
        assert!(q.denominator >= 1, "{text}");
        let value = rate.digits as f64 / 10f64.powi(rate.scale as i32);
        let ratio = q.numerator as f64 / q.denominator as f64;
        assert!((value - ratio).abs() < 0.002, "{text}: {ratio}");
    }
}

#[test]
fn scaled_rational_is_exact_and_unreduced() {
    for (text, numerator, denominator) in [
        ("12.5", 125u32, 10u32),
        ("2.50", 25, 10),
        ("0.5", 5, 10),
        ("0.05", 5, 100),
        ("1.25", 125, 100),
        ("100.001", 100001, 1000),
    ] {
        assert_eq!(convert(text), rational(numerator, denominator), "{text}");
    }
}
