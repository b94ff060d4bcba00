use aviutl2_track::get_precision;
use aviutl2_track::number::{bits_eq, parse_u32, trim_fixed_point, ONE_BITS, QUARTER_BITS, ZERO_BITS};
use aviutl2_track::text::split;

#[test]
fn precision_counts_digits_after_the_point() {
    assert_eq!(get_precision("42.00"), 2);
    assert_eq!(get_precision("42"), 0);
    assert_eq!(get_precision("42."), 0);
    assert_eq!(get_precision(".5"), 1);
    assert_eq!(get_precision(""), 0);
}

#[test]
fn precision_counts_bytes_after_the_first_point() {
    assert_eq!(get_precision("1.2.3"), 3);
    assert_eq!(get_precision("1.あ"), 3);
    assert_eq!(get_precision("あ.1"), 1);
}

#[test]
fn split_keeps_empty_pieces() {
    assert_eq!(split("a|b", '|'), vec!["a", "b"]);
    assert_eq!(split("", '|'), vec![""]);
    assert_eq!(split("|a|", '|'), vec!["", "a", ""]);
    assert_eq!(split("abc", '|'), vec!["abc"]);
}

#[test]
fn parse_u32_reads_plain_decimal() {
    assert_eq!(parse_u32("0"), Some(0));
    assert_eq!(parse_u32("8"), Some(8));
    assert_eq!(parse_u32("+12"), Some(12));
    assert_eq!(parse_u32("007"), Some(7));
    assert_eq!(parse_u32("4294967295"), Some(u32::MAX));
}

#[test]
fn parse_u32_rejects_what_u32_rejects() {
    for s in ["", "+", "-1", "-0", "1a", " 1", "4294967296", "99999999999999999999", "++1"] {
        assert_eq!(parse_u32(s), None, "{s}");
        assert!(s.parse::<u32>().is_err(), "{s}");
    }
}

#[test]
fn trim_fixed_point_gives_the_shortest_text() {
    assert_eq!(trim_fixed_point("1.200000"), "1.2");
    assert_eq!(trim_fixed_point("1.234568"), "1.234568");
    assert_eq!(trim_fixed_point("100.000000"), "100");
    assert_eq!(trim_fixed_point("0.000000"), "0");
    assert_eq!(trim_fixed_point("-0.000000"), "0");
    assert_eq!(trim_fixed_point("-0.500000"), "-0.5");
    assert_eq!(trim_fixed_point("360.000000"), "360");
}

#[test]
fn bits_eq_is_binary64_equality() {
    let values = [0.0f64, -0.0, 1.0, 0.25, -1.5, f64::NAN, f64::INFINITY, f64::NEG_INFINITY];
    for a in values {
        for b in values {
            assert_eq!(bits_eq(a.to_bits(), b.to_bits()), a == b, "{a} {b}");
        }
    }
}

#[test]
fn default_point_bits() {
    assert_eq!(ZERO_BITS, 0.0f64.to_bits());
    assert_eq!(ONE_BITS, 1.0f64.to_bits());
    assert_eq!(QUARTER_BITS, 0.25f64.to_bits());
}

#[test]
fn precision_of_text_followed_by_more() {
    assert_eq!(get_precision("1.25"), 2);
    assert_eq!(get_precision("1.25abc"), 2 + "abc".len());
    assert_eq!(get_precision("1.25あ"), 2 + "あ".len());
    assert_eq!(get_precision(&("12".to_string() + "3.5")), get_precision("3.5"));
}
