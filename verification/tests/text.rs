use peppi::text::{compare_keys, format_decimal, parse_u8, str_eq, KeyOrder};

#[test]
fn parse_u8_as_std() {
    for s in ["0", "1", "+1", "01", "255", "0000255", "256", "", "+", "-1", "-0", " 1", "1 ", "1a", "٣"] {
        assert_eq!(parse_u8(s), s.parse::<u8>().ok(), "{}", s);
    }
}

#[test]
fn parse_u8_values() {
    assert_eq!(parse_u8("+17"), Some(17));
    assert_eq!(parse_u8("007"), Some(7));
    assert_eq!(parse_u8("1000"), None);
}

#[test]
fn format_decimal_as_std() {
    for n in [0u64, 7, 10, 99, 255, 1000, 4294967295, u64::MAX] {
        assert_eq!(format_decimal(n), n.to_string());
    }
}

#[test]
fn decimal_round_trip() {
    for n in 0..=255u8 {
        assert_eq!(parse_u8(&format_decimal(n as u64)), Some(n));
    }
}

#[test]
fn str_eq_compares_characters() {
    assert!(str_eq("abc", "abc"));
    assert!(!str_eq("abc", "abd"));
    assert!(!str_eq("abc", "ab"));
    assert!(str_eq("", ""));
}

#[test]
fn compare_keys_as_string_order() {
    let words = ["", "a", "ab", "b", "+1", "01", "1", "é", "z", "startAt", "players"];
    for x in words {
        for y in words {
            let expected = if x.to_string() < y.to_string() {
                KeyOrder::Less
            } else if x == y {
                KeyOrder::Equal
            } else {
                KeyOrder::Greater
            };
            assert_eq!(compare_keys(x, y), expected, "{} {}", x, y);
        }
    }
}
