use lighter_bot::text::{
    append, chars_of, cut_at, is_white_space, parse_i64, parse_usize, same_ignoring_case, string_of,
    strip_suffixes, to_decimal, to_lower, to_upper, trim,
};

fn trimmed(s: &str) -> String {
    string_of(&trim(&chars_of(s)))
}

#[test]
fn white_space_is_that_of_unicode() {
    for u in 0..0x11_0000u32 {
        if let Some(c) = char::from_u32(u) {
            assert_eq!(is_white_space(c), c.is_whitespace(), "{u:x}");
        }
    }
}

#[test]
fn trimming_and_case_are_those_of_strings() {
    for s in ["", " ", " a b ", "\u{3000}x\t", "Grüße ", "ABCxyz[]@`{}"] {
        assert_eq!(trimmed(s), s.trim());
        assert_eq!(string_of(&to_lower(&chars_of(s))), s.to_ascii_lowercase());
        assert_eq!(string_of(&to_upper(&chars_of(s))), s.to_ascii_uppercase());
    }
    assert!(same_ignoring_case("PeRp", "pErP"));
    assert!(!same_ignoring_case("perp", "perps"));
}

#[test]
fn integers_read_like_the_machine() {
    for s in [
        "0", "-0", "+5", "-5", "9223372036854775807", "9223372036854775808", "-9223372036854775808",
        "-9223372036854775809", "18446744073709551615", "18446744073709551616", "", "-", "+", "1 ", "12a",
    ] {
        assert_eq!(parse_i64(&chars_of(s)), s.parse::<i64>().ok(), "{s}");
        assert_eq!(parse_usize(&chars_of(s)), s.parse::<usize>().ok(), "{s}");
    }
}

#[test]
fn decimal_digits_are_those_of_the_number() {
    for n in [0u32, 7, 10, 42, 1_000_000, u32::MAX] {
        assert_eq!(string_of(&to_decimal(n as u128)), n.to_string());
    }
}

#[test]
fn suffixes_go_as_often_as_they_occur() {
    for s in ["BTCUSDT", "USDTUSDT", "BTC", "USDTX", ""] {
        assert_eq!(
            string_of(&strip_suffixes(&chars_of(s), &chars_of("USDT"))),
            s.trim_end_matches("USDT")
        );
    }
}

#[test]
fn appending_and_cutting_respect_characters() {
    let mut s = string_of(&chars_of("aé"));
    append(&mut s, "…z");
    assert_eq!(s, "aé…z");
    let chars = chars_of(&s);
    // One byte, two bytes, three bytes, one byte.
    assert_eq!(cut_at(&chars, 7), Some(4));
    assert_eq!(cut_at(&chars, 6), Some(3));
    assert_eq!(cut_at(&chars, 3), Some(2));
    assert_eq!(cut_at(&chars, 1), Some(1));
    assert_eq!(cut_at(&chars, 2), None);
}
