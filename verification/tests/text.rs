use marketdata_service::text::{
    chars_of, decimal_text, eq_ignore_ascii_case, hex_byte_text, padded_decimal_text, parse_unsigned, strip_prefix, trim,
    NumberError,
};

#[test]
fn numbers_in_decimal() {
    for n in [0u64, 7, 9, 10, 99, 100, 1_000_000, u64::MAX] {
        assert_eq!(decimal_text(n), format!("{n}"));
    }
    assert_eq!(padded_decimal_text(42, 9), "000000042");
    assert_eq!(padded_decimal_text(1_000_000_000, 9), "1000000000");
    assert_eq!(padded_decimal_text(0, 3), "000");
    assert_eq!(padded_decimal_text(0, 0), "0");
}

#[test]
fn bytes_in_hexadecimal() {
    for n in 0..=255u8 {
        assert_eq!(hex_byte_text(n), format!("{n:02x}"));
    }
}

#[test]
fn numbers_are_read_as_the_standard_library_reads_them() {
    let texts = [
        "", "+", "-", "0", "+0", "-0", "00", "7", "+7", "++7", "255", "256", "300x", "x300", "99999999999", "1 ", " 1",
        "65535", "4294967295", "4294967296", "18446744073709551615", "18446744073709551616", "é", "1_000", "25x6", "2560x",
    ];
    for text in texts {
        let same = |ours: Result<u64, NumberError>, theirs: Result<u64, std::num::ParseIntError>| match (ours, theirs) {
            (Ok(a), Ok(b)) => assert_eq!(a, b, "{text:?}"),
            (Err(a), Err(b)) => assert_eq!(a.message(), b.to_string(), "{text:?}"),
            (a, b) => panic!("{text:?}: {a:?} {b:?}"),
        };
        same(parse_unsigned(text, u8::MAX as u64), text.parse::<u8>().map(u64::from));
        same(parse_unsigned(text, u32::MAX as u64), text.parse::<u32>().map(u64::from));
        same(parse_unsigned(text, u64::MAX), text.parse::<u64>());
    }
}

#[test]
fn decimal_forms_are_read_back() {
    for n in [0u64, 1, 10, 12_345, u64::MAX - 1, u64::MAX] {
        assert_eq!(parse_unsigned(&decimal_text(n), u64::MAX), Ok(n));
    }
    assert_eq!(parse_unsigned("1000", 999), Err(NumberError::TooLarge));
    assert_eq!(parse_unsigned("999", 999), Ok(999));
}

#[test]
fn white_space_is_trimmed_as_unicode_has_it() {
    for code in 0..=0x3100u32 {
        if let Some(c) = char::from_u32(code) {
            let text = format!("{c}a {c}b{c}{c}");
            assert_eq!(trim(&text), text.trim(), "{code:#x}");
        }
    }
    assert_eq!(trim(""), "");
    assert_eq!(trim(" \t "), "");
}

#[test]
fn case_is_ignored_for_ascii_letters_only() {
    assert!(eq_ignore_ascii_case("Steady", "sTEADY"));
    assert!(!eq_ignore_ascii_case("steady", "steady "));
    assert!(!eq_ignore_ascii_case("É", "é"));
    assert!(!eq_ignore_ascii_case("[", "{"));
    assert!(eq_ignore_ascii_case("", ""));
}

#[test]
fn prefixes_are_stripped() {
    assert_eq!(strip_prefix("bursty:12", "bursty:"), Some("12"));
    assert_eq!(strip_prefix("bursty:", "bursty:"), Some(""));
    assert_eq!(strip_prefix("burst", "bursty:"), None);
    assert_eq!(strip_prefix("Bursty:12", "bursty:"), None);
    assert_eq!(strip_prefix("é!", "é"), Some("!"));
}

#[test]
fn characters_of_a_text() {
    assert_eq!(chars_of("aé—"), vec!['a', 'é', '—']);
    assert!(chars_of("").is_empty());
}
