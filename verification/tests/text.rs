use invoker_manager::text::{chars_of, decimal_string, parse_bounded, str_eq, trimmed, whitespace};

#[test]
fn whitespace_agrees_with_the_standard_library_on_every_char() {
    let mut code: u32 = 0;
    while code <= 0x10FFFF {
        if let Some(c) = char::from_u32(code) {
            assert_eq!(whitespace(c), c.is_whitespace(), "U+{:04X}", code);
        }
        code += 1;
    }
}

#[test]
fn trimmed_drops_white_space_at_both_ends_only() {
    assert_eq!(trimmed("  a b \t\n"), "a b");
    assert_eq!(trimmed(""), "");
    assert_eq!(trimmed(" \r\n\t"), "");
    assert_eq!(trimmed("x"), "x");
    assert_eq!(trimmed("\u{a0}x\u{3000}"), "x");
    assert_eq!(trimmed("\u{200b}x"), "\u{200b}x");
}

#[test]
fn trimmed_agrees_with_the_standard_library() {
    let samples = [
        "", " ", "a", " a", "a ", "  a  b  ", "\t\ta\n", "\u{85}a\u{2028}", "\u{1680}\u{2000}z\u{205f}",
        "é ", " 日本 ", "\u{feff}a", "a\u{0b}\u{0c}",
    ];
    for sample in samples {
        assert_eq!(trimmed(sample), sample.trim(), "{:?}", sample);
    }
}

#[test]
fn chars_of_lists_the_characters() {
    assert_eq!(chars_of("aé日"), vec!['a', 'é', '日']);
    assert_eq!(chars_of(""), Vec::<char>::new());
}

#[test]
fn str_eq_compares_contents() {
    assert!(str_eq("DATA", "DATA"));
    assert!(str_eq("", ""));
    assert!(!str_eq("DATA", "DATa"));
    assert!(!str_eq("DATA", "DATA "));
    assert!(!str_eq("é", "e"));
}

#[test]
fn parse_bounded_reads_numerals_within_the_bound() {
    assert_eq!(parse_bounded("0", 255), Some(0));
    assert_eq!(parse_bounded("255", 255), Some(255));
    assert_eq!(parse_bounded("256", 255), None);
    assert_eq!(parse_bounded("+7", 255), Some(7));
    assert_eq!(parse_bounded("007", 255), Some(7));
    assert_eq!(parse_bounded("65535", 0xffff), Some(65535));
    assert_eq!(parse_bounded("65536", 0xffff), None);
    assert_eq!(parse_bounded("4294967295", 0xffff_ffff), Some(4294967295));
    assert_eq!(parse_bounded("4294967296", 0xffff_ffff), None);
    assert_eq!(parse_bounded("99999999999999999999999999", 0xffff_ffff), None);
}

#[test]
fn parse_bounded_refuses_what_is_no_numeral() {
    for text in ["", "+", "-", "-1", "++1", "+-1", " 1", "1 ", "1.0", "0x10", "1_0", "١", "a"] {
        assert_eq!(parse_bounded(text, 255), None, "{:?}", text);
    }
}

#[test]
fn parse_bounded_agrees_with_the_standard_library() {
    let samples = ["", "+", "-", "0", "00", "+0", "-0", "12", "255", "256", "+255", "1a", "a1", "999"];
    for sample in samples {
        assert_eq!(
            parse_bounded(sample, 255),
            sample.parse::<u8>().ok().map(|v| v as u64),
            "{:?}",
            sample
        );
        assert_eq!(
            parse_bounded(sample, 0xffff),
            sample.parse::<u16>().ok().map(|v| v as u64),
            "{:?}",
            sample
        );
    }
}

#[test]
fn decimal_string_writes_numbers() {
    assert_eq!(decimal_string(0), "0");
    assert_eq!(decimal_string(7), "7");
    assert_eq!(decimal_string(10), "10");
    assert_eq!(decimal_string(2048), "2048");
    assert_eq!(decimal_string(65535), "65535");
    assert_eq!(decimal_string(u64::MAX), "18446744073709551615");
}
