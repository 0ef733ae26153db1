use ingestion::text::{chars_of, decimal, join, parse_i32, space, trim};

#[test]
fn join_puts_the_separator_between_neighbours() {
    let parts = vec!["a".to_string(), "bc".to_string(), "".to_string(), "d".to_string()];
    assert_eq!(join(&parts, ", "), "a, bc, , d");
    assert_eq!(join(&parts, ", "), parts.join(", "));
}

#[test]
fn join_of_nothing_is_empty_and_of_one_part_is_the_part() {
    assert_eq!(join(&vec![], ", "), "");
    assert_eq!(join(&vec!["only".to_string()], ", "), "only");
}

#[test]
fn chars_of_lists_every_character() {
    assert_eq!(chars_of("a\u{e9}\u{4e2d}z"), vec!['a', '\u{e9}', '\u{4e2d}', 'z']);
    assert_eq!(chars_of(""), Vec::<char>::new());
}

#[test]
fn space_agrees_with_the_white_space_property() {
    let mut code: u32 = 0;
    while code <= 0x10ffff {
        if let Some(c) = char::from_u32(code) {
            assert_eq!(space(c), c.is_whitespace(), "code point {:x}", code);
        }
        code += 1;
    }
}

#[test]
fn trim_removes_white_space_at_both_ends_only() {
    assert_eq!(trim("  800000\n"), "800000");
    assert_eq!(trim("\t a b \r\n"), "a b");
    assert_eq!(trim("\u{3000}x\u{a0}"), "x");
    assert_eq!(trim("   "), "");
    assert_eq!(trim(""), "");
    assert_eq!(trim("plain"), "plain");
    assert_eq!(trim(" \u{e9}t\u{e9} "), "\u{e9}t\u{e9}");
}

#[test]
fn parse_i32_reads_signed_decimal_numbers() {
    assert_eq!(parse_i32("800000"), Some(800000));
    assert_eq!(parse_i32("0"), Some(0));
    assert_eq!(parse_i32("-0"), Some(0));
    assert_eq!(parse_i32("+17"), Some(17));
    assert_eq!(parse_i32("-17"), Some(-17));
    assert_eq!(parse_i32("007"), Some(7));
    assert_eq!(parse_i32("2147483647"), Some(i32::MAX));
    assert_eq!(parse_i32("-2147483648"), Some(i32::MIN));
}

#[test]
fn parse_i32_rejects_what_is_no_number() {
    assert_eq!(parse_i32(""), None);
    assert_eq!(parse_i32("+"), None);
    assert_eq!(parse_i32("-"), None);
    assert_eq!(parse_i32(" 5"), None);
    assert_eq!(parse_i32("5 "), None);
    assert_eq!(parse_i32("1_000"), None);
    assert_eq!(parse_i32("12a"), None);
    assert_eq!(parse_i32("--5"), None);
    assert_eq!(parse_i32("2147483648"), None);
    assert_eq!(parse_i32("-2147483649"), None);
    assert_eq!(parse_i32("99999999999999999999999999"), None);
    assert_eq!(parse_i32("\u{663}"), None);
}

#[test]
fn parse_i32_agrees_with_the_standard_parser() {
    let samples = [
        "1", "-1", "+1", "00", "-00012", "2147483647", "2147483648", "-2147483648",
        "-2147483649", "4294967296", "", "+", "-", "+-1", "1+", "0x10", "1e3", "٣", " 1", "1\n",
        "12345678901", "-12345678901",
    ];
    for text in samples {
        assert_eq!(parse_i32(text), text.parse::<i32>().ok(), "text {:?}", text);
    }
}

#[test]
fn decimal_writes_numbers_in_base_ten() {
    assert_eq!(decimal(0), "0");
    assert_eq!(decimal(7), "7");
    assert_eq!(decimal(10), "10");
    assert_eq!(decimal(800000), "800000");
    assert_eq!(decimal(-1), "-1");
    assert_eq!(decimal(-1200), "-1200");
    assert_eq!(decimal(i32::MAX), "2147483647");
    assert_eq!(decimal(i32::MIN), "-2147483648");
}

#[test]
fn decimal_and_parse_i32_are_inverse() {
    for n in [0, 1, -1, 9, 10, 99, 100, 12345, -98765, i32::MAX, i32::MIN] {
        assert_eq!(decimal(n), n.to_string());
        assert_eq!(parse_i32(&decimal(n)), Some(n));
    }
}
