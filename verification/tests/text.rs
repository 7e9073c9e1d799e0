use rox::text::{
    decimal_string, digit_count, parse_i32, push_decimal, push_padded_decimal,
    push_signed_decimal, str_eq, trim_end, unquote,
};

#[test]
fn trimming_takes_the_white_space_off_the_end() {
    assert_eq!(trim_end("abc  \t\r\n"), "abc");
    assert_eq!(trim_end("  abc"), "  abc");
    assert_eq!(trim_end("a b "), "a b");
    assert_eq!(trim_end(""), "");
    assert_eq!(trim_end(" \n "), "");
    assert_eq!(trim_end("é\u{a0}\u{2003}\u{3000}"), "é");
    assert_eq!(trim_end("x\u{200b}"), "x\u{200b}");
    assert_eq!(trim_end("✓ "), "✓");
    assert_eq!(trim_end("😀 \u{85}"), "😀");
    assert_eq!(trim_end("a😀"), "a😀");
}

#[test]
fn trimming_agrees_with_the_standard_library() {
    let mut samples: Vec<char> = vec!['a', '\0', '\u{7f}', '\u{80}', '\u{7ff}', '\u{800}', '\u{ffff}', '\u{10000}', '\u{10ffff}'];
    for u in 0u32..0x3100 {
        if let Some(c) = char::from_u32(u) {
            samples.push(c);
        }
    }
    for c in samples {
        for text in [
            format!("{}", c),
            format!("x{}", c),
            format!("x {}", c),
            format!("x{} ", c),
            format!("{}{}", c, c),
            format!("é{}\n", c),
        ] {
            assert_eq!(trim_end(&text), text.trim_end(), "{:?}", text);
        }
    }
}

#[test]
fn unquoting_takes_the_quotes_off() {
    assert_eq!(unquote("\"abc\""), "abc");
    assert_eq!(unquote("\"\""), "");
    assert_eq!(unquote("\""), "\"");
    assert_eq!(unquote("abc"), "abc");
    assert_eq!(unquote("\"abc"), "\"abc");
    assert_eq!(unquote("abc\""), "abc\"");
    assert_eq!(unquote("\"é✓😀\""), "é✓😀");
    assert_eq!(unquote("\"a\"b\""), "a\"b");
    assert_eq!(unquote(""), "");
}

#[test]
fn numbers_are_read_as_the_standard_library_reads_them() {
    for text in [
        "0", "7", "42", "007", "-1", "+1", "-0", "2147483647", "2147483648", "-2147483648",
        "-2147483649", "99999999999999999999999", "-99999999999999999999999",
        "00000000000000000000000000001", "", "-", "+", "1.5", "1e3", " 1", "1 ", "--1", "+-1",
        "１２", "12a", "a12", "1_000", "é",
    ] {
        assert_eq!(parse_i32(text), text.parse::<i32>().ok(), "{:?}", text);
    }
}

#[test]
fn decimal_numerals() {
    assert_eq!(decimal_string(0), "0");
    assert_eq!(decimal_string(9), "9");
    assert_eq!(decimal_string(10), "10");
    assert_eq!(decimal_string(4096), "4096");
    assert_eq!(decimal_string(usize::MAX), usize::MAX.to_string());
    let mut s = String::from("n=");
    push_decimal(&mut s, 1234567890);
    assert_eq!(s, "n=1234567890");
    let mut s = String::new();
    push_decimal(&mut s, u64::MAX);
    assert_eq!(s, "18446744073709551615");
    for n in [0i32, 1, -1, 42, -42, i32::MAX, i32::MIN] {
        let mut s = String::new();
        push_signed_decimal(&mut s, n);
        assert_eq!(s, n.to_string());
    }
    assert_eq!(digit_count(0), 1);
    assert_eq!(digit_count(9), 1);
    assert_eq!(digit_count(10), 2);
    assert_eq!(digit_count(u64::MAX), 20);
}

#[test]
fn padded_numerals() {
    for (n, width, zeros, expected) in [
        (7u64, 6usize, true, "000007"),
        (7, 5, false, "    7"),
        (123456, 6, true, "123456"),
        (1234567, 6, true, "1234567"),
        (0, 0, false, "0"),
        (0, 1, true, "0"),
        (42, 3, false, " 42"),
    ] {
        let mut s = String::new();
        push_padded_decimal(&mut s, n, width, zeros);
        assert_eq!(s, expected);
    }
}

#[test]
fn texts_compare_by_their_content() {
    assert!(str_eq("", ""));
    assert!(str_eq("abc", "abc"));
    assert!(!str_eq("abc", "abd"));
    assert!(!str_eq("abc", "ab"));
    assert!(!str_eq("ab", "abc"));
    assert!(str_eq("é✓", "é✓"));
    assert!(!str_eq("é", "e"));
}
