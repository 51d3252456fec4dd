use wayback_rs::text::{
    compare_bytes, compare_text, contains_char, decimal, has_prefix, is_whitespace, join_path,
    padded, parse_unsigned, same_text, trim, Order,
};

#[test]
fn decimal_writes_numbers_without_leading_zeros() {
    assert_eq!(decimal(0), "0");
    assert_eq!(decimal(7), "7");
    assert_eq!(decimal(10), "10");
    assert_eq!(decimal(2948), "2948");
    assert_eq!(decimal(4294967295), "4294967295");
    assert_eq!(decimal(u64::MAX), "18446744073709551615");
}

#[test]
fn padded_writes_a_fixed_number_of_digits() {
    assert_eq!(padded(3, 2), "03");
    assert_eq!(padded(2020, 4), "2020");
    assert_eq!(padded(0, 4), "0000");
    assert_eq!(padded(12345, 4), "2345");
    assert_eq!(padded(5, 0), "");
}

#[test]
fn parse_unsigned_agrees_with_the_standard_parser() {
    let inputs = [
        "", "+", "-", "0", "00", "007", "+7", "++7", "-7", "+0", "12a", "a12", " 12", "12 ", "1_000",
        "65535", "65536", "4294967295", "4294967296", "99999999999999999999999999", "0x10", "１２",
        "1.5", "+4294967295", "0000000000000000000000000000065535",
    ];
    for input in inputs {
        assert_eq!(
            parse_unsigned(input, 0xffff_ffff),
            input.parse::<u32>().ok().map(u64::from),
            "{:?}",
            input
        );
        assert_eq!(
            parse_unsigned(input, 0xffff),
            input.parse::<u16>().ok().map(u64::from),
            "{:?}",
            input
        );
    }
}

#[test]
fn whitespace_is_what_the_standard_library_takes_for_it() {
    let mut code = 0u32;
    while code <= 0x10ffff {
        if let Some(c) = char::from_u32(code) {
            assert_eq!(is_whitespace(c), c.is_whitespace(), "U+{:04X}", code);
        }
        code += 1;
    }
}

#[test]
fn trim_agrees_with_the_standard_library() {
    let inputs = [
        "",
        " ",
        "\n",
        " \t\r\n",
        "abc",
        " abc",
        "abc ",
        "  a b  c \r\n",
        "\u{a0}ZHYT52YPEOCHJD5FZINSDYXGQZI22WJ4\u{3000}",
        "\u{200b}x\u{200b}",
        "é ",
        " é",
    ];
    for input in inputs {
        assert_eq!(trim(input), input.trim(), "{:?}", input);
    }
}

#[test]
fn text_is_compared_as_strings_are() {
    let texts = ["", "a", "ab", "b", "A", "é", "z", "日本", "a\u{10000}", "a\u{ffff}"];
    for a in texts {
        for b in texts {
            let expected = match a.cmp(b) {
                std::cmp::Ordering::Less => Order::Less,
                std::cmp::Ordering::Equal => Order::Equal,
                std::cmp::Ordering::Greater => Order::Greater,
            };
            assert_eq!(compare_text(a, b), expected, "{:?} {:?}", a, b);
            assert_eq!(compare_bytes(a.as_bytes(), b.as_bytes()), expected);
            assert_eq!(same_text(a, b), a == b);
            assert_eq!(has_prefix(a, b), a.starts_with(b), "{:?} {:?}", a, b);
        }
    }
}

#[test]
fn contains_char_finds_characters() {
    assert!(contains_char("a\nb", '\n'));
    assert!(!contains_char("ab", '\n'));
    assert!(contains_char("日本\0", '\0'));
    assert!(!contains_char("", 'a'));
}

#[test]
fn join_path_puts_one_separator_between() {
    assert_eq!(join_path("", "data"), "data");
    assert_eq!(join_path("base", "data"), "base/data");
    assert_eq!(join_path("base/", "data"), "base/data");
    assert_eq!(join_path("/", "data"), "/data");
    assert_eq!(join_path("a/b", "c/d.gz"), "a/b/c/d.gz");
}
