use battleship::text::{
    digit, from_chars, is_decimal_digit, is_whitespace, push_decimal, to_chars, to_lower,
    to_upper, trim,
};

#[test]
fn chars_of_a_text() {
    assert_eq!(to_chars(""), Vec::<char>::new());
    assert_eq!(to_chars("a△1"), vec!['a', '△', '1']);
    let chars = to_chars("hello");
    assert_eq!(from_chars(&chars, 0, 5), "hello");
    assert_eq!(from_chars(&chars, 1, 3), "el");
    assert_eq!(from_chars(&chars, 2, 2), "");
}

#[test]
fn decimal_numerals() {
    for n in 0..=255u8 {
        let mut out = String::from("#");
        push_decimal(&mut out, n);
        assert_eq!(out, format!("#{}", n));
    }
    for d in 0..=9u8 {
        assert_eq!(digit(d).to_digit(10), Some(d as u32));
        assert!(is_decimal_digit(digit(d)));
    }
    for c in ['/', ':', 'a', ' ', '+', '-', '٣', '１'] {
        assert!(!is_decimal_digit(c));
    }
}

#[test]
fn letters_change_case_and_nothing_else_does() {
    for n in 0..0x3000u32 {
        if let Some(c) = char::from_u32(n) {
            assert_eq!(to_lower(c), c.to_ascii_lowercase());
            assert_eq!(to_upper(c), c.to_ascii_uppercase());
        }
    }
    assert_eq!(to_lower('Q'), 'q');
    assert_eq!(to_upper('q'), 'Q');
}

#[test]
fn white_space_is_what_the_standard_library_calls_so() {
    for n in 0..=0x10FFFFu32 {
        if let Some(c) = char::from_u32(n) {
            assert_eq!(is_whitespace(c), c.is_whitespace(), "{:x}", n);
        }
    }
}

#[test]
fn trim_removes_white_space_at_both_ends() {
    for text in [
        "",
        " ",
        "\n",
        "a",
        " a",
        "a ",
        "  J10\r\n",
        "\t a b \t",
        "\u{3000}name\u{a0}",
        " \n\t ",
        "two words",
        "tab\tinside\n",
    ] {
        assert_eq!(trim(text), text.trim(), "{:?}", text);
    }
    assert_eq!(trim("  J10\r\n"), "J10");
}
