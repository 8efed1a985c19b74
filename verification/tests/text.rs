use btclient::text::{
    decimal_text, parse_decimal, push_decimal, push_hex, push_right_aligned, push_signed_decimal,
    same, split_words, trim,
};

#[test]
fn numbers_are_written_and_read_back() {
    for n in [0u64, 7, 10, 99, 100, 65535, u64::MAX] {
        assert_eq!(decimal_text(n), n.to_string());
        assert_eq!(parse_decimal(&decimal_text(n), u64::MAX), Some(n));
    }
    let mut out = String::from("n=");
    push_decimal(&mut out, 120);
    assert_eq!(out, "n=120");
}

#[test]
fn integers_are_written_with_their_sign() {
    for i in [0i64, -1, 5, -120, i64::MAX, i64::MIN] {
        let mut out = String::new();
        push_signed_decimal(&mut out, i);
        assert_eq!(out, i.to_string());
    }
}

#[test]
fn numbers_are_parsed_as_the_standard_library_does() {
    for text in ["", "+", "-", "-1", "+1", "++1", "007", "65535", "65536", "1 ", " 1", "1a", "x"] {
        assert_eq!(parse_decimal(text, 65535), text.parse::<u16>().ok().map(u64::from), "{}", text);
    }
    assert_eq!(parse_decimal("18446744073709551616", u64::MAX), None);
    assert_eq!(parse_decimal("18446744073709551615", u64::MAX), Some(u64::MAX));
}

#[test]
fn bytes_are_written_in_hexadecimal() {
    let mut out = String::new();
    push_hex(&mut out, &[0, 0x0f, 0xa5, 0xff]);
    assert_eq!(out, "000fa5ff");
}

#[test]
fn texts_are_aligned_to_the_right() {
    let mut out = String::new();
    push_right_aligned(&mut out, "7", 3);
    push_right_aligned(&mut out, "1234", 3);
    push_right_aligned(&mut out, "", 1);
    assert_eq!(out, "  71234 ");
}

#[test]
fn texts_are_compared() {
    assert!(same("", ""));
    assert!(same("h\u{e9}", "h\u{e9}"));
    assert!(!same("add", "ad"));
    assert!(!same("add", "adb"));
}

#[test]
fn white_space_is_trimmed() {
    let texts =
        ["", " ", " a b\t", "\u{a0}x\u{3000}\n", "x", "\u{200b}x\u{85}", "\u{1680}\u{2028}"];
    for text in texts {
        assert_eq!(trim(text), text.trim());
    }
}

#[test]
fn words_are_split_at_single_spaces() {
    for text in ["", "a", "a b", "a  b", " ", "add x y", "\u{e9} \u{e8}"] {
        let expected: Vec<String> = text.split(' ').map(String::from).collect();
        assert_eq!(split_words(text), expected);
    }
}
