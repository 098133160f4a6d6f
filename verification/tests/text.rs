use xbridge::text::{
    chars_of, decimal_string, is_white, lower_string, position_of, position_of_any,
    position_of_blank_line, position_of_text, read_decimal, same_any_case, same_text, string_of,
    to_lower, trimmed,
};

#[test]
fn white_space_is_that_of_unicode() {
    for c in '\0'..=char::MAX {
        assert_eq!(is_white(c), c.is_whitespace(), "{c:?}");
    }
}

#[test]
fn only_ascii_letters_are_lowered() {
    for c in '\0'..='\u{FFF}' {
        assert_eq!(to_lower(c), c.to_ascii_lowercase());
    }
    assert_eq!(lower_string("Content-TYPE Ä"), "content-type Ä");
}

#[test]
fn text_is_compared() {
    assert!(same_text("", ""));
    assert!(same_text("äöü", "äöü"));
    assert!(!same_text("abc", "abd"));
    assert!(!same_text("abc", "ab"));
    assert!(same_any_case("Call-ID", "cALL-id"));
    assert!(!same_any_case("Call-ID", "Call-I"));
    assert!(!same_any_case("Ä", "ä"));
}

#[test]
fn places_in_text_are_found() {
    let s = chars_of("a,b;c,d");
    assert_eq!(position_of(&s, ','), Some(1));
    assert_eq!(position_of(&s, '!'), None);
    assert_eq!(position_of_any(&s, &[';', 'c']), Some(3));
    assert_eq!(position_of_any(&s, &[]), None);
    assert_eq!(position_of_text(&s, &chars_of("c,")), Some(4));
    assert_eq!(position_of_text(&s, &chars_of("x")), None);
    assert_eq!(position_of_text(&s, &[]), Some(0));
    assert_eq!(position_of_blank_line(b"a\r\n\r\nb\r\n\r\n"), Some(1));
    assert_eq!(position_of_blank_line(b"a\r\nb"), None);
}

#[test]
fn text_is_trimmed() {
    for s in ["", " ", "a", "  a b\t\r\n", "\u{3000}x\u{85}", "no"] {
        assert_eq!(string_of(trimmed(&chars_of(s))), s.trim());
    }
}

#[test]
fn numbers_are_read_and_written() {
    for n in [0, 9, 10, 65535, u64::MAX] {
        let text = decimal_string(n);
        assert_eq!(text, n.to_string());
        assert_eq!(read_decimal(&chars_of(&text), u64::MAX), Some(n));
    }
    for s in ["", "+", "-1", "1a", " 1", "256", "00256", "99999999999999999999"] {
        assert_eq!(read_decimal(&chars_of(s), 255), None, "{s}");
        assert!(s.parse::<u8>().is_err());
    }
    for s in ["+7", "007", "255", "+000255"] {
        assert_eq!(read_decimal(&chars_of(s), 255), s.parse::<u64>().ok(), "{s}");
    }
}
