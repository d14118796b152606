use lexer::chars::{
    is_ascii_alphabetic, is_ascii_digit, is_ascii_hexdigit, is_ascii_whitespace,
    is_name_continue, to_ascii_lowercase, to_digit, Radix,
};
use lexer::text::to_lowercase;

fn every_char() -> Vec<char> {
    let mut chars = Vec::new();
    for code in 0u32..=0x10FFFF {
        if let Some(c) = char::from_u32(code) {
            chars.push(c);
        }
    }
    chars
}

#[test]
fn whitespace_is_ascii_whitespace() {
    for c in every_char() {
        assert_eq!(is_ascii_whitespace(c), c.is_ascii_whitespace(), "{:?}", c);
    }
}

#[test]
fn digits_are_ascii_digits() {
    for c in every_char() {
        assert_eq!(is_ascii_digit(c), c.is_ascii_digit(), "{:?}", c);
    }
}

#[test]
fn digits_of_each_radix() {
    for c in every_char() {
        assert_eq!(Radix::Octal.is_digit(c), c.is_digit(8), "{:?}", c);
        assert_eq!(Radix::Decimal.is_digit(c), c.is_digit(10), "{:?}", c);
        assert_eq!(Radix::Hexadecimal.is_digit(c), c.is_digit(16), "{:?}", c);
    }
    assert!(Radix::Octal.is_digit('7'));
    assert!(!Radix::Octal.is_digit('8'));
    assert!(!Radix::Decimal.is_digit('a'));
    assert!(Radix::Hexadecimal.is_digit('F'));
    assert!(!Radix::Hexadecimal.is_digit('g'));
}

#[test]
fn radix_numbers() {
    assert_eq!(Radix::Octal.number(), 8);
    assert_eq!(Radix::Decimal.number(), 10);
    assert_eq!(Radix::Hexadecimal.number(), 16);
}

#[test]
fn hexadecimal_digits_are_ascii_hexadecimal_digits() {
    for c in every_char() {
        assert_eq!(is_ascii_hexdigit(c), c.is_ascii_hexdigit(), "{:?}", c);
    }
}

#[test]
fn letters_are_ascii_letters() {
    for c in every_char() {
        assert_eq!(is_ascii_alphabetic(c), c.is_ascii_alphabetic(), "{:?}", c);
    }
}

#[test]
fn name_characters_are_letters_digits_and_underscore() {
    for c in every_char() {
        assert_eq!(is_name_continue(c), c.is_ascii_alphanumeric() || c == '_', "{:?}", c);
    }
}

#[test]
fn digit_values() {
    for c in every_char() {
        let expected = if c.is_ascii_hexdigit() { c.to_digit(16).map(i64::from) } else { Some(0) };
        assert_eq!(Some(to_digit(c)), expected, "{:?}", c);
    }
    assert_eq!(to_digit('0'), 0);
    assert_eq!(to_digit('7'), 7);
    assert_eq!(to_digit('9'), 9);
    assert_eq!(to_digit('a'), 10);
    assert_eq!(to_digit('F'), 15);
    assert_eq!(to_digit('g'), 0);
}

#[test]
fn lower_case_of_characters() {
    for c in every_char() {
        assert_eq!(to_ascii_lowercase(c), c.to_ascii_lowercase(), "{:?}", c);
    }
}

#[test]
fn lower_case_of_text() {
    assert_eq!(to_lowercase(""), "");
    assert_eq!(to_lowercase("AbStRaCt"), "abstract");
    assert_eq!(to_lowercase("Id9n_T2FiEr_"), "id9n_t2fier_");
    assert_eq!(to_lowercase("\u{c4}Z\u{212a}"), "\u{c4}z\u{212a}");
}
