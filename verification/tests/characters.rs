use proxyjs::text::{
    chars_of, eq_ignore_ascii_case, find_char, has_at, is_alnum_or_hyphen, is_ascii_digit,
    is_padding_char, is_whitespace, same_text, CharClass,
};

fn every_char() -> impl Iterator<Item = char> {
    (0u32..=0x10FFFF).filter_map(char::from_u32)
}

#[test]
fn white_space_is_what_unicode_says() {
    for c in every_char() {
        assert_eq!(is_whitespace(c), c.is_whitespace(), "U+{:04X}", c as u32);
    }
}

#[test]
fn digits_and_label_characters() {
    for c in every_char() {
        assert_eq!(is_ascii_digit(c), c.is_ascii_digit());
        assert_eq!(
            is_alnum_or_hyphen(c),
            c.is_ascii_alphanumeric() || c == '-' || c == '_'
        );
        assert_eq!(is_padding_char(c), c.is_whitespace() || c == ';');
        assert_eq!(CharClass::Digit.contains(c), c.is_ascii_digit());
        assert_eq!(CharClass::Whitespace.contains(c), c.is_whitespace());
        assert_eq!(CharClass::Label.contains(c), is_alnum_or_hyphen(c));
    }
}

#[test]
fn case_of_ascii_letters_only() {
    for a in (0u32..0x250).filter_map(char::from_u32) {
        for b in (0u32..0x250).filter_map(char::from_u32) {
            assert_eq!(eq_ignore_ascii_case(a, b), a.eq_ignore_ascii_case(&b));
        }
    }
    assert!(eq_ignore_ascii_case('d', 'D'));
    assert!(!eq_ignore_ascii_case('\u{e9}', '\u{c9}'));
    assert!(!eq_ignore_ascii_case('@', '`'));
    assert!(!eq_ignore_ascii_case('[', '{'));
}

#[test]
fn texts_as_characters() {
    assert_eq!(chars_of("a\u{e9}\u{4e16}"), vec!['a', '\u{e9}', '\u{4e16}']);
    assert_eq!(chars_of(""), Vec::<char>::new());
    let text = chars_of("a.b.c");
    assert_eq!(find_char(&text, 0, '.'), 1);
    assert_eq!(find_char(&text, 2, '.'), 3);
    assert_eq!(find_char(&text, 4, '.'), 5);
    assert_eq!(find_char(&text, 5, '.'), 5);
    assert!(has_at(&text, 2, &chars_of("b.c")));
    assert!(has_at(&text, 5, &chars_of("")));
    assert!(!has_at(&text, 3, &chars_of(".cd")));
    assert!(!has_at(&text, 6, &chars_of("")));
    assert!(same_text("abc", "abc"));
    assert!(!same_text("abc", "abd"));
    assert!(!same_text("abc", "ab"));
}
