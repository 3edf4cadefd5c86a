use paragraph_layout::text::{
    chars_of, contains_char, contains_white, count_char, count_trailing, is_blank, is_control,
    is_white_space, same_text, string_of, trimmed,
};

#[test]
fn white_space_and_control_characters_are_those_of_unicode() {
    for cp in 0..=0x10FFFFu32 {
        if let Some(ch) = char::from_u32(cp) {
            assert_eq!(is_white_space(ch), ch.is_whitespace(), "U+{:05X}", cp);
            assert_eq!(is_control(ch), ch.is_control(), "U+{:05X}", cp);
        }
    }
}

#[test]
fn a_text_is_its_characters() {
    let chars = chars_of("가a\u{10000}");
    assert_eq!(chars, vec!['가', 'a', '\u{10000}']);
    assert_eq!(string_of(&chars), "가a\u{10000}");
    assert_eq!(string_of(&[]), "");
}

#[test]
fn trimming_takes_white_space_off_both_ends() {
    for text in ["", "  ", " a b\t", "\u{3000}가 ", "x"] {
        let chars = chars_of(text);
        assert_eq!(string_of(&trimmed(&chars)), text.trim());
        assert_eq!(is_blank(text), text.trim().is_empty());
    }
}

#[test]
fn characters_are_counted() {
    let chars = chars_of("a  b   ");
    assert_eq!(count_trailing(&chars, ' '), 3);
    assert_eq!(count_char(&chars, 4, ' '), 2);
    assert_eq!(count_char(&chars, 7, ' '), 5);
    assert!(contains_char("a\tb", '\t'));
    assert!(!contains_char("ab", '\t'));
    assert!(contains_white(&chars));
    assert!(!contains_white(&['a']));
}

#[test]
fn texts_are_the_same_character_by_character() {
    assert!(same_text("가나", "가나"));
    assert!(!same_text("가나", "가다"));
    assert!(!same_text("가나", "가"));
    assert!(same_text("", ""));
}
