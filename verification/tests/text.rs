use query_builder::text::{is_open_ended, last_char, placeholder_of};

#[test]
fn last_char_of_empty_text_is_none() {
    assert_eq!(last_char(""), None);
}

#[test]
fn last_char_of_ascii_text() {
    assert_eq!(last_char("a"), Some('a'));
    assert_eq!(last_char("CREATE"), Some('E'));
    assert_eq!(last_char("CREATE "), Some(' '));
    assert_eq!(last_char("x\n"), Some('\n'));
}

#[test]
fn last_char_of_two_byte_character() {
    assert_eq!(last_char("\u{e9}"), Some('\u{e9}'));
    assert_eq!(last_char("caf\u{e9}"), Some('\u{e9}'));
    assert_eq!(last_char("a\u{a0}"), Some('\u{a0}'));
}

#[test]
fn last_char_of_three_byte_character() {
    assert_eq!(last_char("\u{8d8a}"), Some('\u{8d8a}'));
    assert_eq!(last_char("\u{65e5}\u{672c}\u{8a9e}"), Some('\u{8a9e}'));
    assert_eq!(last_char("a\u{3000}"), Some('\u{3000}'));
}

#[test]
fn last_char_of_four_byte_character() {
    assert_eq!(last_char("\u{1f600}"), Some('\u{1f600}'));
    assert_eq!(last_char("ok \u{1f600}"), Some('\u{1f600}'));
    assert_eq!(last_char("\u{1f600}\u{10ffff}"), Some('\u{10ffff}'));
}

#[test]
fn last_char_after_wider_characters() {
    assert_eq!(last_char("\u{1f600}a"), Some('a'));
    assert_eq!(last_char("\u{8d8a}\u{e9}"), Some('\u{e9}'));
    assert_eq!(last_char("\u{0}"), Some('\u{0}'));
}

#[test]
fn empty_text_is_not_open_ended() {
    assert!(!is_open_ended(""));
}

#[test]
fn text_ending_in_letter_or_sign_is_open_ended() {
    assert!(is_open_ended("a"));
    assert!(is_open_ended(" a"));
    assert!(is_open_ended("person:john"));
    assert!(is_open_ended("="));
    assert!(is_open_ended("$name"));
    assert!(is_open_ended("\u{8d8a}"));
    assert!(is_open_ended("\u{200b}"));
}

#[test]
fn text_ending_in_whitespace_is_not_open_ended() {
    assert!(!is_open_ended(" "));
    assert!(!is_open_ended("a "));
    assert!(!is_open_ended("a\t"));
    assert!(!is_open_ended("a\n"));
    assert!(!is_open_ended("a\r"));
    assert!(!is_open_ended("a\u{b}"));
    assert!(!is_open_ended("a\u{c}"));
    assert!(!is_open_ended("a\u{85}"));
    assert!(!is_open_ended("a\u{a0}"));
    assert!(!is_open_ended("a\u{2003}"));
    assert!(!is_open_ended("a\u{2028}"));
    assert!(!is_open_ended("a\u{3000}"));
}

#[test]
fn placeholder_is_dollar_then_name() {
    assert_eq!(placeholder_of("name"), "$name");
    assert_eq!(placeholder_of("age"), "$age");
}

#[test]
fn placeholder_of_odd_names() {
    assert_eq!(placeholder_of(""), "$");
    assert_eq!(placeholder_of("$"), "$$");
    assert_eq!(placeholder_of("first name"), "$first name");
    assert_eq!(placeholder_of("\u{8d8a}"), "$\u{8d8a}");
}
