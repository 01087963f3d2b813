use pdfgrep::{normalize, reversed};

#[test]
fn pattern_is_reversed_outside_english_mode() {
    assert_eq!(normalize("cat", false), "tac");
}

#[test]
fn pattern_is_kept_in_english_mode() {
    assert_eq!(normalize("cat", true), "cat");
}

#[test]
fn reversal_goes_by_characters() {
    assert_eq!(reversed(""), "");
    assert_eq!(reversed("a"), "a");
    assert_eq!(reversed("\u{e9}a\u{4e2d}\u{1f600}b"), "b\u{1f600}\u{4e2d}a\u{e9}");
    for text in ["hello", "\u{e9}t\u{e9}!", "a\u{1f600}", "\u{5e9}\u{5dc}\u{5d5}\u{5dd}"] {
        let expected: String = text.chars().rev().collect();
        assert_eq!(reversed(text), expected);
    }
}

#[test]
fn reversing_twice_gives_the_pattern_back() {
    for text in ["", "cat", "\u{e9}t\u{e9} x"] {
        assert_eq!(normalize(&normalize(text, false), false), text);
    }
}
