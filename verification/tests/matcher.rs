use pdfgrep::{contains_str, find_matching_lines, lines, search_case_insensitive, search_case_sensitive};

#[test]
fn sensitive_search_returns_the_lines_that_hold_the_pattern() {
    let text = "the cat sat\nno match here\na cat again\ncatalogue\n";
    let found = search_case_sensitive("cat", text);
    assert_eq!(found, vec!["the cat sat", "a cat again", "catalogue"]);
}

#[test]
fn sensitive_search_keeps_order_and_repeats() {
    let text = "b x\na x\nb x\nc\n";
    assert_eq!(search_case_sensitive("x", text), vec!["b x", "a x", "b x"]);
}

#[test]
fn sensitive_search_agrees_with_std() {
    let texts = ["", "abc", "abc\n", "a\r\nb\r\n", "x\n\ny", "caf\u{e9} au lait\n\u{e9}t\u{e9}\n", "ab\rc\nd\r"];
    let patterns = ["a", "b", "\u{e9}", "\r", "ab", "zz"];
    for text in texts {
        for pattern in patterns {
            let expected: Vec<&str> = text.lines().filter(|line| line.contains(pattern)).collect();
            assert_eq!(search_case_sensitive(pattern, text), expected);
        }
    }
}

#[test]
fn insensitive_search_agrees_with_std() {
    let texts = ["Hello World\nhello\nHELLO THERE\nbye", "\u{c9}t\u{e9}\n\u{e9}T\u{c9}\nete"];
    let patterns = ["hello", "HELLO", "\u{e9}t\u{e9}", "World"];
    for text in texts {
        for pattern in patterns {
            let folded = pattern.to_lowercase();
            let expected: Vec<&str> =
                text.lines().filter(|line| line.to_lowercase().contains(&folded)).collect();
            assert_eq!(search_case_insensitive(pattern, text), expected);
        }
    }
}

#[test]
fn case_insensitive_matching_folds_both_sides() {
    assert_eq!(find_matching_lines("ABC", "xx abc yy", false), vec!["xx abc yy"]);
    assert_eq!(find_matching_lines("abc", "xx ABC yy", false), vec!["xx ABC yy"]);
}

#[test]
fn case_sensitive_matching_does_not_fold() {
    let found = find_matching_lines("ABC", "xx abc yy", true);
    assert!(found.is_empty());
}

#[test]
fn no_match_is_an_empty_result() {
    assert!(search_case_sensitive("dog", "the cat sat\n").is_empty());
    assert!(search_case_insensitive("dog", "the cat sat\n").is_empty());
    assert!(search_case_sensitive("cat", "").is_empty());
}

#[test]
fn empty_pattern_is_held_by_every_line() {
    assert_eq!(search_case_sensitive("", "a\n\nb"), vec!["a", "", "b"]);
}

#[test]
fn pattern_across_a_line_break_is_in_no_line() {
    assert!(search_case_sensitive("a\nb", "a\nb").is_empty());
}

#[test]
fn lines_follow_the_line_endings() {
    assert_eq!(lines(""), Vec::<&str>::new());
    assert_eq!(lines("abc"), vec!["abc"]);
    assert_eq!(lines("abc\n"), vec!["abc"]);
    assert_eq!(lines("\n"), vec![""]);
    assert_eq!(lines("a\r\nb"), vec!["a", "b"]);
    assert_eq!(lines("a\n\nb\n"), vec!["a", "", "b"]);
    assert_eq!(lines("a\r\r\nb"), vec!["a\r", "b"]);
    assert_eq!(lines("a\rb\n"), vec!["a\rb"]);
}

#[test]
fn lines_agree_with_std() {
    let texts = [
        "",
        "\n",
        "\r",
        "\r\n",
        "foo\r\nbar\n\nbaz\r",
        "foo\nbar\n\r\nbaz\n",
        "\u{e9}\n\u{4e2d}\u{6587}\r\n\u{1f600}",
        "no newline",
        "\n\n\n",
        "a\r\n\r\n",
    ];
    for text in texts {
        let expected: Vec<&str> = text.lines().collect();
        assert_eq!(lines(text), expected, "text {:?}", text);
    }
}

#[test]
fn contains_str_agrees_with_std() {
    let hays = ["", "a", "hello world", "\u{e9}t\u{e9}", "aaa", "\u{4e2d}\u{6587}"];
    let needles = ["", "a", "o w", "\u{e9}", "aa", "aaaa", "\u{6587}", "world!"];
    for hay in hays {
        for needle in needles {
            assert_eq!(contains_str(hay, needle), hay.contains(needle));
        }
    }
}
