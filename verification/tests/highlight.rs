use pdfgrep::{
    format_hit, locate_occurrences, occurrences_in, print_pattern, print_pattern_insensitive,
    print_pattern_sensitive, show_hit, show_occurrences, split_occurrence, Cli, Occurrence,
};

fn request(sensitive: bool, english: bool) -> Cli {
    Cli { sensitive, english, pattern: String::from("at"), path: String::from("doc.pdf") }
}

#[test]
fn occurrences_of_at_in_the_cat_sat() {
    let found = locate_occurrences("the cat sat", "at", true);
    assert_eq!(
        found,
        vec![Occurrence { start: 5, length: 2 }, Occurrence { start: 9, length: 2 }]
    );
}

#[test]
fn occurrences_do_not_overlap() {
    let found = occurrences_in("aaaaa", "aa");
    assert_eq!(
        found,
        vec![Occurrence { start: 0, length: 2 }, Occurrence { start: 2, length: 2 }]
    );
}

#[test]
fn occurrences_agree_with_std() {
    let hays = ["the cat sat", "aaaa", "", "abcabc", "\u{e9}t\u{e9} \u{e9}t\u{e9}"];
    let needles = ["at", "a", "aa", "abc", "\u{e9}", "t\u{e9}", "x"];
    for hay in hays {
        for needle in needles {
            let expected: Vec<Occurrence> = hay
                .match_indices(needle)
                .map(|(start, _)| Occurrence { start, length: needle.len() })
                .collect();
            assert_eq!(occurrences_in(hay, needle), expected);
        }
    }
}

#[test]
fn empty_pattern_has_no_occurrence() {
    assert!(occurrences_in("abc", "").is_empty());
    assert!(locate_occurrences("abc", "", false).is_empty());
}

#[test]
fn insensitive_occurrences_are_found_in_the_lowercase_forms() {
    let found = locate_occurrences("Hello World, WORLD", "world", false);
    assert_eq!(
        found,
        vec![Occurrence { start: 6, length: 5 }, Occurrence { start: 13, length: 5 }]
    );
    assert!(locate_occurrences("Hello World", "world", true).is_empty());
}

#[test]
fn a_line_is_cut_at_an_occurrence() {
    let parts = split_occurrence("the cat sat", Occurrence { start: 5, length: 2 }).unwrap();
    assert_eq!(parts.before, "the c");
    assert_eq!(parts.matched, "at");
    assert_eq!(parts.after, " sat");
}

#[test]
fn a_line_is_not_cut_inside_a_character() {
    assert!(split_occurrence("\u{e9}a", Occurrence { start: 1, length: 1 }).is_none());
    assert!(split_occurrence("a\u{e9}", Occurrence { start: 1, length: 1 }).is_none());
    assert!(split_occurrence("abc", Occurrence { start: 2, length: 2 }).is_none());
    assert!(split_occurrence("abc", Occurrence { start: 4, length: 0 }).is_none());
    assert!(split_occurrence("abc", Occurrence { start: 1, length: usize::MAX }).is_none());
    assert!(split_occurrence("abc", Occurrence { start: 3, length: 0 }).is_some());
}

#[test]
fn a_hit_is_formatted_with_its_path() {
    assert_eq!(format_hit("a.pdf", "the c", "at", " sat"), "a.pdf: the cat sat");
}

#[test]
fn sensitive_report_without_colours() {
    colored::control::set_override(false);
    let out = print_pattern_sensitive("doc.pdf", "at", "the cat sat");
    assert_eq!(out, vec!["doc.pdf: the cat sat", "doc.pdf: the cat sat"]);
}

#[test]
fn sensitive_report_in_red() {
    colored::control::set_override(true);
    let out = print_pattern_sensitive("doc.pdf", "at", "the cat sat");
    assert_eq!(
        out,
        vec![
            "doc.pdf: the c\u{1b}[31mat\u{1b}[0m sat",
            "doc.pdf: the cat s\u{1b}[31mat\u{1b}[0m",
        ]
    );
}

#[test]
fn insensitive_report_keeps_the_case_of_the_line() {
    colored::control::set_override(true);
    let out = print_pattern_insensitive("doc.pdf", "world", "Hello World").unwrap();
    assert_eq!(out, vec!["doc.pdf: Hello \u{1b}[31mWorld\u{1b}[0m"]);
}

#[test]
fn insensitive_report_fails_where_a_span_does_not_fit() {
    colored::control::set_override(false);
    // U+0130 takes two bytes, its lowercase form three: the span found in the
    // lowercase form ends inside the last character of the line.
    assert!(print_pattern_insensitive("doc.pdf", "x\u{e9}", "\u{130}x\u{e9}").is_none());
    assert!(show_occurrences("p", "\u{e9}", &vec![Occurrence { start: 1, length: 1 }]).is_none());
}

#[test]
fn report_without_occurrences_is_empty() {
    assert!(print_pattern_sensitive("doc.pdf", "dog", "the cat sat").is_empty());
    assert_eq!(print_pattern_insensitive("doc.pdf", "dog", "the cat sat"), Some(vec![]));
}

#[test]
fn highlighting_is_sensitive_unless_english_and_insensitive() {
    colored::control::set_override(false);
    let line = "AT at";
    for (sensitive, english, hits) in
        [(false, false, 1), (true, false, 1), (true, true, 1), (false, true, 2)]
    {
        let out = print_pattern("doc.pdf", "at", line, &request(sensitive, english)).unwrap();
        assert_eq!(out.len(), hits);
        for shown in out {
            assert_eq!(shown, "doc.pdf: AT at");
        }
    }
}

#[test]
fn one_hit_is_shown_with_its_path() {
    colored::control::set_override(true);
    let hit = show_hit("a.pdf", "Hello World", Occurrence { start: 6, length: 5 });
    assert_eq!(hit, Some(String::from("a.pdf: Hello \u{1b}[31mWorld\u{1b}[0m")));
    colored::control::set_override(false);
    let hit = show_hit("a.pdf", "Hello World", Occurrence { start: 6, length: 5 });
    assert_eq!(hit, Some(String::from("a.pdf: Hello World")));
    assert_eq!(show_hit("a.pdf", "Hello", Occurrence { start: 4, length: 2 }), None);
}

#[test]
fn a_reset_sequence_inside_the_span_is_followed_by_red_again() {
    colored::control::set_override(true);
    let line = "a\u{1b}[0mb";
    let hit = show_hit("p", line, Occurrence { start: 0, length: line.len() }).unwrap();
    assert!(hit.starts_with("p: \u{1b}[31ma"));
    assert!(hit.ends_with("b\u{1b}[0m"));
}
