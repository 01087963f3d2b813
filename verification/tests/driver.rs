use pdfgrep::{find_hits, search_file, Cli, ExtractedDocument, Occurrence};

fn request(pattern: &str, sensitive: bool, english: bool) -> Cli {
    Cli { sensitive, english, pattern: String::from(pattern), path: String::from("hello.pdf") }
}

fn document(text: &str) -> ExtractedDocument {
    ExtractedDocument { path: String::from("hello.pdf"), text: String::from(text) }
}

#[test]
fn hello_world_is_found_without_regard_to_case() {
    colored::control::set_override(true);
    let out = search_file(&request("world", false, true), &document("Hello World\n")).unwrap();
    assert_eq!(out, vec!["hello.pdf: Hello \u{1b}[31mWorld\u{1b}[0m"]);
}

#[test]
fn hello_world_is_not_found_with_regard_to_case() {
    colored::control::set_override(true);
    let out = search_file(&request("world", true, true), &document("Hello World\n")).unwrap();
    assert!(out.is_empty());
}

#[test]
fn pattern_is_reversed_before_the_search() {
    colored::control::set_override(false);
    let text = "a cat\na tac\n";
    let out = search_file(&request("cat", true, false), &document(text)).unwrap();
    assert_eq!(out, vec!["hello.pdf: a tac"]);
    let out = search_file(&request("cat", true, true), &document(text)).unwrap();
    assert_eq!(out, vec!["hello.pdf: a cat"]);
}

#[test]
fn every_occurrence_of_every_matching_line_is_reported() {
    colored::control::set_override(true);
    let text = "the cat sat\r\nnothing\r\nat last";
    let out = search_file(&request("at", true, true), &document(text)).unwrap();
    assert_eq!(
        out,
        vec![
            "hello.pdf: the c\u{1b}[31mat\u{1b}[0m sat",
            "hello.pdf: the cat s\u{1b}[31mat\u{1b}[0m",
            "hello.pdf: \u{1b}[31mat\u{1b}[0m last",
        ]
    );
}

#[test]
fn a_line_that_matches_only_without_case_is_not_highlighted_outside_english_mode() {
    colored::control::set_override(false);
    let out = search_file(&request("TAC", false, false), &document("a cat\n")).unwrap();
    assert!(out.is_empty());
    let out = search_file(&request("tac", false, false), &document("a cat\n")).unwrap();
    assert_eq!(out, vec!["hello.pdf: a cat"]);
}

#[test]
fn searching_twice_gives_the_same_report() {
    colored::control::set_override(true);
    let cli = request("o", false, true);
    let doc = document("Hello World\nfoo\nbar\n");
    let first = search_file(&cli, &doc);
    let second = search_file(&cli, &doc);
    assert_eq!(first, second);
    assert_eq!(first.unwrap().len(), 4);
}

#[test]
fn no_match_is_an_empty_report() {
    let out = search_file(&request("zebra", false, true), &document("Hello World\n")).unwrap();
    assert!(out.is_empty());
    let out = search_file(&request("zebra", false, true), &document("")).unwrap();
    assert!(out.is_empty());
}

#[test]
fn a_span_that_does_not_fit_ends_the_report() {
    let out = search_file(&request("x\u{e9}", false, true), &document("ok x\u{e9}\n\u{130}x\u{e9}\n"));
    assert!(out.is_none());
}

#[test]
fn hits_name_the_line_and_the_place() {
    let found = find_hits(&request("at", true, true), "the cat sat\nnothing\nat last");
    let seen: Vec<(&str, Occurrence)> = found.iter().map(|hit| (hit.line, hit.span)).collect();
    assert_eq!(
        seen,
        vec![
            ("the cat sat", Occurrence { start: 5, length: 2 }),
            ("the cat sat", Occurrence { start: 9, length: 2 }),
            ("at last", Occurrence { start: 0, length: 2 }),
        ]
    );
}

#[test]
fn a_present_pattern_is_found() {
    let text = "first line\r\nsecond line\nthird";
    for pattern in ["first", "line", "d l", "third", "e"] {
        assert!(text.contains(pattern));
        let found = find_hits(&request(pattern, true, true), text);
        assert!(!found.is_empty());
    }
}
