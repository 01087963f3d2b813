//! The lines of a text that hold a pattern.

use vstd::prelude::*;
use vstd::string::*;
use crate::encoding::lemma_occurs_in_bytes;
use crate::fold::lowercase_of;
use crate::lines::{
    lemma_line_end_is_first_feed, line_end, lines, lines_of, texts, without_cr,
};
use crate::scan::contains_bytes;
use crate::text::{occurs_at, occurs_in};

verus! {

/// The test that a line holds `pattern` as it is written.
pub open spec fn holds(pattern: Seq<char>) -> spec_fn(Seq<char>) -> bool {
    |line: Seq<char>| occurs_in(line, pattern)
}

/// The test that the lowercase form of a line holds the lowercase form of
/// `pattern`.
pub open spec fn holds_folded(pattern: Seq<char>) -> spec_fn(Seq<char>) -> bool {
    |line: Seq<char>| occurs_in(lowercase_of(line), lowercase_of(pattern))
}

/// The lines of `text` that hold `pattern`, in their order, each as often as
/// it stands in the text. Without regard to case, a line holds the pattern
/// where the lowercase form of the one holds the lowercase form of the
/// other.
pub open spec fn matching_lines(pattern: Seq<char>, text: Seq<char>, case_sensitive: bool) -> Seq<
    Seq<char>,
> {
    if case_sensitive {
        lines_of(text).filter(holds(pattern))
    } else {
        lines_of(text).filter(holds_folded(pattern))
    }
}

/// A pattern without line feed and carriage return that stands in a text
/// stands in one of its lines.
pub proof fn lemma_pattern_stands_in_a_line(text: Seq<char>, pattern: Seq<char>, at: int)
    requires
        pattern.len() > 0,
        occurs_at(text, pattern, at),
        forall|j: int| 0 <= j < pattern.len() ==> pattern[j] != '\n' && pattern[j] != '\r',
    ensures
        exists|i: int|
            0 <= i < lines_of(text).len() && occurs_in(#[trigger] lines_of(text)[i], pattern),
    decreases text.len(),
{
    let all = lines_of(text);
    let end = line_end(text) as int;
    let m = pattern.len() as int;
    lemma_line_end_is_first_feed(text);
    if end >= text.len() {
        assert(occurs_in(all[0], pattern));
    } else if at + m <= end {
        let head = text.take(end);
        assert(head.subrange(at, at + m) =~= text.subrange(at, at + m));
        if head.len() > 0 && head.last() == '\r' {
            if at + m == end {
                assert(text.subrange(at, at + m)[m - 1] == text[end - 1]);
                assert(pattern[m - 1] == '\r');
            }
            assert(head.drop_last().subrange(at, at + m) =~= head.subrange(at, at + m));
            assert(occurs_at(without_cr(head), pattern, at));
        } else {
            assert(occurs_at(without_cr(head), pattern, at));
        }
        assert(occurs_in(all[0], pattern));
    } else if at > end {
        let rest = text.skip(end + 1);
        assert(rest.subrange(at - end - 1, at - end - 1 + m) =~= text.subrange(at, at + m));
        assert(occurs_at(rest, pattern, at - end - 1));
        lemma_pattern_stands_in_a_line(rest, pattern, at - end - 1);
        let i = choose|i: int|
            0 <= i < lines_of(rest).len() && occurs_in(#[trigger] lines_of(rest)[i], pattern);
        assert(all[i + 1] == lines_of(rest)[i]);
    } else {
        assert(text.subrange(at, at + m)[end - at] == text[end]);
        assert(pattern[end - at] == '\n');
    }
}

/// A search with regard to case finds a pattern that is there: where a
/// pattern without line feed and carriage return stands in the text, at
/// least one line is returned.
pub proof fn lemma_present_pattern_is_found(pattern: Seq<char>, text: Seq<char>)
    requires
        pattern.len() > 0,
        occurs_in(text, pattern),
        forall|j: int| 0 <= j < pattern.len() ==> pattern[j] != '\n' && pattern[j] != '\r',
    ensures
        matching_lines(pattern, text, true).len() > 0,
{
    let at = choose|at: int| occurs_at(text, pattern, at);
    lemma_pattern_stands_in_a_line(text, pattern, at);
    let all = lines_of(text);
    let i = choose|i: int| 0 <= i < all.len() && occurs_in(#[trigger] all[i], pattern);
    all.lemma_filter_contains(holds(pattern), i);
}

/// The lines that a search returns are the lines of the text that hold the
/// pattern, and no others.
pub proof fn lemma_found_lines_hold_pattern(
    pattern: Seq<char>,
    text: Seq<char>,
    case_sensitive: bool,
    line: Seq<char>,
)
    ensures
        matching_lines(pattern, text, case_sensitive).contains(line) <==> lines_of(text).contains(
            line,
        ) && if case_sensitive {
            occurs_in(line, pattern)
        } else {
            occurs_in(lowercase_of(line), lowercase_of(pattern))
        },
{
    let all = lines_of(text);
    let test = if case_sensitive {
        holds(pattern)
    } else {
        holds_folded(pattern)
    };
    let found = all.filter(test);
    if found.contains(line) {
        let k = choose|k: int| 0 <= k < found.len() && found[k] == line;
        all.lemma_filter_pred(test, k);
        all.lemma_filter_contains_rev(test, line);
    }
    if all.contains(line) && test(line) {
        let i = choose|i: int| 0 <= i < all.len() && all[i] == line;
        all.lemma_filter_contains(test, i);
    }
}

/// Whether `needle` stands somewhere in `hay`.
pub fn contains_str(hay: &str, needle: &str) -> (found: bool)
    ensures
        found == occurs_in(hay@, needle@),
{
    proof {
        lemma_occurs_in_bytes(hay@, needle@);
    }
    contains_bytes(hay.as_bytes(), needle.as_bytes())
}

/// The lines of `content` that hold `pattern` as it is written.
pub fn search_case_sensitive<'a>(pattern: &str, content: &'a str) -> (found: Vec<&'a str>)
    ensures
        texts(found@) == matching_lines(pattern@, content@, true),
{
    let all = lines(content);
    let mut found: Vec<&'a str> = Vec::new();
    let mut i: usize = 0;
    proof {
        reveal(Seq::filter);
        assert(texts(all@).take(0) =~= Seq::empty());
        assert(texts(found@) =~= Seq::empty());
    }
    while i < all.len()
        invariant
            i <= all.len(),
            texts(found@) == texts(all@).take(i as int).filter(holds(pattern@)),
        decreases all.len() - i,
    {
        let line: &'a str = all[i];
        let kept = contains_str(line, pattern);
        proof {
            let seen = texts(all@).take(i as int);
            assert(texts(all@).take(i + 1) =~= seen.push(line@));
            seen.lemma_filter_push(line@, holds(pattern@));
            assert(texts(found@.push(line)) =~= texts(found@).push(line@));
        }
        if kept {
            found.push(line);
        }
        i += 1;
    }
    proof {
        assert(texts(all@).take(all.len() as int) =~= texts(all@));
    }
    found
}

/// The lines of `content` whose lowercase form holds the lowercase form of
/// `pattern`.
pub fn search_case_insensitive<'a>(pattern: &str, content: &'a str) -> (found: Vec<&'a str>)
    ensures
        texts(found@) == matching_lines(pattern@, content@, false),
{
    let folded_pattern = pattern.to_lowercase();
    let all = lines(content);
    let mut found: Vec<&'a str> = Vec::new();
    let mut i: usize = 0;
    proof {
        reveal(Seq::filter);
        assert(texts(all@).take(0) =~= Seq::empty());
        assert(texts(found@) =~= Seq::empty());
    }
    while i < all.len()
        invariant
            i <= all.len(),
            folded_pattern@ == lowercase_of(pattern@),
            texts(found@) == texts(all@).take(i as int).filter(holds_folded(pattern@)),
        decreases all.len() - i,
    {
        let line: &'a str = all[i];
        let folded_line = line.to_lowercase();
        let kept = contains_str(folded_line.as_str(), folded_pattern.as_str());
        proof {
            let seen = texts(all@).take(i as int);
            assert(texts(all@).take(i + 1) =~= seen.push(line@));
            seen.lemma_filter_push(line@, holds_folded(pattern@));
            assert(texts(found@.push(line)) =~= texts(found@).push(line@));
        }
        if kept {
            found.push(line);
        }
        i += 1;
    }
    proof {
        assert(texts(all@).take(all.len() as int) =~= texts(all@));
    }
    found
}

/// The lines of `text` that hold `pattern`, with regard to case or without.
pub fn find_matching_lines<'a>(pattern: &str, text: &'a str, case_sensitive: bool) -> (found: Vec<
    &'a str,
>)
    ensures
        texts(found@) == matching_lines(pattern@, text@, case_sensitive),
{
    if case_sensitive {
        search_case_sensitive(pattern, text)
    } else {
        search_case_insensitive(pattern, text)
    }
}

} // verus!
