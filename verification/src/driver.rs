//! The search of one extracted document.

use vstd::prelude::*;
use vstd::string::*;
use crate::cli::Cli;
use crate::lines::texts;
use crate::matcher::{find_matching_lines, matching_lines};
use crate::normalize::{normalize, normalized};
use crate::occurrence::{fits, locate_occurrences, located, Occurrence};
use crate::paint::color_off;
use crate::report::{
    highlights_sensitively, is_hit_line, lemma_hit_is_plain_or_red, plain_hit, red_hit, show_hit,
    text_within,
};
use crate::text::occurs_in;

verus! {

/// The text that was extracted from one file, with the path of that file.
#[derive(Debug)]
pub struct ExtractedDocument {
    pub path: String,
    pub text: String,
}

/// The occurrences that are reported for `lines`, each with its line: those
/// of the first line in their order, then those of the second, and so on.
pub open spec fn hits(lines: Seq<Seq<char>>, pattern: Seq<char>, case_sensitive: bool) -> Seq<
    (Seq<char>, Occurrence),
>
    decreases lines.len(),
{
    if lines.len() == 0 {
        Seq::empty()
    } else {
        hits(lines.drop_last(), pattern, case_sensitive) + located(
            lines.last(),
            pattern,
            case_sensitive,
        ).map_values(|occ: Occurrence| (lines.last(), occ))
    }
}

/// The occurrences that a search of `text` under the request `cli` reports:
/// the pattern is normalized, the lines that hold it are found under the
/// request's regard to case, and in each of them the occurrences are
/// located.
pub open spec fn search_hits(cli: Cli, text: Seq<char>) -> Seq<(Seq<char>, Occurrence)> {
    hits(
        matching_lines(normalized(cli.pattern@, cli.english), text, cli.sensitive),
        normalized(cli.pattern@, cli.english),
        highlights_sensitively(cli),
    )
}

/// Whether every one of `found` fits its line.
pub open spec fn all_hits_fit(found: Seq<(Seq<char>, Occurrence)>) -> bool {
    forall|k: int| 0 <= k < found.len() ==> fits((#[trigger] found[k]).0, found[k].1)
}

/// Whether `out` reports `found` for the document at `path`, one line for
/// each occurrence, in their order.
pub open spec fn is_document_report(
    out: Seq<String>,
    path: Seq<char>,
    found: Seq<(Seq<char>, Occurrence)>,
) -> bool {
    &&& out.len() == found.len()
    &&& forall|k: int|
        0 <= k < out.len() ==> is_hit_line(#[trigger] out[k]@, path, found[k].0, found[k].1)
}

/// One occurrence that a search reports: the line, a slice of the
/// document's text, and the place of the occurrence in it.
#[derive(Clone, Copy, Debug)]
pub struct Hit<'a> {
    pub line: &'a str,
    pub span: Occurrence,
}

/// The lines and occurrences that a row of hits stands for.
pub open spec fn hit_views(found: Seq<Hit>) -> Seq<(Seq<char>, Occurrence)> {
    found.map_values(|hit: Hit| (hit.line@, hit.span))
}

/// The occurrences that a search of `text` under the request `cli` reports,
/// each with its line.
pub fn find_hits<'a>(cli: &Cli, text: &'a str) -> (found: Vec<Hit<'a>>)
    ensures
        hit_views(found@) == search_hits(*cli, text@),
{
    let pattern = normalize(cli.pattern.as_str(), cli.english);
    let matching = find_matching_lines(pattern.as_str(), text, cli.sensitive);
    let sensitively = !cli.english || cli.sensitive;
    let mut found: Vec<Hit<'a>> = Vec::new();
    let mut i: usize = 0;
    assert(hit_views(found@) =~= hits(texts(matching@).take(0), pattern@, sensitively));
    while i < matching.len()
        invariant
            i <= matching.len(),
            hit_views(found@) == hits(texts(matching@).take(i as int), pattern@, sensitively),
        decreases matching.len() - i,
    {
        let line: &'a str = matching[i];
        let occs = locate_occurrences(line, pattern.as_str(), sensitively);
        let ghost before = hit_views(found@);
        let ghost here = occs@.map_values(|occ: Occurrence| (line@, occ));
        proof {
            let seen = texts(matching@).take(i + 1);
            assert(seen.drop_last() =~= texts(matching@).take(i as int));
            assert(seen.last() == line@);
            assert(hits(seen, pattern@, sensitively) == before + here);
        }
        let mut j: usize = 0;
        assert(hit_views(found@) =~= before + here.take(0));
        while j < occs.len()
            invariant
                j <= occs.len(),
                here == occs@.map_values(|occ: Occurrence| (line@, occ)),
                hit_views(found@) == before + here.take(j as int),
            decreases occs.len() - j,
        {
            let hit = Hit { line, span: occs[j] };
            proof {
                assert(hit_views(found@.push(hit)) =~= hit_views(found@).push((line@, occs@[j as int])));
                assert(here.take(j + 1) =~= here.take(j as int).push(here[j as int]));
                assert(before + here.take(j + 1) =~= (before + here.take(j as int)).push(
                    here[j as int],
                ));
            }
            found.push(hit);
            j += 1;
        }
        proof {
            assert(here.take(occs.len() as int) =~= here);
        }
        i += 1;
    }
    proof {
        assert(texts(matching@).take(matching.len() as int) =~= texts(matching@));
    }
    found
}

/// The lines that are printed for `document` under the request `cli`, each
/// `<path>: <line>` with one occurrence in red. There is no report where an
/// occurrence that was located without regard to case does not fit its
/// line.
pub fn search_file(cli: &Cli, document: &ExtractedDocument) -> (shown: Option<Vec<String>>)
    ensures
        shown is Some <==> all_hits_fit(search_hits(*cli, document.text@)),
        shown matches Some(out) ==> is_document_report(
            out@,
            document.path@,
            search_hits(*cli, document.text@),
        ),
{
    let found = find_hits(cli, document.text.as_str());
    let mut out: Vec<String> = Vec::new();
    let mut i: usize = 0;
    while i < found.len()
        invariant
            i <= found.len(),
            out@.len() == i,
            hit_views(found@) == search_hits(*cli, document.text@),
            forall|k: int| 0 <= k < i ==> fits((#[trigger] hit_views(found@)[k]).0, hit_views(found@)[k].1),
            forall|k: int|
                0 <= k < i ==> is_hit_line(
                    #[trigger] out@[k]@,
                    document.path@,
                    hit_views(found@)[k].0,
                    hit_views(found@)[k].1,
                ),
        decreases found.len() - i,
    {
        let hit = found[i];
        assert(hit_views(found@)[i as int] == (hit.line@, hit.span));
        match show_hit(document.path.as_str(), hit.line, hit.span) {
            None => {
                return None;
            },
            Some(shown) => {
                out.push(shown);
            },
        }
        i += 1;
    }
    Some(out)
}

/// Two searches of one text under one request report the same occurrences
/// of the same lines, in the same order: a search keeps no state.
pub proof fn lemma_search_is_repeatable(cli: Cli, text: Seq<char>, first: Seq<Hit>, second: Seq<Hit>)
    requires
        hit_views(first) == search_hits(cli, text),
        hit_views(second) == search_hits(cli, text),
    ensures
        first.len() == second.len(),
        forall|k: int|
            0 <= k < first.len() ==> (#[trigger] first[k]).line@ == second[k].line@ && first[k].span
                == second[k].span,
{
    assert(hit_views(first).len() == first.len());
    assert(hit_views(second).len() == second.len());
    assert forall|k: int| 0 <= k < first.len() implies (#[trigger] first[k]).line@
        == second[k].line@ && first[k].span == second[k].span by {
        assert(hit_views(first)[k] == hit_views(second)[k]);
    }
}

/// Two reports of the same occurrences differ in colour only: a line of
/// the one is the line of the other, or one of the two is plain and the
/// other has the matched span between the sequence for red and the reset
/// sequence. This is said of matched spans that hold no reset sequence.
pub proof fn lemma_reports_differ_in_colour_only(
    first: Seq<String>,
    second: Seq<String>,
    path: Seq<char>,
    found: Seq<(Seq<char>, Occurrence)>,
    k: int,
)
    requires
        is_document_report(first, path, found),
        is_document_report(second, path, found),
        0 <= k < found.len(),
        !occurs_in(text_within(found[k].0, found[k].1), color_off()),
    ensures
        first.len() == second.len(),
        first[k]@ == plain_hit(path, found[k].0, found[k].1) || first[k]@ == red_hit(
            path,
            found[k].0,
            found[k].1,
        ),
        second[k]@ == plain_hit(path, found[k].0, found[k].1) || second[k]@ == red_hit(
            path,
            found[k].0,
            found[k].1,
        ),
{
    lemma_hit_is_plain_or_red(first[k]@, path, found[k].0, found[k].1);
    lemma_hit_is_plain_or_red(second[k]@, path, found[k].0, found[k].1);
}

} // verus!
