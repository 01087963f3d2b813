//! The lines that are reported for a matching line: one for each occurrence
//! of the pattern, with the path of the document before it.

use vstd::prelude::*;
use vstd::utf8::*;
use vstd::string::*;
use vstd::pervasive::unreached;
use crate::cli::Cli;
use crate::encoding::{lemma_split_text, text_between};
use crate::fold::lowercase_of;
use crate::occurrence::{all_fit, fits, located, occurrences_in, occurrences_of, Occurrence};
use crate::paint::{color_off, paint_red, red_on, shows_in_red};
use crate::text::occurs_in;

verus! {

/// A line cut at an occurrence: the text before it, the matched span and
/// the text after it, each a slice of the line.
#[derive(Clone, Copy, Debug)]
pub struct Segments<'a> {
    pub before: &'a str,
    pub matched: &'a str,
    pub after: &'a str,
}

/// The text of `line` before `occ`.
pub open spec fn text_before(line: Seq<char>, occ: Occurrence) -> Seq<char> {
    text_between(line, 0, occ.start as int)
}

/// The text of `line` within `occ`.
pub open spec fn text_within(line: Seq<char>, occ: Occurrence) -> Seq<char> {
    text_between(line, occ.start as int, occ.start + occ.length)
}

/// The text of `line` after `occ`.
pub open spec fn text_after(line: Seq<char>, occ: Occurrence) -> Seq<char> {
    text_between(line, occ.start + occ.length, encode_utf8(line).len() as int)
}

/// A reported line: the path, a colon and a space, then the three segments
/// of the line, the middle one as it is shown.
pub open spec fn hit_line(
    path: Seq<char>,
    before: Seq<char>,
    shown: Seq<char>,
    after: Seq<char>,
) -> Seq<char> {
    path + seq![':', ' '] + before + shown + after
}

/// Whether `out` reports the occurrence `occ` in `line`: it is the path and
/// the line, with the matched span shown in red in one of the ways in which
/// that can come out.
pub open spec fn is_hit_line(
    out: Seq<char>,
    path: Seq<char>,
    line: Seq<char>,
    occ: Occurrence,
) -> bool {
    exists|shown: Seq<char>| #[trigger]
        shows_in_red(text_within(line, occ), shown) && out == hit_line(
            path,
            text_before(line, occ),
            shown,
            text_after(line, occ),
        )
}

/// The line that reports `occ` in `line` where colours are off.
pub open spec fn plain_hit(path: Seq<char>, line: Seq<char>, occ: Occurrence) -> Seq<char> {
    hit_line(path, text_before(line, occ), text_within(line, occ), text_after(line, occ))
}

/// The line that reports `occ` in `line` where colours are on, if the
/// matched span holds no reset sequence.
pub open spec fn red_hit(path: Seq<char>, line: Seq<char>, occ: Occurrence) -> Seq<char> {
    hit_line(
        path,
        text_before(line, occ),
        red_on() + text_within(line, occ) + color_off(),
        text_after(line, occ),
    )
}

/// A line that reports an occurrence whose text holds no reset sequence is
/// the plain line or the red one.
pub proof fn lemma_hit_is_plain_or_red(
    out: Seq<char>,
    path: Seq<char>,
    line: Seq<char>,
    occ: Occurrence,
)
    requires
        is_hit_line(out, path, line, occ),
        !occurs_in(text_within(line, occ), color_off()),
    ensures
        out == plain_hit(path, line, occ) || out == red_hit(path, line, occ),
{
}

/// Where colours are off, the line that reports an occurrence that fits
/// its line is the path, a colon, a space and the line.
pub proof fn lemma_plain_hit_is_the_line(path: Seq<char>, line: Seq<char>, occ: Occurrence)
    requires
        fits(line, occ),
    ensures
        plain_hit(path, line, occ) == path + seq![':', ' '] + line,
{
    lemma_segments_make_the_line(line, occ);
    assert(plain_hit(path, line, occ) =~= path + seq![':', ' '] + (text_before(line, occ)
        + text_within(line, occ) + text_after(line, occ)));
}

/// Whether `out` reports the occurrences `occs` in `line`, one line for
/// each, in their order.
pub open spec fn is_report(
    out: Seq<String>,
    path: Seq<char>,
    line: Seq<char>,
    occs: Seq<Occurrence>,
) -> bool {
    &&& out.len() == occs.len()
    &&& forall|k: int| 0 <= k < out.len() ==> is_hit_line(#[trigger] out[k]@, path, line, occs[k])
}

/// Behind a character boundary, an offset is a boundary of the whole bytes
/// exactly if it is one of the bytes from that boundary on.
pub proof fn lemma_boundary_behind(bytes: Seq<u8>, from: int, to: int)
    requires
        valid_utf8(bytes),
        is_char_boundary(bytes, from),
        from <= to,
    ensures
        0 <= from <= bytes.len(),
        is_char_boundary(bytes, to) <==> is_char_boundary(
            bytes.subrange(from, bytes.len() as int),
            to - from,
        ),
{
    let tail = bytes.subrange(from, bytes.len() as int);
    valid_utf8_split(bytes, from);
    if to < bytes.len() {
        is_char_boundary_iff_not_is_continuation_byte(bytes, to);
        is_char_boundary_iff_not_is_continuation_byte(tail, to - from);
    } else {
        is_char_boundary_start_end_of_seq(bytes);
        is_char_boundary_start_end_of_seq(tail);
    }
}

/// The three segments of a line around an occurrence that fits it make up
/// the line.
pub proof fn lemma_segments_make_the_line(line: Seq<char>, occ: Occurrence)
    requires
        fits(line, occ),
    ensures
        text_before(line, occ) + text_within(line, occ) + text_after(line, occ) == line,
{
    let bytes = encode_utf8(line);
    let start = occ.start as int;
    let end = occ.start + occ.length;
    let tail = bytes.subrange(start, bytes.len() as int);
    encode_utf8_valid_utf8(line);
    encode_utf8_decode_utf8(line);
    lemma_boundary_behind(bytes, start, end);
    valid_utf8_split(bytes, start);
    decode_utf8_split(bytes, start);
    decode_utf8_split(tail, end - start);
    assert(tail.subrange(0, end - start) =~= bytes.subrange(start, end));
    assert(tail.subrange(end - start, tail.len() as int) =~= bytes.subrange(
        end,
        bytes.len() as int,
    ));
    assert(decode_utf8(bytes) =~= text_before(line, occ) + text_within(line, occ) + text_after(
        line,
        occ,
    ));
}

/// The segments of `line` around `occ`, where `occ` fits the line.
pub fn split_occurrence<'a>(line: &'a str, occ: Occurrence) -> (parts: Option<Segments<'a>>)
    ensures
        parts is Some <==> fits(line@, occ),
        parts matches Some(p) ==> {
            &&& p.before@ == text_before(line@, occ)
            &&& p.matched@ == text_within(line@, occ)
            &&& p.after@ == text_after(line@, occ)
            &&& line@ == p.before@ + p.matched@ + p.after@
        },
{
    let total: usize = line.as_bytes().len();
    proof {
        encode_utf8_valid_utf8(line@);
    }
    let end: usize = match occ.start.checked_add(occ.length) {
        Some(end) => end,
        None => {
            return None;
        },
    };
    if end > total || !line.is_char_boundary(occ.start) || !line.is_char_boundary(end) {
        return None;
    }
    let (before, rest) = line.split_at(occ.start);
    proof {
        lemma_boundary_behind(line.spec_bytes(), occ.start as int, end as int);
    }
    let (matched, after) = rest.split_at(occ.length);
    proof {
        let bytes = line.spec_bytes();
        assert(matched.spec_bytes() =~= bytes.subrange(occ.start as int, end as int));
        assert(after.spec_bytes() =~= bytes.subrange(end as int, bytes.len() as int));
        encode_utf8_decode_utf8(before@);
        encode_utf8_decode_utf8(matched@);
        encode_utf8_decode_utf8(after@);
        lemma_split_text(line@, before@, rest@, occ.start as int);
        lemma_split_text(rest@, matched@, after@, occ.length as int);
        assert(line@ =~= before@ + matched@ + after@);
    }
    Some(Segments { before, matched, after })
}

/// The reported line for a path and the segments of a line, the matched
/// span given as it is to be shown.
pub fn format_hit(path: &str, before: &str, shown: &str, after: &str) -> (out: String)
    ensures
        out@ == hit_line(path@, before@, shown@, after@),
{
    let mut out = String::from_str(path);
    proof {
        reveal_strlit(": ");
        assert(": "@ =~= seq![':', ' ']);
    }
    out.append(": ");
    out.append(before);
    out.append(shown);
    out.append(after);
    out
}

/// The line that reports `occ` in `line`: the line with that occurrence in
/// red, behind `path`. There is none where `occ` does not fit the line.
pub fn show_hit(path: &str, line: &str, occ: Occurrence) -> (shown: Option<String>)
    ensures
        shown is Some <==> fits(line@, occ),
        shown matches Some(out) ==> is_hit_line(out@, path@, line@, occ),
{
    match split_occurrence(line, occ) {
        None => None,
        Some(parts) => {
            let painted = paint_red(parts.matched);
            let hit = format_hit(path, parts.before, painted.as_str(), parts.after);
            assert(shows_in_red(text_within(line@, occ), painted@));
            Some(hit)
        },
    }
}

/// The lines that report `occs` in `line`, one for each: the line with that
/// occurrence in red, behind `path`. There is no report where one of them
/// does not fit the line.
pub fn show_occurrences(path: &str, line: &str, occs: &Vec<Occurrence>) -> (shown: Option<
    Vec<String>,
>)
    ensures
        shown is Some <==> all_fit(line@, occs@),
        shown matches Some(out) ==> is_report(out@, path@, line@, occs@),
{
    let mut out: Vec<String> = Vec::new();
    let mut i: usize = 0;
    while i < occs.len()
        invariant
            i <= occs.len(),
            is_report(out@, path@, line@, occs@.take(i as int)),
            all_fit(line@, occs@.take(i as int)),
        decreases occs.len() - i,
    {
        let occ = occs[i];
        match show_hit(path, line, occ) {
            None => {
                return None;
            },
            Some(hit) => {
                proof {
                    assert(occs@.take(i + 1) =~= occs@.take(i as int).push(occ));
                }
                out.push(hit);
            },
        }
        i += 1;
    }
    proof {
        assert(occs@.take(occs.len() as int) =~= occs@);
    }
    Some(out)
}

/// The lines reported for `line`: one for each occurrence of `pattern` as
/// it is written, with that occurrence in red.
pub fn print_pattern_sensitive(path: &str, pattern: &str, line: &str) -> (out: Vec<String>)
    ensures
        is_report(out@, path@, line@, occurrences_of(line@, pattern@)),
        all_fit(line@, occurrences_of(line@, pattern@)),
{
    let occs = occurrences_in(line, pattern);
    match show_occurrences(path, line, &occs) {
        Some(out) => out,
        None => unreached(),
    }
}

/// The lines reported for `line` without regard to case: one for each
/// occurrence of the lowercase form of `pattern` in the lowercase form of
/// the line, with the text of the line at that place in red. There is no
/// report where the two forms of the line differ so that such a place does
/// not lie between character boundaries of the line.
pub fn print_pattern_insensitive(path: &str, pattern: &str, line: &str) -> (shown: Option<
    Vec<String>,
>)
    ensures
        shown is Some <==> all_fit(
            line@,
            occurrences_of(lowercase_of(line@), lowercase_of(pattern@)),
        ),
        shown matches Some(out) ==> is_report(
            out@,
            path@,
            line@,
            occurrences_of(lowercase_of(line@), lowercase_of(pattern@)),
        ),
{
    let folded_pattern = pattern.to_lowercase();
    let folded_line = line.to_lowercase();
    let occs = occurrences_in(folded_line.as_str(), folded_pattern.as_str());
    show_occurrences(path, line, &occs)
}

/// Whether the occurrences in a line are located with regard to case for
/// this request: always, but for an English search without regard to case.
pub open spec fn highlights_sensitively(cli: Cli) -> bool {
    !cli.english || cli.sensitive
}

/// The lines reported for `line` under the request `cli`: those for the
/// occurrences of `pattern` as it is written, unless the request is an
/// English search without regard to case, which reports the occurrences of
/// the lowercase forms.
pub fn print_pattern(path: &str, pattern: &str, line: &str, cli: &Cli) -> (shown: Option<
    Vec<String>,
>)
    ensures
        shown is Some <==> all_fit(
            line@,
            located(line@, pattern@, highlights_sensitively(*cli)),
        ),
        shown matches Some(out) ==> is_report(
            out@,
            path@,
            line@,
            located(line@, pattern@, highlights_sensitively(*cli)),
        ),
{
    if !cli.english || cli.sensitive {
        Some(print_pattern_sensitive(path, pattern, line))
    } else {
        print_pattern_insensitive(path, pattern, line)
    }
}

} // verus!
