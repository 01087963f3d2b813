//! The occurrences of a pattern in a line.

use vstd::prelude::*;
use vstd::utf8::*;
use vstd::string::*;
use crate::encoding::{lemma_occurrence_in_text, text_between};
use crate::fold::lowercase_of;
use crate::scan::find_from;
use crate::text::{
    lemma_scan_ends, lemma_scan_reports_occurrences, lemma_scan_skips, scan, scan_from,
};

verus! {

/// One occurrence of a pattern in a line: where it begins and how long it
/// is. Both count bytes of the UTF-8 text, as the indices of a `str` do.
#[derive(Clone, Copy, Debug, PartialEq, Eq, Structural)]
pub struct Occurrence {
    pub start: usize,
    pub length: usize,
}

/// The occurrences of the length `length` that begin at `offsets`.
pub open spec fn spans(offsets: Seq<int>, length: nat) -> Seq<Occurrence> {
    offsets.map_values(|at: int| Occurrence { start: at as usize, length: length as usize })
}

/// The occurrences of `pattern` in `line` that do not overlap, left to
/// right. The empty pattern has none.
pub open spec fn occurrences_of(line: Seq<char>, pattern: Seq<char>) -> Seq<Occurrence> {
    spans(scan(encode_utf8(line), encode_utf8(pattern)), encode_utf8(pattern).len())
}

/// The occurrences that are located for `pattern` in `line`: with regard to
/// case those of the pattern in the line, else those of the lowercase form
/// of the pattern in the lowercase form of the line.
pub open spec fn located(line: Seq<char>, pattern: Seq<char>, case_sensitive: bool) -> Seq<
    Occurrence,
> {
    if case_sensitive {
        occurrences_of(line, pattern)
    } else {
        occurrences_of(lowercase_of(line), lowercase_of(pattern))
    }
}

/// Whether `occ` begins and ends on character boundaries of `line`, so that
/// the line can be cut there. Then it ends within the line.
pub open spec fn fits(line: Seq<char>, occ: Occurrence) -> bool {
    &&& is_char_boundary(encode_utf8(line), occ.start as int)
    &&& is_char_boundary(encode_utf8(line), occ.start + occ.length)
}

/// Whether every one of `occs` fits `line`.
pub open spec fn all_fit(line: Seq<char>, occs: Seq<Occurrence>) -> bool {
    forall|k: int| 0 <= k < occs.len() ==> fits(line, #[trigger] occs[k])
}

/// An occurrence of a pattern in a line fits that line, has the pattern's
/// length, and the text of the line in it is the pattern.
pub proof fn lemma_occurrence_holds_pattern(line: Seq<char>, pattern: Seq<char>, k: int)
    requires
        encode_utf8(line).len() <= usize::MAX,
        0 <= k < occurrences_of(line, pattern).len(),
    ensures
        fits(line, occurrences_of(line, pattern)[k]),
        occurrences_of(line, pattern)[k].length == encode_utf8(pattern).len(),
        text_between(
            line,
            occurrences_of(line, pattern)[k].start as int,
            occurrences_of(line, pattern)[k].start + occurrences_of(line, pattern)[k].length,
        ) == pattern,
{
    let bytes = encode_utf8(line);
    let word = encode_utf8(pattern);
    lemma_scan_reports_occurrences(bytes, word, 0, k);
    let at = scan(bytes, word)[k];
    lemma_occurrence_in_text(line, pattern, at);
    assert(bytes.subrange(at, at + word.len()) == word);
    encode_utf8_decode_utf8(pattern);
}

/// The occurrences of `needle` in `hay` that do not overlap, left to right.
pub fn occurrences_in(hay: &str, needle: &str) -> (found: Vec<Occurrence>)
    ensures
        found@ == occurrences_of(hay@, needle@),
        all_fit(hay@, found@),
{
    let bytes = hay.as_bytes();
    let word = needle.as_bytes();
    let length: usize = word.len();
    let total: usize = bytes.len();
    let mut found: Vec<Occurrence> = Vec::new();
    proof {
        assert forall|k: int| 0 <= k < occurrences_of(hay@, needle@).len() implies fits(
            hay@,
            #[trigger] occurrences_of(hay@, needle@)[k],
        ) by {
            lemma_occurrence_holds_pattern(hay@, needle@, k);
        }
    }
    if length == 0 {
        assert(found@ =~= occurrences_of(hay@, needle@));
        return found;
    }
    let mut from: usize = 0;
    assert(found@ + spans(scan_from(bytes@, word@, 0), length as nat) =~= occurrences_of(
        hay@,
        needle@,
    ));
    loop
        invariant
            length == word@.len(),
            length > 0,
            bytes@ == encode_utf8(hay@),
            word@ == encode_utf8(needle@),
            total == bytes@.len(),
            from <= total,
            all_fit(hay@, occurrences_of(hay@, needle@)),
            occurrences_of(hay@, needle@) == found@ + spans(
                scan_from(bytes@, word@, from as int),
                length as nat,
            ),
        decreases total - from,
    {
        match find_from(bytes, word, from) {
            Some(at) => {
                proof {
                    lemma_scan_skips(bytes@, word@, from as int, at as int);
                    let behind = scan_from(bytes@, word@, at + length);
                    assert(scan_from(bytes@, word@, at as int) == seq![at as int] + behind);
                    assert(spans(seq![at as int] + behind, length as nat) =~= seq![
                        Occurrence { start: at, length },
                    ] + spans(behind, length as nat));
                    assert(found@.push(Occurrence { start: at, length }) + spans(
                        behind,
                        length as nat,
                    ) =~= occurrences_of(hay@, needle@));
                }
                found.push(Occurrence { start: at, length });
                from = at + length;
            },
            None => {
                proof {
                    lemma_scan_ends(bytes@, word@, from as int);
                    assert(found@ =~= occurrences_of(hay@, needle@));
                }
                return found;
            },
        }
    }
}

/// The occurrences of `pattern` in `line`, with regard to case or without.
pub fn locate_occurrences(line: &str, pattern: &str, case_sensitive: bool) -> (found: Vec<
    Occurrence,
>)
    ensures
        found@ == located(line@, pattern@, case_sensitive),
        case_sensitive ==> all_fit(line@, found@),
{
    if case_sensitive {
        occurrences_in(line, pattern)
    } else {
        let folded_line = line.to_lowercase();
        let folded_pattern = pattern.to_lowercase();
        occurrences_in(folded_line.as_str(), folded_pattern.as_str())
    }
}

} // verus!
