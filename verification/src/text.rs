//! Patterns in sequences: where a pattern stands, and what a forward scan
//! reports. The definitions hold for any element type, so that the same
//! words describe a text by its characters and by its bytes.

use vstd::prelude::*;

verus! {

/// `needle` stands in `hay` at offset `at`.
pub open spec fn occurs_at<T>(hay: Seq<T>, needle: Seq<T>, at: int) -> bool {
    &&& 0 <= at
    &&& at + needle.len() <= hay.len()
    &&& hay.subrange(at, at + needle.len()) == needle
}

/// `needle` stands somewhere in `hay`. The empty pattern stands everywhere.
pub open spec fn occurs_in<T>(hay: Seq<T>, needle: Seq<T>) -> bool {
    exists|at: int| occurs_at(hay, needle, at)
}

/// The offsets that a forward scan of `hay` reports from `from` on: the
/// leftmost occurrence of `needle`, then the leftmost one that begins behind
/// it, and so on. The empty pattern is reported nowhere.
pub open spec fn scan_from<T>(hay: Seq<T>, needle: Seq<T>, from: int) -> Seq<int>
    decreases hay.len() - from,
{
    if needle.len() == 0 || from < 0 || from + needle.len() > hay.len() {
        Seq::empty()
    } else if occurs_at(hay, needle, from) {
        seq![from] + scan_from(hay, needle, from + needle.len())
    } else {
        scan_from(hay, needle, from + 1)
    }
}

/// The offsets of the occurrences of `needle` in `hay` that do not overlap,
/// left to right.
pub open spec fn scan<T>(hay: Seq<T>, needle: Seq<T>) -> Seq<int> {
    scan_from(hay, needle, 0)
}

/// A scan passes over the offsets at which the pattern does not stand.
pub proof fn lemma_scan_skips<T>(hay: Seq<T>, needle: Seq<T>, from: int, at: int)
    requires
        0 <= from <= at,
        needle.len() > 0,
        at + needle.len() <= hay.len(),
        forall|j: int| from <= j < at ==> !occurs_at(hay, needle, j),
    ensures
        scan_from(hay, needle, from) == scan_from(hay, needle, at),
    decreases at - from,
{
    if from < at {
        lemma_scan_skips(hay, needle, from + 1, at);
    }
}

/// A scan reports nothing where the pattern stands nowhere any more.
pub proof fn lemma_scan_ends<T>(hay: Seq<T>, needle: Seq<T>, from: int)
    requires
        0 <= from,
        forall|j: int| from <= j ==> !occurs_at(hay, needle, j),
    ensures
        scan_from(hay, needle, from) == Seq::<int>::empty(),
    decreases hay.len() - from,
{
    if needle.len() > 0 && from + needle.len() <= hay.len() {
        lemma_scan_ends(hay, needle, from + 1);
    }
}

/// Every offset that a scan reports is one at which the pattern stands, at
/// or behind the offset at which the scan began.
pub proof fn lemma_scan_reports_occurrences<T>(hay: Seq<T>, needle: Seq<T>, from: int, k: int)
    requires
        0 <= from,
        0 <= k < scan_from(hay, needle, from).len(),
    ensures
        from <= scan_from(hay, needle, from)[k],
        occurs_at(hay, needle, scan_from(hay, needle, from)[k]),
        needle.len() > 0,
    decreases hay.len() - from,
{
    if needle.len() == 0 || from + needle.len() > hay.len() {
    } else if occurs_at(hay, needle, from) {
        if k > 0 {
            lemma_scan_reports_occurrences(hay, needle, from + needle.len(), k - 1);
        }
    } else {
        lemma_scan_reports_occurrences(hay, needle, from + 1, k);
    }
}

/// The occurrences that a scan reports do not overlap: each begins where
/// the one before it has ended, or behind that.
pub proof fn lemma_scan_reports_apart<T>(hay: Seq<T>, needle: Seq<T>, from: int, i: int, j: int)
    requires
        0 <= from,
        0 <= i < j < scan_from(hay, needle, from).len(),
    ensures
        scan_from(hay, needle, from)[i] + needle.len() <= scan_from(hay, needle, from)[j],
    decreases hay.len() - from,
{
    if needle.len() == 0 || from + needle.len() > hay.len() {
    } else if occurs_at(hay, needle, from) {
        if i > 0 {
            lemma_scan_reports_apart(hay, needle, from + needle.len(), i - 1, j - 1);
        } else {
            lemma_scan_reports_occurrences(hay, needle, from + needle.len(), j - 1);
        }
    } else {
        lemma_scan_reports_apart(hay, needle, from + 1, i, j);
    }
}

/// A scan leaves out no occurrence but one that overlaps an occurrence that
/// it reports: where the pattern stands at `at`, the scan reports an offset
/// that is at most `at` and less than a pattern's length before it.
pub proof fn lemma_scan_misses_nothing<T>(hay: Seq<T>, needle: Seq<T>, from: int, at: int)
    requires
        0 <= from <= at,
        needle.len() > 0,
        occurs_at(hay, needle, at),
    ensures
        exists|k: int|
            0 <= k < scan_from(hay, needle, from).len() && at - needle.len() < (
            #[trigger] scan_from(hay, needle, from)[k]) <= at,
    decreases hay.len() - from,
{
    let here = scan_from(hay, needle, from);
    if occurs_at(hay, needle, from) {
        if at < from + needle.len() {
            assert(here[0] == from);
        } else {
            lemma_scan_misses_nothing(hay, needle, from + needle.len(), at);
            let behind = scan_from(hay, needle, from + needle.len());
            let k = choose|k: int|
                0 <= k < behind.len() && at - needle.len() < (#[trigger] behind[k]) <= at;
            assert(here[k + 1] == behind[k]);
        }
    } else {
        lemma_scan_misses_nothing(hay, needle, from + 1, at);
    }
}

} // verus!
