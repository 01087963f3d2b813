//! The lines of a text.

use vstd::prelude::*;
use vstd::utf8::*;
use vstd::string::*;
use crate::encoding::{
    lemma_ascii_byte_is_char, lemma_ascii_char_is_byte, lemma_no_bytes_no_text, lemma_split_text,
};

verus! {

/// The offset of the first line feed of `text`, or its length where it has
/// none.
pub open spec fn line_end(text: Seq<char>) -> nat
    decreases text.len(),
{
    if text.len() == 0 || text[0] == '\n' {
        0
    } else {
        1 + line_end(text.drop_first())
    }
}

/// `line` without the carriage return that it ends with, if it ends with one.
pub open spec fn without_cr(line: Seq<char>) -> Seq<char> {
    if line.len() > 0 && line.last() == '\r' {
        line.drop_last()
    } else {
        line
    }
}

/// The lines of `text`. A line ends with a line feed, or with a carriage
/// return and a line feed behind it; neither belongs to the line. What
/// stands behind the last line feed is a line too, whole, unless it is
/// empty: so a line ending at the end of the text opens no further line, and
/// the empty text has no line.
pub open spec fn lines_of(text: Seq<char>) -> Seq<Seq<char>>
    decreases text.len(),
{
    if text.len() == 0 {
        Seq::empty()
    } else if line_end(text) >= text.len() {
        seq![text]
    } else {
        seq![without_cr(text.take(line_end(text) as int))] + lines_of(
            text.skip(line_end(text) as int + 1),
        )
    }
}

/// The texts of a row of string slices.
pub open spec fn texts(lines: Seq<&str>) -> Seq<Seq<char>> {
    lines.map_values(|line: &str| line@)
}

/// The first line of a text ends where its first line feed stands.
pub proof fn lemma_line_end(text: Seq<char>, end: int)
    requires
        0 <= end <= text.len(),
        forall|j: int| 0 <= j < end ==> text[j] != '\n',
        end == text.len() || text[end] == '\n',
    ensures
        line_end(text) == end,
    decreases end,
{
    if end > 0 {
        lemma_line_end(text.drop_first(), end - 1);
    }
}

/// Before the end of the first line there is no line feed; at it there
/// stands one, or the text ends.
pub proof fn lemma_line_end_is_first_feed(text: Seq<char>)
    ensures
        line_end(text) <= text.len(),
        forall|j: int| 0 <= j < line_end(text) ==> text[j] != '\n',
        line_end(text) < text.len() ==> text[line_end(text) as int] == '\n',
    decreases text.len(),
{
    if text.len() > 0 && text[0] != '\n' {
        let rest = text.drop_first();
        lemma_line_end_is_first_feed(rest);
        assert forall|j: int| 0 <= j < line_end(text) implies text[j] != '\n' by {
            if j > 0 {
                assert(text[j] == rest[j - 1]);
            }
        }
    }
}

/// The offset of the first byte `byte` of `bytes`, or their number where
/// none of them is `byte`.
pub fn find_byte(bytes: &[u8], byte: u8) -> (at: usize)
    ensures
        at <= bytes@.len(),
        forall|j: int| 0 <= j < at ==> bytes@[j] != byte,
        at == bytes@.len() || bytes@[at as int] == byte,
{
    let mut at: usize = 0;
    while at < bytes.len() && bytes[at] != byte
        invariant
            at <= bytes@.len(),
            forall|j: int| 0 <= j < at ==> bytes@[j] != byte,
        decreases bytes@.len() - at,
    {
        at += 1;
    }
    at
}

/// A text among whose bytes there is no line feed has no line feed.
proof fn lemma_no_feed(text: Seq<char>)
    requires
        forall|j: int| 0 <= j < encode_utf8(text).len() ==> encode_utf8(text)[j] != 10u8,
    ensures
        forall|k: int| 0 <= k < text.len() ==> text[k] != '\n',
{
    assert forall|k: int| 0 <= k < text.len() implies text[k] != '\n' by {
        if text[k] == '\n' {
            lemma_ascii_char_is_byte(text, k);
            let at = encode_utf8(text.take(k)).len() as int;
            assert(encode_utf8(text)[at] == 10u8);
        }
    }
}

/// `line` without the carriage return that it ends with, if it ends with one.
pub fn strip_cr<'a>(line: &'a str) -> (kept: &'a str)
    ensures
        kept@ == without_cr(line@),
{
    let bytes = line.as_bytes();
    let n: usize = bytes.len();
    proof {
        encode_utf8_valid_utf8(line@);
    }
    if n > 0 && bytes[n - 1] == 13u8 {
        proof {
            is_char_boundary_iff_not_is_continuation_byte(bytes@, n - 1);
        }
        let (kept, cr) = line.split_at(n - 1);
        proof {
            assert(cr.spec_bytes() =~= seq![13u8]);
            lemma_ascii_byte_is_char(cr@, '\r');
            lemma_split_text(line@, kept@, cr@, n - 1);
            assert(line@.drop_last() =~= kept@);
        }
        kept
    } else {
        proof {
            if line@.len() > 0 && line@.last() == '\r' {
                lemma_ascii_char_is_byte(line@, line@.len() - 1);
                assert(line@.skip(line@.len() as int) =~= Seq::<char>::empty());
                assert(encode_utf8(line@.skip(line@.len() as int)) =~= Seq::<u8>::empty());
                assert(bytes@[n - 1] == 13u8);
            }
        }
        line
    }
}

/// The lines of `content`, each a slice of it, in their order.
pub fn lines<'a>(content: &'a str) -> (found: Vec<&'a str>)
    ensures
        texts(found@) == lines_of(content@),
{
    let mut found: Vec<&'a str> = Vec::new();
    let mut rest: &'a str = content;
    assert(texts(found@) + lines_of(rest@) =~= lines_of(content@));
    loop
        invariant
            lines_of(content@) == texts(found@) + lines_of(rest@),
        decreases rest.spec_bytes().len(),
    {
        let bytes = rest.as_bytes();
        let n: usize = bytes.len();
        let end: usize = find_byte(bytes, 10u8);
        proof {
            encode_utf8_valid_utf8(rest@);
            if n == 0 {
                lemma_no_bytes_no_text(rest@);
            }
        }
        if end == n {
            if n > 0 {
                proof {
                    lemma_no_feed(rest@);
                    lemma_line_end(rest@, rest@.len() as int);
                    assert(texts(found@.push(rest)) =~= texts(found@) + seq![rest@]);
                }
                found.push(rest);
            } else {
                assert(texts(found@) + lines_of(rest@) =~= texts(found@));
            }
            return found;
        }
        proof {
            is_char_boundary_iff_not_is_continuation_byte(bytes@, end as int);
        }
        let (line, tail) = rest.split_at(end);
        proof {
            encode_utf8_valid_utf8(tail@);
            reveal_with_fuel(is_char_boundary, 2);
            reveal_with_fuel(valid_utf8, 2);
            assert(tail.spec_bytes()[0] == 10u8);
            assert(is_char_boundary(tail.spec_bytes(), 1));
        }
        let (feed, next) = tail.split_at(1);
        let kept = strip_cr(line);
        proof {
            assert(feed.spec_bytes() =~= seq![10u8]);
            lemma_ascii_byte_is_char(feed@, '\n');
            lemma_split_text(rest@, line@, tail@, end as int);
            lemma_split_text(tail@, feed@, next@, 1);
            lemma_no_feed(line@);
            lemma_line_end(rest@, line@.len() as int);
            assert(rest@.take(line@.len() as int) =~= line@);
            assert(rest@.skip(line@.len() as int + 1) =~= next@);
            assert(texts(found@.push(kept)) =~= texts(found@) + seq![kept@]);
            assert(lines_of(rest@) =~= seq![kept@] + lines_of(next@));
        }
        found.push(kept);
        rest = next;
    }
}

} // verus!
