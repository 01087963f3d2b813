//! Texts and their UTF-8 bytes.
//!
//! A `&str` is searched by its bytes and described by its characters. The
//! lemmas here carry a statement from one to the other: an occurrence among
//! the bytes is an occurrence among the characters, and it begins and ends
//! on character boundaries.

use vstd::prelude::*;
use vstd::utf8::*;
use crate::text::{occurs_at, occurs_in};

verus! {

/// The text that the bytes of `text` from `from` up to `to` decode to.
pub open spec fn text_between(text: Seq<char>, from: int, to: int) -> Seq<char> {
    decode_utf8(encode_utf8(text).subrange(from, to))
}

/// The bytes of two texts in a row are the bytes of the first, then those of
/// the second.
pub proof fn lemma_encode_concat(a: Seq<char>, b: Seq<char>)
    ensures
        encode_utf8(a + b) == encode_utf8(a) + encode_utf8(b),
    decreases a.len(),
{
    if a.len() == 0 {
        assert(a + b =~= b);
        assert(encode_utf8(a) + encode_utf8(b) =~= encode_utf8(b));
    } else {
        lemma_encode_concat(a.drop_first(), b);
        assert((a + b).drop_first() =~= a.drop_first() + b);
        assert(encode_utf8(a + b) =~= encode_utf8(a) + encode_utf8(b));
    }
}

/// Texts with the same bytes are the same text.
pub proof fn lemma_encode_injective(a: Seq<char>, b: Seq<char>)
    requires
        encode_utf8(a) == encode_utf8(b),
    ensures
        a == b,
{
    encode_utf8_decode_utf8(a);
    encode_utf8_decode_utf8(b);
}

/// A text whose bytes are those of `head`, then those of `tail`, is `head`,
/// then `tail`.
pub proof fn lemma_split_text(whole: Seq<char>, head: Seq<char>, tail: Seq<char>, mid: int)
    requires
        0 <= mid <= encode_utf8(whole).len(),
        encode_utf8(head) == encode_utf8(whole).subrange(0, mid),
        encode_utf8(tail) == encode_utf8(whole).subrange(mid, encode_utf8(whole).len() as int),
    ensures
        whole == head + tail,
{
    lemma_encode_concat(head, tail);
    assert(encode_utf8(head) + encode_utf8(tail) =~= encode_utf8(whole));
    lemma_encode_injective(head + tail, whole);
}

/// The bytes of a text that is not empty begin with a byte that begins a
/// character.
pub proof fn lemma_first_byte_leads(text: Seq<char>)
    requires
        text.len() > 0,
    ensures
        encode_utf8(text).len() > 0,
        !is_continuation_byte(encode_utf8(text)[0]),
        length_of_first_scalar(encode_utf8(text)) == encode_scalar(text[0] as u32).len(),
        encode_utf8(text) == encode_scalar(text[0] as u32) + encode_utf8(text.drop_first()),
{
    encode_utf8_first_scalar(text);
}

/// Where valid bytes begin with the bytes of a text, what follows that text
/// is valid too.
pub proof fn lemma_valid_behind_text(text: Seq<char>, rest: Seq<u8>)
    requires
        valid_utf8(encode_utf8(text) + rest),
    ensures
        valid_utf8(rest),
    decreases text.len(),
{
    let all = encode_utf8(text) + rest;
    if text.len() == 0 {
        assert(all =~= rest);
    } else {
        lemma_first_byte_leads(text);
        assert(all[0] == encode_utf8(text)[0]);
        assert(length_of_first_scalar(all) == length_of_first_scalar(encode_utf8(text)));
        assert(pop_first_scalar(all) =~= encode_utf8(text.drop_first()) + rest);
        lemma_valid_behind_text(text.drop_first(), rest);
    }
}

/// The bytes of the beginning of a text end on a character boundary of the
/// whole text.
pub proof fn lemma_prefix_ends_on_boundary(head: Seq<char>, tail: Seq<char>)
    ensures
        is_char_boundary(encode_utf8(head + tail), encode_utf8(head).len() as int),
    decreases head.len(),
{
    let all = encode_utf8(head + tail);
    encode_utf8_valid_utf8(head + tail);
    lemma_encode_concat(head, tail);
    if head.len() > 0 {
        lemma_first_byte_leads(head);
        lemma_first_byte_leads(head + tail);
        assert((head + tail).drop_first() =~= head.drop_first() + tail);
        assert(pop_first_scalar(all) =~= encode_utf8(head.drop_first() + tail));
        lemma_prefix_ends_on_boundary(head.drop_first(), tail);
    }
}

/// An occurrence of a text among the bytes of another lies between two
/// character boundaries, and the text stands between what the bytes before
/// it and the bytes behind it decode to.
pub proof fn lemma_occurrence_in_text(hay: Seq<char>, needle: Seq<char>, at: int)
    requires
        needle.len() > 0,
        occurs_at(encode_utf8(hay), encode_utf8(needle), at),
    ensures
        is_char_boundary(encode_utf8(hay), at),
        is_char_boundary(encode_utf8(hay), at + encode_utf8(needle).len()),
        hay == text_between(hay, 0, at) + needle + text_between(
            hay,
            at + encode_utf8(needle).len(),
            encode_utf8(hay).len() as int,
        ),
        encode_utf8(text_between(hay, 0, at)) == encode_utf8(hay).subrange(0, at),
        encode_utf8(
            text_between(hay, at + encode_utf8(needle).len(), encode_utf8(hay).len() as int),
        ) == encode_utf8(hay).subrange(
            at + encode_utf8(needle).len(),
            encode_utf8(hay).len() as int,
        ),
{
    let bytes = encode_utf8(hay);
    let word = encode_utf8(needle);
    let end = at + word.len();
    let before = bytes.subrange(0, at);
    let from_at = bytes.subrange(at, bytes.len() as int);
    let behind = bytes.subrange(end, bytes.len() as int);
    encode_utf8_valid_utf8(hay);
    lemma_first_byte_leads(needle);
    assert(bytes[at] == bytes.subrange(at, end)[0]);
    is_char_boundary_iff_not_is_continuation_byte(bytes, at);
    valid_utf8_split(bytes, at);
    assert(from_at =~= word + behind);
    lemma_valid_behind_text(needle, behind);
    decode_utf8_encode_utf8(before);
    decode_utf8_encode_utf8(behind);
    let a = decode_utf8(before);
    let b = decode_utf8(behind);
    lemma_encode_concat(a, needle);
    lemma_encode_concat(a + needle, b);
    assert(encode_utf8(a + needle + b) =~= bytes);
    lemma_encode_injective(a + needle + b, hay);
    lemma_prefix_ends_on_boundary(a + needle, b);
}

/// A text stands in another exactly if its bytes stand among the bytes of
/// the other.
pub proof fn lemma_occurs_in_bytes(hay: Seq<char>, needle: Seq<char>)
    ensures
        occurs_in(encode_utf8(hay), encode_utf8(needle)) <==> occurs_in(hay, needle),
{
    if occurs_in(hay, needle) {
        let k = choose|k: int| occurs_at(hay, needle, k);
        lemma_occurrence_in_bytes(hay, needle, k);
    }
    if occurs_in(encode_utf8(hay), encode_utf8(needle)) {
        let at = choose|at: int| occurs_at(encode_utf8(hay), encode_utf8(needle), at);
        if needle.len() == 0 {
            assert(hay.subrange(0, 0) =~= needle);
            assert(occurs_at(hay, needle, 0));
        } else {
            lemma_occurrence_in_text(hay, needle, at);
            let a = text_between(hay, 0, at);
            assert(hay.subrange(a.len() as int, (a.len() + needle.len()) as int) =~= needle);
            assert(occurs_at(hay, needle, a.len() as int));
        }
    }
}

/// An occurrence of a text in another is an occurrence of its bytes, at the
/// offset that the bytes of the text before it reach.
pub proof fn lemma_occurrence_in_bytes(hay: Seq<char>, needle: Seq<char>, k: int)
    requires
        occurs_at(hay, needle, k),
    ensures
        occurs_at(encode_utf8(hay), encode_utf8(needle), encode_utf8(hay.take(k)).len() as int),
{
    let a = hay.take(k);
    let b = hay.skip(k + needle.len());
    assert(hay =~= a + needle + b);
    lemma_encode_concat(a, needle);
    lemma_encode_concat(a + needle, b);
    let at = encode_utf8(a).len() as int;
    assert(encode_utf8(hay).subrange(at, at + encode_utf8(needle).len()) =~= encode_utf8(needle));
}

/// An ASCII character of a text is one byte among its bytes: the byte with
/// the character's number, at the offset that the bytes of the text before
/// it reach.
pub proof fn lemma_ascii_char_is_byte(text: Seq<char>, k: int)
    requires
        0 <= k < text.len(),
        text[k] <= '\u{7f}',
    ensures
        encode_utf8(text) == encode_utf8(text.take(k)) + seq![text[k] as u8] + encode_utf8(
            text.skip(k + 1),
        ),
{
    let one = seq![text[k]];
    assert(text =~= text.take(k) + one + text.skip(k + 1));
    lemma_encode_concat(text.take(k), one);
    lemma_encode_concat(text.take(k) + one, text.skip(k + 1));
    lemma_ascii_text(text[k]);
}

/// The bytes of an ASCII character alone are the one byte with its number.
pub proof fn lemma_ascii_text(c: char)
    requires
        c <= '\u{7f}',
    ensures
        encode_utf8(seq![c]) == seq![c as u8],
{
    let one = seq![c];
    assert(is_ascii_chars(one));
    is_ascii_chars_encode_utf8(one);
    assert(encode_utf8(one) =~= seq![c as u8]);
}

/// A text whose bytes are one ASCII byte is the character with that number.
pub proof fn lemma_ascii_byte_is_char(text: Seq<char>, c: char)
    requires
        c <= '\u{7f}',
        encode_utf8(text) == seq![c as u8],
    ensures
        text == seq![c],
{
    lemma_ascii_text(c);
    lemma_encode_injective(text, seq![c]);
}

/// A text without bytes is empty.
pub proof fn lemma_no_bytes_no_text(text: Seq<char>)
    requires
        encode_utf8(text).len() == 0,
    ensures
        text.len() == 0,
{
    if text.len() > 0 {
        lemma_first_byte_leads(text);
    }
}

} // verus!
