//! Which entries of a directory are searched.

use vstd::prelude::*;
use vstd::utf8::*;
use vstd::string::*;
use crate::encoding::{lemma_encode_concat, lemma_occurrence_in_text, text_between};
use crate::text::occurs_at;

verus! {

/// A dot and the extension of the files that are searched.
pub open spec fn pdf_suffix() -> Seq<char> {
    seq!['.', 'p', 'd', 'f']
}

/// Whether the file name `name` has the extension `pdf`, in these letters:
/// it ends in `.pdf` and has at least one character before that dot.
pub open spec fn has_pdf_extension(name: Seq<char>) -> bool {
    name.len() > 4 && name.skip(name.len() - 4) == pdf_suffix()
}

/// The positions of the names with the extension `pdf` among `names`, in
/// rising order.
pub open spec fn eligible(names: Seq<Seq<char>>) -> Seq<int>
    decreases names.len(),
{
    if names.len() == 0 {
        Seq::empty()
    } else if has_pdf_extension(names.last()) {
        eligible(names.drop_last()).push(names.len() - 1)
    } else {
        eligible(names.drop_last())
    }
}

/// The texts of a row of strings.
pub open spec fn name_texts(names: Seq<String>) -> Seq<Seq<char>> {
    names.map_values(|name: String| name@)
}

/// The bytes of `.pdf`.
proof fn lemma_suffix_bytes()
    ensures
        encode_utf8(pdf_suffix()) == seq![46u8, 112u8, 100u8, 102u8],
{
    assert(is_ascii_chars(pdf_suffix()));
    is_ascii_chars_encode_utf8(pdf_suffix());
    assert(encode_utf8(pdf_suffix()) =~= seq![46u8, 112u8, 100u8, 102u8]);
}

/// A name has the extension `pdf` exactly if its bytes end with those of
/// `.pdf` and are more than these.
proof fn lemma_extension_in_bytes(name: Seq<char>)
    ensures
        has_pdf_extension(name) <==> encode_utf8(name).len() > 4 && encode_utf8(name).skip(
            encode_utf8(name).len() - 4,
        ) == encode_utf8(pdf_suffix()),
{
    let bytes = encode_utf8(name);
    let word = encode_utf8(pdf_suffix());
    lemma_suffix_bytes();
    if has_pdf_extension(name) {
        let stem = name.take(name.len() - 4);
        assert(name =~= stem + pdf_suffix());
        lemma_encode_concat(stem, pdf_suffix());
        if encode_utf8(stem).len() == 0 {
            crate::encoding::lemma_no_bytes_no_text(stem);
        }
        assert(bytes.skip(bytes.len() - 4) =~= word);
    }
    if bytes.len() > 4 && bytes.skip(bytes.len() - 4) == word {
        let at = bytes.len() - 4;
        assert(bytes.subrange(at, at + word.len()) =~= bytes.skip(at));
        assert(occurs_at(bytes, word, at));
        lemma_occurrence_in_text(name, pdf_suffix(), at);
        let stem = text_between(name, 0, at);
        let end = text_between(name, bytes.len() as int, bytes.len() as int);
        assert(encode_utf8(end).len() == 0);
        crate::encoding::lemma_no_bytes_no_text(end);
        assert(name =~= stem + pdf_suffix());
        assert(encode_utf8(stem).len() > 0);
        assert(stem.len() > 0);
        assert(name.skip(name.len() - 4) =~= pdf_suffix());
    }
}

/// Whether the file name `name` has the extension `pdf`.
pub fn is_pdf_file(name: &str) -> (eligible: bool)
    ensures
        eligible == has_pdf_extension(name@),
{
    let bytes = name.as_bytes();
    let n: usize = bytes.len();
    proof {
        lemma_extension_in_bytes(name@);
        lemma_suffix_bytes();
    }
    if n <= 4 {
        return false;
    }
    let eligible = bytes[n - 4] == 46u8 && bytes[n - 3] == 112u8 && bytes[n - 2] == 100u8 && bytes[n
        - 1] == 102u8;
    proof {
        let tail = bytes@.skip(n - 4);
        if eligible {
            assert(tail =~= seq![46u8, 112u8, 100u8, 102u8]);
        } else {
            assert(tail[0] == bytes@[n - 4]);
            assert(tail[1] == bytes@[n - 3]);
            assert(tail[2] == bytes@[n - 2]);
            assert(tail[3] == bytes@[n - 1]);
        }
    }
    eligible
}

/// The positions in `names`, the file names of a directory's entries, of
/// those that are searched: the ones with the extension `pdf`, in the order
/// of the listing.
pub fn select_pdf_files(names: &Vec<String>) -> (selected: Vec<usize>)
    ensures
        selected@.map_values(|at: usize| at as int) == eligible(name_texts(names@)),
{
    let mut selected: Vec<usize> = Vec::new();
    let mut i: usize = 0;
    assert(selected@.map_values(|at: usize| at as int) =~= eligible(name_texts(names@).take(0)));
    while i < names.len()
        invariant
            i <= names.len(),
            selected@.map_values(|at: usize| at as int) == eligible(
                name_texts(names@).take(i as int),
            ),
        decreases names.len() - i,
    {
        let keep = is_pdf_file(names[i].as_str());
        proof {
            let seen = name_texts(names@).take(i + 1);
            assert(seen.drop_last() =~= name_texts(names@).take(i as int));
            assert(seen.last() == names@[i as int]@);
            assert(selected@.push(i).map_values(|at: usize| at as int) =~= selected@.map_values(
                |at: usize| at as int,
            ).push(i as int));
        }
        if keep {
            selected.push(i);
        }
        i += 1;
    }
    proof {
        assert(name_texts(names@).take(names.len() as int) =~= name_texts(names@));
    }
    selected
}

} // verus!
