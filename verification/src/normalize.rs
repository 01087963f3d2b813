//! The pattern that is searched for.

use vstd::prelude::*;
use vstd::utf8::*;
use vstd::string::*;
use crate::encoding::lemma_split_text;

verus! {

/// The pattern that is searched for in place of `pattern`: the pattern
/// itself in English mode, else its characters in reverse order.
pub open spec fn normalized(pattern: Seq<char>, english_mode: bool) -> Seq<char> {
    if english_mode {
        pattern
    } else {
        pattern.reverse()
    }
}

/// Valid bytes that begin with one character's first byte and go on with
/// continuation bytes only are that one character.
proof fn lemma_one_character(bytes: Seq<u8>)
    requires
        valid_utf8(bytes),
        bytes.len() > 0,
        forall|j: int| 1 <= j < bytes.len() ==> is_continuation_byte(bytes[j]),
    ensures
        decode_utf8(bytes).len() == 1,
{
    reveal_with_fuel(valid_utf8, 2);
    let rest = pop_first_scalar(bytes);
    if rest.len() > 0 {
        assert(rest[0] == bytes[length_of_first_scalar(bytes)]);
        assert(is_continuation_byte(rest[0]));
        assert(valid_first_scalar(rest));
    }
    reveal_with_fuel(decode_utf8, 2);
}

/// The characters of `text` in reverse order.
pub fn reversed(text: &str) -> (out: String)
    ensures
        out@ == text@.reverse(),
{
    let mut out = String::new();
    let mut rest: &str = text;
    let ghost mut done: Seq<char> = Seq::empty();
    assert(text@ =~= rest@ + done);
    assert(out@ =~= done.reverse());
    loop
        invariant
            text@ == rest@ + done,
            out@ == done.reverse(),
        decreases rest.spec_bytes().len(),
    {
        let bytes = rest.as_bytes();
        let n: usize = bytes.len();
        if n == 0 {
            proof {
                crate::encoding::lemma_no_bytes_no_text(rest@);
                assert(text@ =~= done);
                assert(done.reverse().reverse() =~= done);
                assert(out@ =~= text@.reverse());
            }
            return out;
        }
        let mut at: usize = n - 1;
        while at > 0 && 0x80u8 <= bytes[at] && bytes[at] <= 0xbfu8
            invariant
                at < n,
                n == bytes@.len(),
                forall|j: int| at < j < n ==> is_continuation_byte(bytes@[j]),
            decreases at,
        {
            at -= 1;
        }
        proof {
            encode_utf8_valid_utf8(rest@);
            if at > 0 {
                is_char_boundary_iff_not_is_continuation_byte(bytes@, at as int);
            }
        }
        let (init, last) = rest.split_at(at);
        proof {
            valid_utf8_split(bytes@, at as int);
            lemma_one_character(last.spec_bytes());
            encode_utf8_decode_utf8(last@);
            lemma_split_text(rest@, init@, last@, at as int);
            let c = last@[0];
            assert(last@ =~= seq![c]);
            assert(text@ =~= init@ + (last@ + done));
            assert((last@ + done).reverse() =~= done.reverse() + last@);
            done = last@ + done;
        }
        out.append(last);
        rest = init;
    }
}

/// The pattern that is searched for in place of `pattern`.
pub fn normalize(pattern: &str, english_mode: bool) -> (effective: String)
    ensures
        effective@ == normalized(pattern@, english_mode),
{
    if english_mode {
        String::from_str(pattern)
    } else {
        reversed(pattern)
    }
}

} // verus!
