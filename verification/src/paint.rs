//! Matched text in red.

use colored::Colorize;
use vstd::prelude::*;
use crate::text::occurs_in;

verus! {

/// The escape sequence that turns the foreground red.
pub open spec fn red_on() -> Seq<char> {
    seq!['\u{1b}', '[', '3', '1', 'm']
}

/// The escape sequence that resets colour and style.
pub open spec fn color_off() -> Seq<char> {
    seq!['\u{1b}', '[', '0', 'm']
}

/// Whether `shown` is a way to show `text` in red: the text as it is, where
/// colours are off, or the text between the two escape sequences. Of a text
/// that holds a reset sequence itself only the two ends are stated.
pub open spec fn shows_in_red(text: Seq<char>, shown: Seq<char>) -> bool {
    ||| shown == text
    ||| ({
        let body = shown.subrange(red_on().len() as int, shown.len() - color_off().len());
        &&& shown.len() >= red_on().len() + color_off().len()
        &&& shown == red_on() + body + color_off()
        &&& !occurs_in(text, color_off()) ==> body == text
    })
}

/// `colored::Colorize::red` on `text`, rendered through the `Display` of
/// `colored::ColoredString`. Whether colours are on is the crate's decision,
/// taken from the environment and from its override switch, so that two
/// calls on one text may differ. Either way the result is the text itself or
/// the text between the sequence for red and the reset sequence; behind each
/// reset sequence inside the text the crate repeats the sequence for red.
#[verifier::external_body]
pub(crate) fn paint_red(text: &str) -> (shown: String)
    ensures
        shows_in_red(text@, shown@),
{
    text.red().to_string()
}

} // verus!
