//! Text styles for terminals.

use colored::Colorize;
use vstd::prelude::*;

verus! {

/// The escape sequence that ends every style.
pub open spec fn reset_code() -> Seq<char> {
    seq!['\x1b', '[', '0', 'm']
}

/// `text` holds the escape sequence that ends every style.
pub open spec fn holds_reset(text: Seq<char>) -> bool {
    exists|i: int| 0 <= i && i + 4 <= text.len() && #[trigger] text.subrange(i, i + 4) == reset_code()
}

/// `text` between the escape sequence that starts the style `code` and the
/// one that ends it.
pub open spec fn styled(code: char, text: Seq<char>) -> Seq<char> {
    seq!['\x1b', '[', code, 'm'] + text + reset_code()
}

/// `out` is a rendering of `text` in the style `code`: the text alone where
/// styles are switched off, the styled text where they are on. Of a text that
/// itself ends a style nothing is said.
pub open spec fn is_rendering(out: Seq<char>, text: Seq<char>, code: char) -> bool {
    holds_reset(text) || out == text || out == styled(code, text)
}

/// The code of the dimmed style.
pub open spec fn dim_code() -> char {
    '2'
}

/// The code of the bold style.
pub open spec fn bold_code() -> char {
    '1'
}

/// `colored::Colorize::dimmed`, written out through `Display`. Whether styles
/// are on is for the `colored` crate to decide, from the environment and from
/// what the output is connected to; so the result is either the text as it
/// is or the text between the escape sequences of the dimmed style.
#[verifier::external_body]
pub(crate) fn dimmed(text: &str) -> (r: String)
    ensures
        is_rendering(r@, text@, dim_code()),
{
    text.dimmed().to_string()
}

/// `colored::Colorize::bold`, written out through `Display`. Whether styles
/// are on is for the `colored` crate to decide, from the environment and from
/// what the output is connected to; so the result is either the text as it
/// is or the text between the escape sequences of the bold style.
#[verifier::external_body]
pub(crate) fn bold(text: &str) -> (r: String)
    ensures
        is_rendering(r@, text@, bold_code()),
{
    text.bold().to_string()
}

} // verus!
