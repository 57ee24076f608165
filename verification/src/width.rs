//! How many columns a text takes on the screen.

use vstd::prelude::*;
use unicode_width::{UnicodeWidthChar, UnicodeWidthStr};

verus! {

/// What `UnicodeWidthStr::width` gives for the text `s`.
pub uninterp spec fn text_width_of(s: Seq<char>) -> usize;

/// What `UnicodeWidthChar::width` gives for the character `c`.
pub uninterp spec fn char_width_of(c: char) -> Option<usize>;

/// `UnicodeWidthStr::width`: the number of columns of a text depends on the
/// text alone. It need not be the sum over its characters.
#[verifier::external_body]
pub(crate) fn text_width(s: &str) -> (w: usize)
    ensures
        w == text_width_of(s@),
{
    UnicodeWidthStr::width(s)
}

/// `UnicodeWidthChar::width`: the number of columns of a character, none
/// for a control character, depends on the character alone.
#[verifier::external_body]
pub(crate) fn char_width(c: char) -> (w: Option<usize>)
    ensures
        w == char_width_of(c),
{
    UnicodeWidthChar::width(c)
}

} // verus!
