use vstd::prelude::*;
use unicode_width::UnicodeWidthChar;

verus! {

/// Display width of a character in terminal columns: `None` for control
/// characters, otherwise the number of columns the character occupies.
pub uninterp spec fn char_display_width(c: char) -> Option<usize>;

/// Relies on `unicode_width::UnicodeWidthChar::width`: the display width of a
/// character under the Unicode width tables. The result depends on the
/// character alone; its source returns `None` exactly for control characters,
/// never more than 3 columns for any other character, and exactly one column
/// for the space character.
#[verifier::external_body]
pub(crate) fn display_width(c: char) -> (r: Option<usize>)
    ensures
        r == char_display_width(c),
        c == ' ' ==> r == Some(1usize),
        r matches Some(w) ==> w <= 3,
{
    UnicodeWidthChar::width(c)
}

} // verus!
