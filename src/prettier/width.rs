use vstd::prelude::*;

verus! {

/// The display width in columns that `unicode_width` gives a character,
/// `None` for a control character.
pub uninterp spec fn char_width_of(c: char) -> Option<usize>;

/// The display width in columns that `unicode_width` gives a string.
pub uninterp spec fn str_width_of(s: Seq<char>) -> usize;

/// Relies on `unicode_width::UnicodeWidthChar::width`: the result depends on
/// the character alone; printable ASCII is one column wide and the C0 control
/// characters have no width.
#[verifier::external_body]
pub(crate) fn char_width(c: char) -> (r: Option<usize>)
    ensures
        r == char_width_of(c),
        ' ' <= c <= '~' ==> r == Some(1usize),
        c < ' ' ==> r is None,
{
    unicode_width::UnicodeWidthChar::width(c)
}

/// Relies on `unicode_width::UnicodeWidthStr::width`: the result depends on
/// the characters alone; a string of printable ASCII is as wide as it is long.
#[verifier::external_body]
pub(crate) fn str_width(s: &str) -> (r: usize)
    ensures
        r == str_width_of(s@),
        (forall|i: int| 0 <= i < s@.len() ==> ' ' <= #[trigger] s@[i] <= '~') ==> r == s@.len(),
{
    unicode_width::UnicodeWidthStr::width(s)
}

} // verus!
