//! Unicode character properties the library takes from outside code.
use vstd::prelude::*;

verus! {

/// Display width that `unicode_width::UnicodeWidthChar::width` gives `c`.
pub uninterp spec fn char_width(c: char) -> Option<usize>;

/// `unicode_width::UnicodeWidthChar::width`. Its source shows: printable
/// ASCII (U+0020..U+007E) is one column, C0 controls have no width, and
/// no char is wider than 3 columns. Beyond that, the width table is
/// taken as named by `char_width`, not restated here.
#[verifier::external_body]
pub(crate) fn width(c: char) -> (w: Option<usize>)
    ensures
        w == char_width(c),
        w matches Some(n) ==> n <= 3,
        (' ' <= c && c <= '~') ==> w == Some(1usize),
        c < ' ' ==> w is None,
{
    unicode_width::UnicodeWidthChar::width(c)
}

/// What `char::is_alphanumeric` answers for `c` (Unicode Alphabetic or
/// Numeric).
pub uninterp spec fn char_is_alphanumeric(c: char) -> bool;

/// `char::is_alphanumeric`. Within ASCII the Alphabetic chars are the
/// letters and the Numeric ones the digits, as std documents; beyond
/// ASCII the Unicode property tables are not restated.
#[verifier::external_body]
pub(crate) fn is_alphanumeric(c: char) -> (b: bool)
    ensures
        b == char_is_alphanumeric(c),
        c <= '\u{7f}' ==> (b <==> (('0' <= c && c <= '9') || ('a' <= c && c <= 'z') || ('A' <= c
            && c <= 'Z'))),
{
    c.is_alphanumeric()
}

/// What `char::is_uppercase` answers for `c` (Unicode Uppercase).
pub uninterp spec fn char_is_uppercase(c: char) -> bool;

/// `char::is_uppercase`. Within ASCII the Uppercase chars are `A`-`Z`;
/// beyond ASCII the Unicode property tables are not restated.
#[verifier::external_body]
pub(crate) fn is_uppercase(c: char) -> (b: bool)
    ensures
        b == char_is_uppercase(c),
        c <= '\u{7f}' ==> (b <==> ('A' <= c && c <= 'Z')),
{
    c.is_uppercase()
}

} // verus!
