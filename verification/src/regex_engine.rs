//! The regular-expression engine the search runs on, as trusted items
//! over the `regex` crate.
use vstd::prelude::*;
use crate::text::spec_byte_offset;

verus! {

/// Whether `regex::RegexBuilder` builds `pattern` with the given case
/// folding (the regex syntax and its size limits are not restated).
pub uninterp spec fn regex_accepts(pattern: Seq<char>, case_insensitive: bool) -> bool;

/// The byte ranges `Regex::find_iter` yields on `hay` for `pattern`.
pub uninterp spec fn regex_find(pattern: Seq<char>, case_insensitive: bool, hay: Seq<char>) -> Seq<
    (usize, usize),
>;

/// The chars `regex-syntax` treats as meta characters
/// (`is_meta_character`): `\ . + * ? | ^ $ # & - ~` and both sides
/// of the round, square and curly brackets.
pub open spec fn is_meta(c: char) -> bool {
    ||| c == '\\'
    ||| c == '.'
    ||| c == '+'
    ||| c == '*'
    ||| c == '?'
    ||| c == '\u{28}'
    ||| c == '\u{29}'
    ||| c == '|'
    ||| c == '\u{5b}'
    ||| c == '\u{5d}'
    ||| c == '\u{7b}'
    ||| c == '\u{7d}'
    ||| c == '^'
    ||| c == '$'
    ||| c == '#'
    ||| c == '&'
    ||| c == '-'
    ||| c == '~'
}

/// `pattern` with a backslash put before every meta character.
pub open spec fn regex_escaped(pattern: Seq<char>) -> Seq<char>
    decreases pattern.len(),
{
    if pattern.len() == 0 {
        seq![]
    } else {
        let c = pattern.last();
        regex_escaped(pattern.drop_last()) + if is_meta(c) {
            seq!['\\', c]
        } else {
            seq![c]
        }
    }
}

/// `b` is a byte offset at a char boundary of `hay`'s UTF-8 encoding.
pub open spec fn is_boundary(hay: Seq<char>, b: int) -> bool {
    exists|k: int| 0 <= k <= hay.len() && spec_byte_offset(hay, k) == b
}

/// The documented shape of `find_iter` output: each match starts no
/// later than it ends, both offsets fall on char boundaries of the
/// haystack, and successive matches do not overlap.
pub open spec fn well_formed_matches(hay: Seq<char>, ms: Seq<(usize, usize)>) -> bool {
    &&& forall|j: int| 0 <= j < ms.len() ==> #[trigger] ms[j].0 <= ms[j].1
    &&& forall|j: int|
        0 <= j < ms.len() ==> is_boundary(hay, #[trigger] ms[j].0 as int) && is_boundary(
            hay,
            ms[j].1 as int,
        )
    &&& forall|j: int| 0 <= j && j + 1 < ms.len() ==> #[trigger] ms[j].1 <= ms[j + 1].0
}

/// Builds `pattern` with `regex::RegexBuilder` (case-insensitive when
/// asked) and runs `Regex::find_iter` on `hay`, giving each match as its
/// (start, end) byte offsets; None when the pattern does not build. The
/// crate documents that `Match::start() <= Match::end()`, that both fall
/// on UTF-8 char boundaries, and that `find_iter` yields successive
/// non-overlapping matches; which ranges match is left to the names
/// `regex_accepts` and `regex_find`.
#[verifier::external_body]
pub(crate) fn find_matches(pattern: &str, case_insensitive: bool, hay: &str) -> (r: Option<
    Vec<(usize, usize)>,
>)
    ensures
        r is Some <==> regex_accepts(pattern@, case_insensitive),
        r matches Some(v) ==> v@ == regex_find(pattern@, case_insensitive, hay@)
            && well_formed_matches(hay@, v@),
{
    let re = regex::RegexBuilder::new(pattern).case_insensitive(case_insensitive).build().ok()?;
    Some(re.find_iter(hay).map(|m| (m.start(), m.end())).collect())
}

/// `regex::escape`: its source (`regex_syntax::escape_into`) pushes a
/// backslash before each char that `is_meta_character` accepts and
/// copies every char, as `regex_escaped` states.
#[verifier::external_body]
pub(crate) fn escape(pattern: &str) -> (s: String)
    ensures
        s@ == regex_escaped(pattern@),
{
    regex::escape(pattern)
}

} // verus!
