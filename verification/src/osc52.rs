//! OSC 52 clipboard writes: the escape sequence that carries a copy to
//! the outer terminal as base64.
use vstd::prelude::*;
use crate::text::{push_str, spec_byte_offset, string_of};

verus! {

/// Many terminals cap OSC 52 payloads around 100 KB of base64; larger
/// writes may be truncated or dropped by the outer terminal.
pub const SOFT_LIMIT: usize = 100_000;

/// Bytes of `text` in UTF-8.
pub open spec fn utf8_bytes(text: Seq<char>) -> nat {
    spec_byte_offset(text, text.len() as int)
}

/// Length of padded base64 for `n` bytes: four chars per started
/// three-byte group.
pub open spec fn encoded_len(n: nat) -> nat {
    4 * ((n + 2) / 3)
}

/// What the standard padded base64 engine of the `base64` crate makes
/// of the UTF-8 bytes of `text`.
pub uninterp spec fn base64_of(text: Seq<char>) -> Seq<char>;

/// `base64::engine::general_purpose::STANDARD.encode(text.as_bytes())`.
/// The crate's `encoded_len` shows the output length: four chars per
/// started three-byte group (with `=` padding); it panics when that
/// length overflows `usize`, which `requires` leaves out. The encoded
/// chars themselves are left to the name `base64_of`.
#[verifier::external_body]
fn encode(text: &str) -> (r: String)
    requires
        encoded_len(utf8_bytes(text@)) <= usize::MAX,
    ensures
        r@ == base64_of(text@),
        r@.len() == encoded_len(utf8_bytes(text@)),
{
    base64::Engine::encode(&base64::engine::general_purpose::STANDARD, text.as_bytes())
}

/// Whether the payload for `text` exceeds the soft limit.
pub fn is_oversize(text: &str) -> (b: bool)
    requires
        encoded_len(utf8_bytes(text@)) <= usize::MAX,
    ensures
        b == (encoded_len(utf8_bytes(text@)) > SOFT_LIMIT),
{
    let e = encode(text);
    crate::text::chars_of(e.as_str()).len() > SOFT_LIMIT
}

/// The OSC 52 set-clipboard sequence for the `c` (clipboard) selection.
pub open spec fn spec_sequence(text: Seq<char>) -> Seq<char> {
    seq!['\u{1b}', '\u{5d}', '5', '2', ';', 'c', ';'] + base64_of(text) + seq!['\u{7}']
}

pub fn sequence(text: &str) -> (s: String)
    requires
        encoded_len(utf8_bytes(text@)) <= usize::MAX,
    ensures
        s@ == spec_sequence(text@),
        s@.len() == 8 + encoded_len(utf8_bytes(text@)),
{
    let mut out: Vec<char> = Vec::new();
    out.push('\u{1b}');
    out.push('\u{5d}');
    push_str(&mut out, "52;c;");
    let e = encode(text);
    push_str(&mut out, e.as_str());
    out.push('\u{7}');
    proof {
        reveal_strlit("52;c;");
    }
    assert(out@ =~= spec_sequence(text@));
    string_of(out.as_slice())
}

} // verus!
