//! Guard against launching copy-search from inside its own overlay: a
//! launch whose source pane is itself a live overlay is nested.
use vstd::prelude::*;
use crate::text::{chars_of, string_of};

verus! {

/// A launch is nested when its source pane is itself a live overlay.
pub fn is_nested<F: Fn(&str) -> bool>(source_pane: Option<&str>, is_active: F) -> (b: bool)
    requires
        source_pane matches Some(p) ==> call_requires(is_active, (p,)),
    ensures
        source_pane is None ==> !b,
        source_pane matches Some(p) ==> call_ensures(is_active, (p,), b),
{
    match source_pane {
        Some(p) => is_active(p),
        None => false,
    }
}

/// Marker file name for a pane id: herdr pane ids are plain tokens like
/// `w8:p1`; non-alphanumeric chars are mapped to `_` so the name is
/// filesystem-safe.
pub open spec fn spec_marker_name(pane_id: Seq<char>) -> Seq<char> {
    pane_id.map_values(|c: char| if is_ascii_alnum(c) { c } else { '_' })
}

pub open spec fn is_ascii_alnum(c: char) -> bool {
    ('0' <= c && c <= '9') || ('a' <= c && c <= 'z') || ('A' <= c && c <= 'Z')
}

pub fn marker_name(pane_id: &str) -> (s: String)
    ensures
        s@ == spec_marker_name(pane_id@),
{
    let cs = chars_of(pane_id);
    let mut out: Vec<char> = Vec::new();
    let mut i: usize = 0;
    while i < cs.len()
        invariant
            cs@ == pane_id@,
            i <= cs@.len(),
            out@ == spec_marker_name(cs@).take(i as int),
        decreases cs@.len() - i,
    {
        let c = cs[i];
        let alnum = ('0' <= c && c <= '9') || ('a' <= c && c <= 'z') || ('A' <= c && c <= 'Z');
        out.push(if alnum {
            c
        } else {
            '_'
        });
        i = i + 1;
        assert(out@ =~= spec_marker_name(cs@).take(i as int));
    }
    assert(spec_marker_name(cs@).take(cs@.len() as int) =~= spec_marker_name(cs@));
    string_of(out.as_slice())
}

} // verus!
