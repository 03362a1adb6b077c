//! Which pane to read: the source pane resolution and the minimal JSON
//! field extraction it needs. Talking to the herdr CLI is left to the
//! caller.
use vstd::prelude::*;
use crate::config::QUOTE;
use crate::text::{chars_of, find_char, spec_find, spec_trim_start, string_of, trim_start_skip};

verus! {

/// First index from `i` on where `pat` occurs in `s` (`str::find`).
pub open spec fn find_sub(s: Seq<char>, pat: Seq<char>, i: int) -> Option<int>
    decreases s.len() - i,
{
    if i < 0 || i + pat.len() > s.len() {
        None
    } else if s.subrange(i, i + pat.len()) == pat {
        Some(i)
    } else if i >= s.len() {
        None
    } else {
        find_sub(s, pat, i + 1)
    }
}

/// `"key":"value"` extraction from flat JSON: the first occurrence of the
/// quoted key, then optional whitespace, a colon, optional whitespace and
/// a quoted value, taken up to the next quote (escapes are not handled).
pub open spec fn spec_json_str_field(json: Seq<char>, key: Seq<char>) -> Option<Seq<char>> {
    let needle = seq![QUOTE] + key + seq![QUOTE];
    match find_sub(json, needle, 0) {
        None => None,
        Some(p) => {
            let rest = spec_trim_start(json.skip(p + needle.len()));
            if rest.len() > 0 && rest[0] == ':' {
                let r2 = spec_trim_start(rest.drop_first());
                if r2.len() > 0 && r2[0] == QUOTE {
                    let r3 = r2.drop_first();
                    match spec_find(r3, QUOTE) {
                        Some(e) => Some(r3.take(e)),
                        None => None,
                    }
                } else {
                    None
                }
            } else {
                None
            }
        },
    }
}

/// Minimal `"key":"value"` extractor for herdr's flat context JSON.
/// Values with escaped quotes are not handled; pane and workspace ids
/// are plain tokens like "w8:p1".
pub fn json_str_field(json: &str, key: &str) -> (r: Option<String>)
    ensures
        crate::app::opt_str(r) == spec_json_str_field(json@, key@),
{
    let js = chars_of(json);
    let mut needle: Vec<char> = Vec::new();
    needle.push(QUOTE);
    crate::text::push_str(&mut needle, key);
    needle.push(QUOTE);
    assert(needle@ =~= seq![QUOTE] + key@ + seq![QUOTE]);
    let n = needle.len();
    let jl = js.len();
    // First occurrence of the needle.
    let mut i: usize = 0;
    let mut found: Option<usize> = None;
    while found.is_none() && i < js.len() && n <= js.len() - i
        invariant
            js@ == json@,
            jl == js@.len(),
            i <= js@.len(),
            n == needle@.len(),
            found is None ==> find_sub(js@, needle@, 0) == find_sub(js@, needle@, i as int),
            found matches Some(p) ==> find_sub(js@, needle@, 0) == Some(p as int) && p + n <= js@.len(),
        decreases js@.len() - i, if found is None { 1int } else { 0int },
    {
        let mut k: usize = 0;
        while k < n && js[i + k] == needle[k]
            invariant
                k <= n,
                jl == js@.len(),
                i + n <= js@.len(),
                n == needle@.len(),
                forall|m: int| 0 <= m < k ==> js@[i + m] == needle@[m],
            decreases n - k,
        {
            k = k + 1;
        }
        if k == n {
            assert(js@.subrange(i as int, i + n) =~= needle@);
            found = Some(i);
        } else {
            assert(js@.subrange(i as int, i + n)[k as int] != needle@[k as int]);
            i = i + 1;
        }
    }
    let p = match found {
        Some(p) => p,
        None => {
            return None;
        },
    };
    let start = p + n;
    let ghost after = js@.skip(start as int);
    assert(js@.subrange(start as int, js@.len() as int) =~= after);
    let a = start + trim_start_skip(js.as_slice(), start, js.len());
    if !(a < js.len() && js[a] == ':') {
        return None;
    }
    let b = (a + 1) + trim_start_skip(js.as_slice(), a + 1, js.len());
    assert(spec_trim_start(after).drop_first() =~= js@.subrange(a + 1, js@.len() as int));
    if !(b < js.len() && js[b] == QUOTE) {
        return None;
    }
    let c = b + 1;
    assert(spec_trim_start(spec_trim_start(after).drop_first()).drop_first() =~= js@.subrange(
        c as int,
        js@.len() as int,
    ));
    match find_char(js.as_slice(), c, js.len(), QUOTE) {
        None => None,
        Some(e) => {
            let mut v: Vec<char> = Vec::new();
            crate::buffer::extend_from(&mut v, &js, c, c + e);
            assert(v@ =~= js@.subrange(c as int, js@.len() as int).take(e as int));
            Some(string_of(v.as_slice()))
        },
    }
}

/// The pane whose scrollback is read: an explicit `--pane` first, then
/// `HERDR_ACTIVE_PANE_ID`, then the context JSON's `focused_pane_id`.
/// `HERDR_PANE_ID` is the plugin pane itself, never the source, so it
/// is deliberately not consulted.
pub fn resolve_source_pane<F: Fn(&str) -> Option<String>>(cli: Option<&str>, env: F) -> (r: Option<String>)
    requires
        call_requires(env, ("HERDR_ACTIVE_PANE_ID",)),
        call_requires(env, ("HERDR_PLUGIN_CONTEXT_JSON",)),
    ensures
        cli matches Some(p) ==> r matches Some(s) && s@ == p@,
        cli is None ==> exists|a: Option<String>|
            #[trigger] call_ensures(env, ("HERDR_ACTIVE_PANE_ID",), a) && (a is Some ==> r == a) && (
            a is None ==> exists|j: Option<String>|
                #[trigger] call_ensures(env, ("HERDR_PLUGIN_CONTEXT_JSON",), j)
                    && crate::app::opt_str(r) == match j {
                    Some(s) => spec_json_str_field(s@, "focused_pane_id"@),
                    None => None,
                }),
{
    match cli {
        Some(pane) => {
            return Some(pane.to_owned());
        },
        None => {},
    }
    let a = env("HERDR_ACTIVE_PANE_ID");
    if a.is_some() {
        return a;
    }
    let j = env("HERDR_PLUGIN_CONTEXT_JSON");
    match j {
        Some(json) => json_str_field(json.as_str(), "focused_pane_id"),
        None => None,
    }
}

} // verus!
