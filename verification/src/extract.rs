//! extrakto-style token picker: scrollback split into words or lines,
//! fuzzy-filtered by a typed query.
use vstd::prelude::*;
use crate::buffer::extend_from;
use crate::config::{default_theme, Theme};
use crate::keys::{Code, Key, Mouse, MouseKind};
use crate::lineedit::{edit_key, LineEdit};
use crate::text::{
    chars_of, line_bounds, spec_is_whitespace, spec_lines, spec_to_ascii_lowercase, spec_trim,
    string_of, to_ascii_lowercase, trim_bounds, is_whitespace,
};

verus! {

pub const MIN_TOKEN_LEN: usize = 3;

// ------------------------------------------------------------ tokenizing

/// Punctuation stripped from token edges; interior chars are kept so
/// paths, URLs, and versions survive intact.
pub open spec fn edge_punct() -> Seq<char> {
    "()[]{}<>'\"`,;:!?."@
}

pub open spec fn is_edge(c: char) -> bool {
    edge_punct().contains(c)
}

/// `s` with edge punctuation trimmed from its start.
pub open spec fn trim_edge_front(s: Seq<char>) -> Seq<char>
    decreases s.len(),
{
    if s.len() > 0 && is_edge(s[0]) {
        trim_edge_front(s.drop_first())
    } else {
        s
    }
}

/// `s` with edge punctuation trimmed from its end.
pub open spec fn trim_edge_back(s: Seq<char>) -> Seq<char>
    decreases s.len(),
{
    if s.len() > 0 && is_edge(s.last()) {
        trim_edge_back(s.drop_last())
    } else {
        s
    }
}

/// `str::trim_matches` with the edge punctuation.
pub open spec fn trim_edge(s: Seq<char>) -> Seq<char> {
    trim_edge_back(trim_edge_front(s))
}

/// First index from `i` on that is not whitespace (or the end).
pub open spec fn skip_ws(s: Seq<char>, i: int) -> int
    decreases s.len() - i,
{
    if i < 0 || i >= s.len() || !spec_is_whitespace(s[i]) {
        i
    } else {
        skip_ws(s, i + 1)
    }
}

/// First index from `i` on that is whitespace (or the end).
pub open spec fn run_end(s: Seq<char>, i: int) -> int
    decreases s.len() - i,
{
    if i < 0 || i >= s.len() || spec_is_whitespace(s[i]) {
        i
    } else {
        run_end(s, i + 1)
    }
}

/// `str::split_whitespace` of `s` from index `i` on.
pub open spec fn split_ws_from(s: Seq<char>, i: int) -> Seq<Seq<char>>
    decreases s.len() - i,
{
    let j = skip_ws(s, i);
    if i < 0 || j >= s.len() || j < i {
        seq![]
    } else {
        let k = run_end(s, j);
        if k <= j || k > s.len() {
            seq![]
        } else {
            seq![s.subrange(j, k)] + split_ws_from(s, k)
        }
    }
}

/// The pieces, edge-trimmed, that keep at least `min` chars.
pub open spec fn long_trimmed(pieces: Seq<Seq<char>>, min: nat) -> Seq<Seq<char>>
    decreases pieces.len(),
{
    if pieces.len() == 0 {
        seq![]
    } else {
        let rest = long_trimmed(pieces.drop_last(), min);
        let t = trim_edge(pieces.last());
        if t.len() >= min {
            rest.push(t)
        } else {
            rest
        }
    }
}

/// Tokens of the lines, newest (last) line first.
pub open spec fn words_rev(lines: Seq<Seq<char>>, min: nat) -> Seq<Seq<char>>
    decreases lines.len(),
{
    if lines.len() == 0 {
        seq![]
    } else {
        long_trimmed(split_ws_from(lines.last(), 0), min) + words_rev(lines.drop_last(), min)
    }
}

/// Trimmed non-empty lines, newest first.
pub open spec fn lines_rev(lines: Seq<Seq<char>>) -> Seq<Seq<char>>
    decreases lines.len(),
{
    if lines.len() == 0 {
        seq![]
    } else {
        let t = spec_trim(lines.last());
        if t.len() > 0 {
            seq![t] + lines_rev(lines.drop_last())
        } else {
            lines_rev(lines.drop_last())
        }
    }
}

/// Each item once, at its first occurrence.
pub open spec fn dedup(s: Seq<Seq<char>>) -> Seq<Seq<char>>
    decreases s.len(),
{
    if s.len() == 0 {
        seq![]
    } else {
        let d = dedup(s.drop_last());
        if d.contains(s.last()) {
            d
        } else {
            d.push(s.last())
        }
    }
}

pub open spec fn strings_view(v: Seq<String>) -> Seq<Seq<char>> {
    v.map_values(|s: String| s@)
}

/// Every item has at most `n` chars.
pub open spec fn all_within(v: Seq<Seq<char>>, n: nat) -> bool {
    forall|k: int| 0 <= k < v.len() ==> (#[trigger] v[k]).len() <= n
}

pub proof fn lemma_dedup_contains(s: Seq<Seq<char>>, x: Seq<char>)
    ensures
        dedup(s).contains(x) <==> s.contains(x),
    decreases s.len(),
{
    if s.len() > 0 {
        lemma_dedup_contains(s.drop_last(), x);
        assert(s =~= s.drop_last().push(s.last()));
        if s.drop_last().contains(x) {
            let i = choose|i: int| 0 <= i < s.drop_last().len() && s.drop_last()[i] == x;
            assert(s[i] == x);
        }
        if s.contains(x) && x != s.last() {
            let i = choose|i: int| 0 <= i < s.len() && s[i] == x;
            assert(s.drop_last()[i] == x);
        }
        let d = dedup(s.drop_last());
        if !d.contains(s.last()) && x == s.last() {
            assert(d.push(s.last())[d.len() as int] == x);
        }
        if !d.contains(s.last()) && d.push(s.last()).contains(x) && x != s.last() {
            let i = choose|i: int| 0 <= i < d.len() + 1 && d.push(s.last())[i] == x;
            assert(d[i] == x);
        }
        if d.contains(x) {
            let i = choose|i: int| 0 <= i < d.len() && d[i] == x;
            assert(d.push(s.last())[i] == x);
        }
    }
}

pub proof fn lemma_dedup_push(s: Seq<Seq<char>>, x: Seq<char>)
    ensures
        dedup(s.push(x)) == (if dedup(s).contains(x) {
            dedup(s)
        } else {
            dedup(s).push(x)
        }),
{
    assert(s.push(x).drop_last() =~= s);
}

/// Whether `c` is one of `lit`'s chars.
fn in_lit(c: char, lit: &str) -> (b: bool)
    ensures
        b == lit@.contains(c),
{
    let l = chars_of(lit);
    let mut i: usize = 0;
    while i < l.len()
        invariant
            l@ == lit@,
            i <= l@.len(),
            forall|k: int| 0 <= k < i ==> l@[k] != c,
        decreases l@.len() - i,
    {
        if l[i] == c {
            assert(lit@[i as int] == c);
            return true;
        }
        i = i + 1;
    }
    false
}

fn edge(c: char) -> (b: bool)
    ensures
        b == is_edge(c),
{
    in_lit(c, "()[]{}<>'\"`,;:!?.")
}

/// Bounds of `trim_edge(cs[lo..hi])`.
fn trim_edge_bounds(cs: &Vec<char>, lo: usize, hi: usize) -> (r: (usize, usize))
    requires
        lo <= hi <= cs@.len(),
    ensures
        lo <= r.0 <= r.1 <= hi,
        cs@.subrange(r.0 as int, r.1 as int) == trim_edge(cs@.subrange(lo as int, hi as int)),
{
    let ghost whole = cs@.subrange(lo as int, hi as int);
    let mut a = lo;
    while a < hi && edge(cs[a])
        invariant
            lo <= a <= hi <= cs@.len(),
            whole == cs@.subrange(lo as int, hi as int),
            trim_edge_front(whole) == trim_edge_front(cs@.subrange(a as int, hi as int)),
        decreases hi - a,
    {
        assert(cs@.subrange(a as int, hi as int).drop_first() =~= cs@.subrange(a + 1, hi as int));
        a = a + 1;
    }
    let ghost front = cs@.subrange(a as int, hi as int);
    assert(trim_edge_front(whole) == front);
    let mut b = hi;
    while b > a && edge(cs[b - 1])
        invariant
            lo <= a <= b <= hi <= cs@.len(),
            front == cs@.subrange(a as int, hi as int),
            trim_edge_back(front) == trim_edge_back(cs@.subrange(a as int, b as int)),
        decreases b - a,
    {
        assert(cs@.subrange(a as int, b as int).drop_last() =~= cs@.subrange(a as int, b - 1));
        b = b - 1;
    }
    (a, b)
}

/// Position `j` in `seen` holding `cs[lo..hi]`, if any.
fn seen_has(seen: &Vec<Vec<char>>, cs: &Vec<char>, lo: usize, hi: usize) -> (b: bool)
    requires
        lo <= hi <= cs@.len(),
    ensures
        b == seen@.map_values(|v: Vec<char>| v@).contains(cs@.subrange(lo as int, hi as int)),
{
    let ghost sv = seen@.map_values(|v: Vec<char>| v@);
    let ghost t = cs@.subrange(lo as int, hi as int);
    let mut j: usize = 0;
    while j < seen.len()
        invariant
            j <= seen@.len(),
            sv == seen@.map_values(|v: Vec<char>| v@),
            t == cs@.subrange(lo as int, hi as int),
            lo <= hi <= cs@.len(),
            forall|k: int| 0 <= k < j ==> sv[k] != t,
        decreases seen@.len() - j,
    {
        let w = &seen[j];
        let mut same = w.len() == hi - lo;
        let mut k: usize = 0;
        while same && k < w.len()
            invariant
                k <= w@.len(),
                same ==> w@.len() == hi - lo,
                same ==> forall|m: int| 0 <= m < k ==> w@[m] == cs@[lo + m],
                !same ==> w@ != t,
                t == cs@.subrange(lo as int, hi as int),
                lo <= hi <= cs@.len(),
            decreases w@.len() - k,
        {
            if w[k] != cs[lo + k] {
                assert(w@[k as int] != t[k as int]);
                same = false;
            }
            k = k + 1;
        }
        if same {
            assert(w@ =~= t);
            assert(sv[j as int] == t);
            return true;
        }
        assert(sv[j as int] == w@);
        j = j + 1;
    }
    false
}

/// Add `cs[lo..hi]` to `out` and `seen` unless already there.
fn add_unique(out: &mut Vec<String>, seen: &mut Vec<Vec<char>>, cs: &Vec<char>, lo: usize, hi: usize)
    requires
        lo <= hi <= cs@.len(),
        strings_view(old(out)@) == old(seen)@.map_values(|v: Vec<char>| v@),
        all_within(strings_view(old(out)@), cs@.len()),
    ensures
        strings_view(final(out)@) == final(seen)@.map_values(|v: Vec<char>| v@),
        all_within(strings_view(final(out)@), cs@.len()),
        strings_view(final(out)@) == (if strings_view(old(out)@).contains(
            cs@.subrange(lo as int, hi as int),
        ) {
            strings_view(old(out)@)
        } else {
            strings_view(old(out)@).push(cs@.subrange(lo as int, hi as int))
        }),
{
    if !seen_has(seen, cs, lo, hi) {
        let mut w: Vec<char> = Vec::new();
        extend_from(&mut w, cs, lo, hi);
        let s = string_of(w.as_slice());
        let ghost o = strings_view(out@);
        let ghost sv = seen@.map_values(|v: Vec<char>| v@);
        out.push(s);
        seen.push(w);
        assert(strings_view(out@) =~= o.push(cs@.subrange(lo as int, hi as int)));
        assert(seen@.map_values(|v: Vec<char>| v@) =~= sv.push(cs@.subrange(lo as int, hi as int)));
    }
}

/// Whitespace-separated tokens, edge punctuation trimmed, newest
/// (bottom of the scrollback) first, deduplicated keeping the newest.
pub fn tokenize_words(text: &str, min_len: usize) -> (out: Vec<String>)
    ensures
        strings_view(out@) == dedup(words_rev(spec_lines(text@), min_len as nat)),
        all_within(strings_view(out@), text@.len()),
{
    let cs = chars_of(text);
    let bounds = line_bounds(cs.as_slice());
    let ghost lines = spec_lines(cs@);
    let ghost all = words_rev(lines, min_len as nat);
    let mut out: Vec<String> = Vec::new();
    let mut seen: Vec<Vec<char>> = Vec::new();
    let ghost mut done: Seq<Seq<char>> = seq![];
    let mut n = bounds.len();
    assert(lines.take(n as int) =~= lines);
    while n > 0
        invariant
            crate::text::bounds_spell(cs@, bounds@, lines),
            lines == spec_lines(cs@),
            all == words_rev(lines, min_len as nat),
            n <= bounds@.len(),
            done + words_rev(lines.take(n as int), min_len as nat) == all,
            strings_view(out@) == dedup(done),
            strings_view(out@) == seen@.map_values(|v: Vec<char>| v@),
            all_within(strings_view(out@), cs@.len()),
            cs@ == text@,
        decreases n,
    {
        let (lo, hi) = bounds[n - 1];
        let ghost line = cs@.subrange(lo as int, hi as int);
        assert(line == lines[n - 1]);
        let ghost line_done = done;
        let mut i = lo;
        assert(cs@.subrange(lo as int, hi as int).subrange(0, 0) =~= Seq::<char>::empty());
        proof {
            assert(split_ws_from(line, 0) == split_ws_from(line, 0));
        }
        let ghost mut pieces: Seq<Seq<char>> = seq![];
        while i < hi
            invariant
                lo <= i <= hi <= cs@.len(),
                line == cs@.subrange(lo as int, hi as int),
                pieces + split_ws_from(line, i - lo) == split_ws_from(line, 0),
                done == line_done + long_trimmed(pieces, min_len as nat),
                strings_view(out@) == dedup(done),
                strings_view(out@) == seen@.map_values(|v: Vec<char>| v@),
                all_within(strings_view(out@), cs@.len()),
            decreases hi - i,
        {
            let ghost i0 = i;
            while i < hi && is_whitespace(cs[i])
                invariant
                    lo <= i0 <= i <= hi <= cs@.len(),
                    line == cs@.subrange(lo as int, hi as int),
                    skip_ws(line, i0 - lo) == skip_ws(line, i - lo),
                decreases hi - i,
            {
                assert(line[i - lo] == cs@[i as int]);
                i = i + 1;
            }
            if i >= hi {
                assert(split_ws_from(line, i0 - lo) =~= Seq::<Seq<char>>::empty());
                assert(split_ws_from(line, i - lo) =~= Seq::<Seq<char>>::empty());
            } else {
            let j = i;
            while i < hi && !is_whitespace(cs[i])
                invariant
                    lo <= j <= i <= hi <= cs@.len(),
                    line == cs@.subrange(lo as int, hi as int),
                    run_end(line, j - lo) == run_end(line, i - lo),
                decreases hi - i,
            {
                assert(line[i - lo] == cs@[i as int]);
                i = i + 1;
            }
            assert(line[j - lo] == cs@[j as int]);
            let ghost piece = line.subrange(j - lo, i - lo);
            assert(piece =~= cs@.subrange(j as int, i as int));
            assert(split_ws_from(line, i0 - lo) == seq![piece] + split_ws_from(line, i - lo));
            let (a, b) = trim_edge_bounds(&cs, j, i);
            let count = b - a;
            proof {
                assert(pieces.push(piece) + split_ws_from(line, i - lo) =~= pieces + split_ws_from(
                    line,
                    i0 - lo,
                ));
                assert(pieces.push(piece).drop_last() =~= pieces);
                pieces = pieces.push(piece);
            }
            if count >= min_len {
                proof {
                    lemma_dedup_contains(done, cs@.subrange(a as int, b as int));
                    lemma_dedup_push(done, cs@.subrange(a as int, b as int));
                    done = done.push(cs@.subrange(a as int, b as int));
                    assert(done.drop_last() =~= line_done + long_trimmed(pieces.drop_last(), min_len as nat));
                    assert(done =~= line_done + long_trimmed(pieces, min_len as nat));
                }
                add_unique(&mut out, &mut seen, &cs, a, b);
            }
            }
        }
        proof {
            if i >= hi {
                assert(split_ws_from(line, i - lo) =~= Seq::<Seq<char>>::empty());
            }
            assert(pieces =~= split_ws_from(line, 0));
            assert(lines.take(n as int).drop_last() =~= lines.take(n - 1));
            assert(lines.take(n as int).last() == line);
            assert(words_rev(lines.take(n as int), min_len as nat) == long_trimmed(pieces, min_len as nat)
                + words_rev(lines.take(n - 1), min_len as nat));
            assert(done + words_rev(lines.take(n - 1), min_len as nat) =~= all);
        }
        n = n - 1;
    }
    assert(words_rev(lines.take(0), min_len as nat) =~= Seq::<Seq<char>>::empty());
    assert(done =~= all);
    out
}

/// Trimmed non-empty lines, newest first, deduplicated.
pub fn tokenize_lines(text: &str) -> (out: Vec<String>)
    ensures
        strings_view(out@) == dedup(lines_rev(spec_lines(text@))),
        all_within(strings_view(out@), text@.len()),
{
    let cs = chars_of(text);
    let bounds = line_bounds(cs.as_slice());
    let ghost lines = spec_lines(cs@);
    let ghost all = lines_rev(lines);
    let mut out: Vec<String> = Vec::new();
    let mut seen: Vec<Vec<char>> = Vec::new();
    let ghost mut done: Seq<Seq<char>> = seq![];
    let mut n = bounds.len();
    assert(lines.take(n as int) =~= lines);
    while n > 0
        invariant
            crate::text::bounds_spell(cs@, bounds@, lines),
            lines == spec_lines(cs@),
            all == lines_rev(lines),
            n <= bounds@.len(),
            done + lines_rev(lines.take(n as int)) == all,
            strings_view(out@) == dedup(done),
            strings_view(out@) == seen@.map_values(|v: Vec<char>| v@),
            all_within(strings_view(out@), cs@.len()),
            cs@ == text@,
        decreases n,
    {
        let (lo, hi) = bounds[n - 1];
        let (a, b) = trim_bounds(cs.as_slice(), lo, hi);
        proof {
            assert(lines.take(n as int).drop_last() =~= lines.take(n - 1));
            assert(lines.take(n as int).last() == lines[n - 1]);
        }
        if b > a {
            proof {
                lemma_dedup_contains(done, cs@.subrange(a as int, b as int));
                assert((done + seq![cs@.subrange(a as int, b as int)]) + lines_rev(lines.take(n - 1))
                    =~= done + lines_rev(lines.take(n as int)));
                lemma_dedup_push(done, cs@.subrange(a as int, b as int));
                done = done.push(cs@.subrange(a as int, b as int));
            }
            add_unique(&mut out, &mut seen, &cs, a, b);
        }
        n = n - 1;
    }
    assert(lines_rev(lines.take(0)) =~= Seq::<Seq<char>>::empty());
    assert(done =~= all);
    out
}


// --------------------------------------------------------------- scoring

/// A hit right after nothing, whitespace or a path/word separator
/// starts a word or path segment.
pub open spec fn starts_segment(prev: Option<char>) -> bool {
    match prev {
        None => true,
        Some(c) => spec_is_whitespace(c) || "/._-:@"@.contains(c),
    }
}

/// Greedy scoring of `cand` from index `i`, with `qi` query chars
/// matched so far: a hit scores 4, 16 more right after a hit, 8 more at
/// a segment start; any other char costs 1. None when the query does
/// not run out.
pub open spec fn fuzzy_from(
    q: Seq<char>,
    cand: Seq<char>,
    i: int,
    qi: int,
    prev: Option<char>,
    prev_hit: bool,
    score: int,
) -> Option<int>
    decreases cand.len() - i,
{
    if i < 0 || i >= cand.len() {
        if qi < q.len() {
            None
        } else {
            Some(score)
        }
    } else if qi < 0 || qi >= q.len() {
        fuzzy_from(q, cand, i + 1, qi, prev, prev_hit, score - 1)
    } else if spec_to_ascii_lowercase(cand[i]) == q[qi] {
        let bonus = (if prev_hit {
            16int
        } else {
            0int
        }) + (if starts_segment(prev) {
            8int
        } else {
            0int
        });
        fuzzy_from(q, cand, i + 1, qi + 1, Some(cand[i]), true, score + 4 + bonus)
    } else {
        fuzzy_from(q, cand, i + 1, qi, Some(cand[i]), false, score - 1)
    }
}

pub open spec fn lowercase(s: Seq<char>) -> Seq<char> {
    s.map_values(|c: char| spec_to_ascii_lowercase(c))
}

/// Case-insensitive greedy subsequence score; None when `query` is not
/// a subsequence of `cand`.
pub open spec fn spec_fuzzy_score(query: Seq<char>, cand: Seq<char>) -> Option<int> {
    if query.len() == 0 {
        Some(0)
    } else {
        fuzzy_from(lowercase(query), cand, 0, 0, None, false, 0)
    }
}

/// `a` is a subsequence of `b`: its chars occur in `b` in order.
pub open spec fn is_subseq(a: Seq<char>, b: Seq<char>) -> bool
    decreases b.len(),
{
    if a.len() == 0 {
        true
    } else if b.len() == 0 {
        false
    } else if a[0] == b[0] {
        is_subseq(a.drop_first(), b.drop_first())
    } else {
        is_subseq(a, b.drop_first())
    }
}

proof fn lemma_fuzzy_from_subseq(
    q: Seq<char>,
    cand: Seq<char>,
    i: int,
    qi: int,
    prev: Option<char>,
    prev_hit: bool,
    score: int,
)
    requires
        0 <= i <= cand.len(),
        0 <= qi <= q.len(),
    ensures
        fuzzy_from(q, cand, i, qi, prev, prev_hit, score) is Some <==> is_subseq(
            q.skip(qi),
            lowercase(cand).skip(i),
        ),
    decreases cand.len() - i,
{
    let a = q.skip(qi);
    let b = lowercase(cand).skip(i);
    if i >= cand.len() {
        assert(b.len() == 0);
    } else {
        assert(b[0] == spec_to_ascii_lowercase(cand[i]));
        assert(b.drop_first() =~= lowercase(cand).skip(i + 1));
        if qi >= q.len() {
            assert(a.len() == 0);
            lemma_fuzzy_from_subseq(q, cand, i + 1, qi, prev, prev_hit, score - 1);
            assert(q.skip(qi).len() == 0);
        } else {
            assert(a[0] == q[qi]);
            assert(a.drop_first() =~= q.skip(qi + 1));
            if spec_to_ascii_lowercase(cand[i]) == q[qi] {
                let bonus = (if prev_hit {
                    16int
                } else {
                    0int
                }) + (if starts_segment(prev) {
                    8int
                } else {
                    0int
                });
                lemma_fuzzy_from_subseq(q, cand, i + 1, qi + 1, Some(cand[i]), true, score + 4 + bonus);
            } else {
                lemma_fuzzy_from_subseq(q, cand, i + 1, qi, Some(cand[i]), false, score - 1);
            }
        }
    }
}

/// A candidate scores exactly when the query, case folded, occurs in it
/// as a subsequence.
pub proof fn law_fuzzy_matches_subsequences(query: Seq<char>, cand: Seq<char>)
    ensures
        spec_fuzzy_score(query, cand) is Some <==> is_subseq(lowercase(query), lowercase(cand)),
        query.len() == 0 ==> spec_fuzzy_score(query, cand) == Some(0int),
{
    if query.len() > 0 {
        lemma_fuzzy_from_subseq(lowercase(query), cand, 0, 0, None, false, 0);
        assert(lowercase(query).skip(0) =~= lowercase(query));
        assert(lowercase(cand).skip(0) =~= lowercase(cand));
    } else {
        assert(lowercase(query).len() == 0);
    }
}

/// The punctuation documented to be trimmed from token edges:
/// brackets of every kind, quotes and backtick, and `, ; : ! ? .`.
pub open spec fn documented_edge(c: char) -> bool {
    ||| c == '\u{28}' || c == '\u{29}' || c == '\u{5b}' || c == '\u{5d}'
    ||| c == '\u{7b}' || c == '\u{7d}' || c == '\u{3c}' || c == '\u{3e}'
    ||| c == '\u{27}' || c == '\u{22}' || c == '\u{60}'
    ||| c == ',' || c == ';' || c == ':' || c == '!' || c == '?' || c == '.'
}

proof fn lemma_documented_is_edge(c: char)
    requires
        documented_edge(c),
    ensures
        is_edge(c),
{
    let e = edge_punct();
    reveal_strlit("()[]{}<>'\"`,;:!?.");
    assert(e.len() == 17);
    assert(e[0] == '\u{28}' && e[1] == '\u{29}' && e[2] == '\u{5b}' && e[3] == '\u{5d}');
    assert(e[4] == '\u{7b}' && e[5] == '\u{7d}' && e[6] == '\u{3c}' && e[7] == '\u{3e}');
    assert(e[8] == '\u{27}' && e[9] == '\u{22}' && e[10] == '\u{60}' && e[11] == ',');
    assert(e[12] == ';' && e[13] == ':' && e[14] == '!' && e[15] == '?' && e[16] == '.');
    let k = choose|k: int| 0 <= k < 17 && e[k] == c;
    assert(e.contains(c));
}

proof fn lemma_trim_front_ends(s: Seq<char>)
    ensures
        trim_edge_front(s).len() > 0 ==> !is_edge(trim_edge_front(s)[0]),
        trim_edge_front(s).len() <= s.len(),
    decreases s.len(),
{
    if s.len() > 0 && is_edge(s[0]) {
        lemma_trim_front_ends(s.drop_first());
    }
}

proof fn lemma_trim_back_ends(s: Seq<char>)
    ensures
        trim_edge_back(s).len() > 0 ==> !is_edge(trim_edge_back(s).last()) && trim_edge_back(s)[0] == s[0],
        trim_edge_back(s).len() <= s.len(),
    decreases s.len(),
{
    if s.len() > 0 && is_edge(s.last()) {
        lemma_trim_back_ends(s.drop_last());
    }
}

/// A token: at least `min` chars, no edge punctuation at either end.
pub open spec fn clean_token(t: Seq<char>, min: nat) -> bool {
    &&& t.len() >= min
    &&& t.len() > 0 ==> !is_edge(t[0]) && !is_edge(t.last())
}

proof fn lemma_long_trimmed_clean(pieces: Seq<Seq<char>>, min: nat)
    ensures
        forall|k: int| 0 <= k < long_trimmed(pieces, min).len() ==> clean_token(#[trigger] long_trimmed(pieces, min)[k], min),
    decreases pieces.len(),
{
    if pieces.len() > 0 {
        lemma_long_trimmed_clean(pieces.drop_last(), min);
        let t = trim_edge(pieces.last());
        lemma_trim_front_ends(pieces.last());
        lemma_trim_back_ends(trim_edge_front(pieces.last()));
        let rest = long_trimmed(pieces.drop_last(), min);
        if t.len() >= min {
            assert forall|k: int| 0 <= k < rest.push(t).len() implies clean_token(#[trigger] rest.push(t)[k], min) by {
                if k < rest.len() {
                    assert(rest.push(t)[k] == rest[k]);
                }
            }
        }
    }
}

proof fn lemma_words_rev_clean(lines: Seq<Seq<char>>, min: nat)
    ensures
        forall|k: int| 0 <= k < words_rev(lines, min).len() ==> clean_token(#[trigger] words_rev(lines, min)[k], min),
    decreases lines.len(),
{
    if lines.len() > 0 {
        lemma_words_rev_clean(lines.drop_last(), min);
        let a = long_trimmed(split_ws_from(lines.last(), 0), min);
        let r = words_rev(lines.drop_last(), min);
        lemma_long_trimmed_clean(split_ws_from(lines.last(), 0), min);
        assert forall|k: int| 0 <= k < (a + r).len() implies clean_token(#[trigger] (a + r)[k], min) by {
            if k < a.len() {
                assert((a + r)[k] == a[k]);
            } else {
                assert((a + r)[k] == r[k - a.len()]);
            }
        }
    }
}

/// Word tokens never start or end with the documented edge punctuation
/// (brackets, quotes, the backtick, `, ; : ! ? .`), and keep at least
/// `min` chars: `` `foo_bar` `` comes out as `foo_bar`.
pub proof fn law_tokens_lose_edge_punct(text: Seq<char>, min: nat, k: int)
    requires
        min >= 1,
        0 <= k < dedup(words_rev(spec_lines(text), min)).len(),
    ensures
        dedup(words_rev(spec_lines(text), min))[k].len() >= min,
        !documented_edge(dedup(words_rev(spec_lines(text), min))[k][0]),
        !documented_edge(dedup(words_rev(spec_lines(text), min))[k].last()),
{
    let w = words_rev(spec_lines(text), min);
    let t = dedup(w)[k];
    assert(dedup(w).contains(t));
    lemma_dedup_contains(w, t);
    let j = choose|j: int| 0 <= j < w.len() && w[j] == t;
    lemma_words_rev_clean(spec_lines(text), min);
    assert(clean_token(w[j], min));
    if documented_edge(t[0]) {
        lemma_documented_is_edge(t[0]);
    }
    if documented_edge(t.last()) {
        lemma_documented_is_edge(t.last());
    }
}

/// A score moved by `d`, or still none.
pub open spec fn shifted(o: Option<int>, d: int) -> Option<int> {
    match o {
        Some(v) => Some(v + d),
        None => None,
    }
}

proof fn lemma_fuzzy_from_shift(
    q: Seq<char>,
    cand: Seq<char>,
    i: int,
    qi: int,
    prev: Option<char>,
    prev_hit: bool,
    score: int,
)
    ensures
        fuzzy_from(q, cand, i, qi, prev, prev_hit, score) == shifted(
            fuzzy_from(q, cand, i, qi, prev, prev_hit, 0),
            score,
        ),
    decreases cand.len() - i,
{
    if i < 0 || i >= cand.len() {
    } else if qi < 0 || qi >= q.len() {
        lemma_fuzzy_from_shift(q, cand, i + 1, qi, prev, prev_hit, score - 1);
        lemma_fuzzy_from_shift(q, cand, i + 1, qi, prev, prev_hit, -1);
    } else if spec_to_ascii_lowercase(cand[i]) == q[qi] {
        let bonus = (if prev_hit {
            16int
        } else {
            0int
        }) + (if starts_segment(prev) {
            8int
        } else {
            0int
        });
        lemma_fuzzy_from_shift(q, cand, i + 1, qi + 1, Some(cand[i]), true, score + 4 + bonus);
        lemma_fuzzy_from_shift(q, cand, i + 1, qi + 1, Some(cand[i]), true, 4 + bonus);
    } else {
        lemma_fuzzy_from_shift(q, cand, i + 1, qi, Some(cand[i]), false, score - 1);
        lemma_fuzzy_from_shift(q, cand, i + 1, qi, Some(cand[i]), false, -1);
    }
}

proof fn lemma_fuzzy_from_tail(
    q: Seq<char>,
    c1: Seq<char>,
    k1: int,
    c2: Seq<char>,
    k2: int,
    qi: int,
    prev: Option<char>,
    prev_hit: bool,
    score: int,
)
    requires
        0 <= k1 <= c1.len(),
        0 <= k2 <= c2.len(),
        c1.skip(k1) == c2.skip(k2),
    ensures
        fuzzy_from(q, c1, k1, qi, prev, prev_hit, score) == fuzzy_from(q, c2, k2, qi, prev, prev_hit, score),
    decreases c1.len() - k1,
{
    assert(c1.len() - k1 == c2.skip(k2).len());
    if k1 < c1.len() {
        assert(c1[k1] == c1.skip(k1)[0]);
        assert(c2[k2] == c2.skip(k2)[0]);
        assert(c1.skip(k1 + 1) =~= c1.skip(k1).drop_first());
        assert(c2.skip(k2 + 1) =~= c2.skip(k2).drop_first());
        let c = c1[k1];
        let bonus = (if prev_hit {
            16int
        } else {
            0int
        }) + (if starts_segment(prev) {
            8int
        } else {
            0int
        });
        lemma_fuzzy_from_tail(q, c1, k1 + 1, c2, k2 + 1, qi, prev, prev_hit, score - 1);
        lemma_fuzzy_from_tail(q, c1, k1 + 1, c2, k2 + 1, qi + 1, Some(c), true, score + 4 + bonus);
        lemma_fuzzy_from_tail(q, c1, k1 + 1, c2, k2 + 1, qi, Some(c), false, score - 1);
    }
}

proof fn lemma_fuzzy_doubled_char(
    q: Seq<char>,
    a: Seq<char>,
    x: char,
    b: Seq<char>,
    i: int,
    qi: int,
    prev: Option<char>,
    prev_hit: bool,
    score: int,
)
    requires
        0 <= i <= a.len(),
        0 <= qi <= q.len(),
        forall|k: int| 0 <= k < q.len() ==> spec_to_ascii_lowercase(x) != q[k],
    ensures
        fuzzy_from(q, a + seq![x, x] + b, i, qi, prev, prev_hit, score) == shifted(
            fuzzy_from(q, a + seq![x] + b, i, qi, prev, prev_hit, score),
            -1,
        ),
    decreases a.len() - i,
{
    let c1 = a + seq![x] + b;
    let c2 = a + seq![x, x] + b;
    if i < a.len() {
        assert(c1[i] == a[i] && c2[i] == a[i]);
        let bonus = (if prev_hit {
            16int
        } else {
            0int
        }) + (if starts_segment(prev) {
            8int
        } else {
            0int
        });
        if qi >= q.len() {
            lemma_fuzzy_doubled_char(q, a, x, b, i + 1, qi, prev, prev_hit, score - 1);
        } else if spec_to_ascii_lowercase(a[i]) == q[qi] {
            lemma_fuzzy_doubled_char(q, a, x, b, i + 1, qi + 1, Some(a[i]), true, score + 4 + bonus);
        } else {
            lemma_fuzzy_doubled_char(q, a, x, b, i + 1, qi, Some(a[i]), false, score - 1);
        }
    } else {
        assert(c1[i] == x && c2[i] == x && c2[i + 1] == x);
        assert(c1.skip(i + 1) =~= b);
        assert(c2.skip(i + 2) =~= b);
        let (p2, h2) = if qi >= q.len() {
            (prev, prev_hit)
        } else {
            (Some(x), false)
        };
        if qi < q.len() {
            assert(spec_to_ascii_lowercase(x) != q[qi]);
        }
        assert(fuzzy_from(q, c1, i, qi, prev, prev_hit, score) == fuzzy_from(q, c1, i + 1, qi, p2, h2, score - 1));
        assert(fuzzy_from(q, c2, i, qi, prev, prev_hit, score) == fuzzy_from(q, c2, i + 1, qi, p2, h2, score - 1));
        assert(fuzzy_from(q, c2, i + 1, qi, p2, h2, score - 1) == fuzzy_from(q, c2, i + 2, qi, p2, h2, score - 2));
        lemma_fuzzy_from_tail(q, c2, i + 2, c1, i + 1, qi, p2, h2, score - 2);
        lemma_fuzzy_from_shift(q, c1, i + 1, qi, p2, h2, score - 2);
        lemma_fuzzy_from_shift(q, c1, i + 1, qi, p2, h2, score - 1);
    }
}

proof fn lemma_fuzzy_trailing_char(
    q: Seq<char>,
    c: Seq<char>,
    x: char,
    i: int,
    qi: int,
    prev: Option<char>,
    prev_hit: bool,
    score: int,
)
    requires
        0 <= i <= c.len(),
        0 <= qi <= q.len(),
        fuzzy_from(q, c, i, qi, prev, prev_hit, score) is Some,
    ensures
        fuzzy_from(q, c.push(x), i, qi, prev, prev_hit, score) == shifted(
            fuzzy_from(q, c, i, qi, prev, prev_hit, score),
            -1,
        ),
    decreases c.len() - i,
{
    let c2 = c.push(x);
    if i < c.len() {
        assert(c2[i] == c[i]);
        let bonus = (if prev_hit {
            16int
        } else {
            0int
        }) + (if starts_segment(prev) {
            8int
        } else {
            0int
        });
        if qi >= q.len() {
            lemma_fuzzy_trailing_char(q, c, x, i + 1, qi, prev, prev_hit, score - 1);
        } else if spec_to_ascii_lowercase(c[i]) == q[qi] {
            lemma_fuzzy_trailing_char(q, c, x, i + 1, qi + 1, Some(c[i]), true, score + 4 + bonus);
        } else {
            lemma_fuzzy_trailing_char(q, c, x, i + 1, qi, Some(c[i]), false, score - 1);
        }
    } else {
        assert(qi >= q.len());
        assert(c2[i] == x);
        assert(fuzzy_from(q, c2, i + 1, qi, prev, prev_hit, score - 1) == Some(score - 1));
    }
}

/// Once a candidate matches, any char added after it only costs one
/// point: `cand + x` scores exactly one less than `cand`.
pub proof fn law_fuzzy_trailing_char_costs_one(query: Seq<char>, cand: Seq<char>, x: char)
    requires
        query.len() > 0,
        spec_fuzzy_score(query, cand) is Some,
    ensures
        spec_fuzzy_score(query, cand.push(x)) == shifted(spec_fuzzy_score(query, cand), -1),
{
    lemma_fuzzy_trailing_char(lowercase(query), cand, x, 0, 0, None, false, 0);
}

proof fn lemma_fuzzy_done(q: Seq<char>, c: Seq<char>, i: int, qi: int, prev: Option<char>, prev_hit: bool, score: int)
    requires
        0 <= i <= c.len(),
        qi >= q.len(),
    ensures
        fuzzy_from(q, c, i, qi, prev, prev_hit, score) == Some(score - (c.len() - i)),
    decreases c.len() - i,
{
    if i < c.len() {
        lemma_fuzzy_done(q, c, i + 1, qi, prev, prev_hit, score - 1);
    }
}

proof fn lemma_fuzzy_one_char(y: char, c: Seq<char>, i: int, k: int, prev: Option<char>, score: int)
    requires
        0 <= i <= k < c.len(),
        spec_to_ascii_lowercase(c[k]) == y,
        forall|j: int| i <= j < k ==> spec_to_ascii_lowercase(#[trigger] c[j]) != y,
    ensures
        fuzzy_from(seq![y], c, i, 0, prev, false, score) == Some(
            score - (k - i) + 4 + (if starts_segment(if k == i {
                prev
            } else {
                Some(c[k - 1])
            }) {
                8int
            } else {
                0int
            }) - (c.len() - k - 1),
        ),
    decreases k - i,
{
    if i < k {
        lemma_fuzzy_one_char(y, c, i + 1, k, Some(c[i]), score - 1);
    } else {
        let bonus = if starts_segment(prev) {
            8int
        } else {
            0int
        };
        lemma_fuzzy_done(seq![y], c, i + 1, 1, Some(c[i]), true, score + 4 + bonus);
    }
}

/// A one-char query scores its first hit: 4 points, 8 more when the hit
/// starts the candidate or follows a separator, less one point for every
/// other char of the candidate.
pub proof fn law_fuzzy_single_char(y: char, cand: Seq<char>, k: int)
    requires
        0 <= k < cand.len(),
        spec_to_ascii_lowercase(cand[k]) == spec_to_ascii_lowercase(y),
        forall|j: int| 0 <= j < k ==> spec_to_ascii_lowercase(#[trigger] cand[j]) != spec_to_ascii_lowercase(y),
    ensures
        spec_fuzzy_score(seq![y], cand) == Some(
            4 + (if k == 0 || starts_segment(Some(cand[k - 1])) {
                8int
            } else {
                0int
            }) - (cand.len() - 1),
        ),
{
    let ly = spec_to_ascii_lowercase(y);
    assert(lowercase(seq![y]) =~= seq![ly]);
    lemma_fuzzy_one_char(ly, cand, 0, k, None, 0);
}

/// Every candidate char that is not a hit costs exactly one point: a
/// char the query does not contain, repeated once more anywhere in the
/// candidate, lowers its score by one and changes nothing else (so
/// scattered hits rank below tight ones).
pub proof fn law_fuzzy_skipped_char_costs_one(query: Seq<char>, a: Seq<char>, x: char, b: Seq<char>)
    requires
        query.len() > 0,
        forall|k: int| 0 <= k < query.len() ==> spec_to_ascii_lowercase(x) != spec_to_ascii_lowercase(#[trigger] query[k]),
    ensures
        spec_fuzzy_score(query, a + seq![x, x] + b) == shifted(spec_fuzzy_score(query, a + seq![x] + b), -1),
{
    let q = lowercase(query);
    assert forall|k: int| 0 <= k < q.len() implies spec_to_ascii_lowercase(x) != q[k] by {
        assert(q[k] == spec_to_ascii_lowercase(query[k]));
    }
    lemma_fuzzy_doubled_char(q, a, x, b, 0, 0, None, false, 0);
}

/// The most chars a candidate may have for its score to fit an `i64`.
pub open spec fn cand_max() -> nat {
    0x0400_0000_0000_0000
}

pub fn fuzzy_score(query: &str, cand: &str) -> (r: Option<i64>)
    requires
        cand@.len() <= cand_max(),
    ensures
        match r {
            Some(v) => spec_fuzzy_score(query@, cand@) == Some(v as int),
            None => spec_fuzzy_score(query@, cand@) is None,
        },
{
    let q0 = chars_of(query);
    if q0.len() == 0 {
        return Some(0);
    }
    let mut q: Vec<char> = Vec::new();
    let mut k: usize = 0;
    while k < q0.len()
        invariant
            k <= q0@.len(),
            q@ == lowercase(q0@).take(k as int),
        decreases q0@.len() - k,
    {
        q.push(to_ascii_lowercase(q0[k]));
        k = k + 1;
        assert(q@ =~= lowercase(q0@).take(k as int));
    }
    assert(q@ =~= lowercase(query@));
    let c = chars_of(cand);
    let mut score: i64 = 0;
    let mut qi: usize = 0;
    let mut prev: Option<char> = None;
    let mut prev_hit = false;
    let mut i: usize = 0;
    while i < c.len()
        invariant
            c@ == cand@,
            c@.len() <= cand_max(),
            q@ == lowercase(query@),
            i <= c@.len(),
            qi <= q@.len(),
            -(i as int) <= score <= 28 * i,
            fuzzy_from(q@, c@, 0, 0, None, false, 0) == fuzzy_from(
                q@,
                c@,
                i as int,
                qi as int,
                prev,
                prev_hit,
                score as int,
            ),
        decreases c@.len() - i,
    {
        let ch = c[i];
        if qi >= q.len() {
            score = score - 1;
        } else if to_ascii_lowercase(ch) == q[qi] {
            qi = qi + 1;
            let mut s2 = score + 4;
            if prev_hit {
                s2 = s2 + 16;
            }
            if starts_seg(prev) {
                s2 = s2 + 8;
            }
            score = s2;
            prev_hit = true;
            prev = Some(ch);
        } else {
            score = score - 1;
            prev_hit = false;
            prev = Some(ch);
        }
        i = i + 1;
    }
    if qi < q.len() {
        return None;
    }
    Some(score)
}

fn starts_seg(prev: Option<char>) -> (b: bool)
    ensures
        b == starts_segment(prev),
{
    match prev {
        None => true,
        Some(c) => is_whitespace(c) || in_lit(c, "/._-:@"),
    }
}

/// Candidate `a` ranks before `b`: a higher score, or the same score and
/// an earlier (more recent) candidate.
pub open spec fn ranks_before(sc: Seq<Option<int>>, a: int, b: int) -> bool {
    sc[a]->0 > sc[b]->0 || (sc[a]->0 == sc[b]->0 && a < b)
}

/// `r` lists exactly the candidates with a score, best first, ties in
/// their input (recency) order.
pub open spec fn is_ranking(sc: Seq<Option<int>>, r: Seq<usize>) -> bool {
    &&& forall|k: int| 0 <= k < r.len() ==> (#[trigger] r[k]) < sc.len() && sc[r[k] as int] is Some
    &&& forall|i: int| 0 <= i < sc.len() && (#[trigger] sc[i]) is Some ==> r.contains(i as usize)
    &&& forall|j: int, k: int|
        0 <= j < k < r.len() ==> ranks_before(sc, #[trigger] r[j] as int, #[trigger] r[k] as int)
}

/// The ranking of scores `sc` (`is_ranking` fixes it).
pub open spec fn spec_rank(sc: Seq<Option<int>>) -> Seq<usize> {
    choose|r: Seq<usize>| is_ranking(sc, r)
}

proof fn lemma_sorted_unique(sc: Seq<Option<int>>, s1: Seq<usize>, s2: Seq<usize>)
    requires
        forall|k: int| 0 <= k < s1.len() ==> (#[trigger] s1[k]) < sc.len() && sc[s1[k] as int] is Some,
        forall|k: int| 0 <= k < s2.len() ==> (#[trigger] s2[k]) < sc.len() && sc[s2[k] as int] is Some,
        forall|j: int, k: int|
            0 <= j < k < s1.len() ==> ranks_before(sc, #[trigger] s1[j] as int, #[trigger] s1[k] as int),
        forall|j: int, k: int|
            0 <= j < k < s2.len() ==> ranks_before(sc, #[trigger] s2[j] as int, #[trigger] s2[k] as int),
        forall|x: usize| s1.contains(x) <==> s2.contains(x),
    ensures
        s1 == s2,
    decreases s1.len(),
{
    if s1.len() == 0 {
        if s2.len() > 0 {
            assert(s2.contains(s2[0]));
        }
        assert(s1 =~= s2);
    } else {
        assert(s1.contains(s1[0]));
        let j = choose|j: int| 0 <= j < s2.len() && s2[j] == s1[0];
        assert(s2.contains(s2[0]));
        let i = choose|i: int| 0 <= i < s1.len() && s1[i] == s2[0];
        if j > 0 {
            assert(ranks_before(sc, s2[0] as int, s2[j] as int));
            if i > 0 {
                assert(ranks_before(sc, s1[0] as int, s1[i] as int));
            }
        }
        assert(s1[0] == s2[0]);
        let t1 = s1.drop_first();
        let t2 = s2.drop_first();
        assert forall|x: usize| t1.contains(x) <==> t2.contains(x) by {
            if t1.contains(x) {
                let a = choose|a: int| 0 <= a < t1.len() && t1[a] == x;
                assert(ranks_before(sc, s1[0] as int, s1[a + 1] as int));
                assert(s2.contains(x));
                let b = choose|b: int| 0 <= b < s2.len() && s2[b] == x;
                if b == 0 {
                    assert(s1[a + 1] == s1[0]);
                }
                assert(t2[b - 1] == x);
            }
            if t2.contains(x) {
                let a = choose|a: int| 0 <= a < t2.len() && t2[a] == x;
                assert(ranks_before(sc, s2[0] as int, s2[a + 1] as int));
                assert(s1.contains(x));
                let b = choose|b: int| 0 <= b < s1.len() && s1[b] == x;
                if b == 0 {
                    assert(s2[a + 1] == s2[0]);
                }
                assert(t1[b - 1] == x);
            }
        }
        assert forall|j: int, k: int| 0 <= j < k < t1.len() implies ranks_before(sc, #[trigger] t1[j] as int, #[trigger] t1[k] as int) by {
            assert(ranks_before(sc, s1[j + 1] as int, s1[k + 1] as int));
        }
        assert forall|j: int, k: int| 0 <= j < k < t2.len() implies ranks_before(sc, #[trigger] t2[j] as int, #[trigger] t2[k] as int) by {
            assert(ranks_before(sc, s2[j + 1] as int, s2[k + 1] as int));
        }
        assert forall|k: int| 0 <= k < t1.len() implies (#[trigger] t1[k]) < sc.len() && sc[t1[k] as int] is Some by {
            assert(t1[k] == s1[k + 1]);
        }
        assert forall|k: int| 0 <= k < t2.len() implies (#[trigger] t2[k]) < sc.len() && sc[t2[k] as int] is Some by {
            assert(t2[k] == s2[k + 1]);
        }
        lemma_sorted_unique(sc, t1, t2);
        assert forall|k: int| 0 <= k < s1.len() implies s1[k] == s2[k] by {
            if k > 0 {
                assert(s1[k] == t1[k - 1]);
                assert(s2[k] == t2[k - 1]);
            }
        }
        assert(s1.len() == s2.len());
        assert(s1 =~= s2);
    }
}

/// A ranking is unique: `rank` computes `spec_rank`.
pub proof fn lemma_ranking_unique(sc: Seq<Option<int>>, r: Seq<usize>)
    requires
        is_ranking(sc, r),
    ensures
        r == spec_rank(sc),
{
    let r2 = spec_rank(sc);
    assert(is_ranking(sc, r2));
    assert forall|x: usize| r.contains(x) <==> r2.contains(x) by {
        if r.contains(x) {
            let a = choose|a: int| 0 <= a < r.len() && r[a] == x;
            assert(sc[r[a] as int] is Some);
        }
        if r2.contains(x) {
            let a = choose|a: int| 0 <= a < r2.len() && r2[a] == x;
            assert(sc[r2[a] as int] is Some);
        }
    }
    lemma_sorted_unique(sc, r, r2);
}

pub open spec fn scores(query: Seq<char>, cands: Seq<Seq<char>>) -> Seq<Option<int>> {
    cands.map_values(|c: Seq<char>| spec_fuzzy_score(query, c))
}

/// Indices of matching candidates, best score first; ties keep the
/// input (recency) order.
pub fn rank(query: &str, cands: &[String]) -> (r: Vec<usize>)
    requires
        all_within(cands@.map_values(|s: String| s@), cand_max()),
    ensures
        is_ranking(scores(query@, cands@.map_values(|s: String| s@)), r@),
{
    let ghost cv = cands@.map_values(|s: String| s@);
    let ghost sc = scores(query@, cv);
    let mut out: Vec<usize> = Vec::new();
    let mut vals: Vec<i64> = Vec::new();
    let mut i: usize = 0;
    while i < cands.len()
        invariant
            cv == cands@.map_values(|s: String| s@),
            sc == scores(query@, cv),
            all_within(cv, cand_max()),
            i <= cands@.len(),
            vals@.len() == out@.len(),
            forall|k: int| 0 <= k < out@.len() ==> (#[trigger] out@[k]) < i && sc[out@[k] as int] == Some(
                vals@[k] as int,
            ),
            forall|m: int| 0 <= m < i && (#[trigger] sc[m]) is Some ==> out@.contains(m as usize),
            forall|j: int, k: int|
                0 <= j < k < out@.len() ==> ranks_before(sc, #[trigger] out@[j] as int, #[trigger] out@[k] as int),
        decreases cands@.len() - i,
    {
        assert(cv[i as int] == cands@[i as int]@);
        match fuzzy_score(query, cands[i].as_str()) {
            None => {},
            Some(v) => {
                // After every entry that ranks before it (score not lower).
                let mut p: usize = 0;
                while p < out.len() && vals[p] >= v
                    invariant
                        p <= out@.len(),
                        vals@.len() == out@.len(),
                        forall|k: int| 0 <= k < p ==> vals@[k] >= v,
                    decreases out@.len() - p,
                {
                    p = p + 1;
                }
                let ghost o = out@;
                let ghost vs = vals@;
                out.insert(p, i);
                vals.insert(p, v);
                proof {
                    assert(sc[i as int] == Some(v as int));
                    // Order: entries before p rank before i; entries after rank after it.
                    assert forall|k: int| 0 <= k < out@.len() implies (#[trigger] out@[k]) < i + 1 && sc[out@[k] as int] == Some(
                        vals@[k] as int,
                    ) by {
                        if k < p {
                            assert(out@[k] == o[k]);
                        } else if k > p {
                            assert(out@[k] == o[k - 1]);
                        }
                    }
                    assert forall|m: int| 0 <= m < i + 1 && (#[trigger] sc[m]) is Some implies out@.contains(m as usize) by {
                        if m == i {
                            assert(out@[p as int] == i);
                        } else {
                            let w = choose|w: int| 0 <= w < o.len() && o[w] == m as usize;
                            if w < p {
                                assert(out@[w] == m as usize);
                            } else {
                                assert(out@[w + 1] == m as usize);
                            }
                        }
                    }
                    assert forall|j: int, k: int| 0 <= j < k < out@.len() implies ranks_before(
                        sc,
                        #[trigger] out@[j] as int,
                        #[trigger] out@[k] as int,
                    ) by {
                        if k < p {
                            assert(ranks_before(sc, o[j] as int, o[k] as int));
                        } else if j > p {
                            assert(ranks_before(sc, o[j - 1] as int, o[k - 1] as int));
                        } else if j == p {
                            // v > vals[k] (the scan stopped at p) and i > every index.
                            assert(out@[j] == i);
                            assert(out@[k] == o[k - 1]);
                            if p < o.len() {
                                assert(vs[p as int] < v);
                                if k - 1 > p {
                                    assert(ranks_before(sc, o[p as int] as int, o[k - 1] as int));
                                }
                            }
                        } else {
                            // j < p == k, or j < p < k.
                            if k == p {
                                assert(out@[k] == i);
                                assert(out@[j] == o[j]);
                                assert(vs[j] >= v);
                            } else {
                                assert(out@[j] == o[j]);
                                assert(out@[k] == o[k - 1]);
                                assert(ranks_before(sc, o[j] as int, o[k - 1] as int));
                            }
                        }
                    }
                }
            },
        }
        i = i + 1;
    }
    out
}

// ---------------------------------------------------------------- layout

pub open spec fn spec_popup_layout(rows: int, pct: int) -> (int, int) {
    let p0 = rows * pct / 100;
    let p1 = if p0 < 4 {
        4
    } else {
        p0
    };
    let cap = if rows < 1 {
        1
    } else {
        rows
    };
    let popup = if p1 > cap {
        cap
    } else {
        p1
    };
    let list = if popup - 3 < 1 {
        1
    } else {
        popup - 3
    };
    (if rows > popup {
        rows - popup
    } else {
        0
    }, list)
}

/// Screen split for the fzf-style bottom popup: rows above the popup
/// show the source pane as a backdrop, the popup itself is
/// `clamp(rows * pct / 100, 4, rows)` tall with three reserved rows below
/// the list (hint, separator, prompt). Returns (backdrop_rows, list_rows).
pub fn popup_layout(rows: usize, pct: u8) -> (r: (usize, usize))
    requires
        rows <= usize::MAX / 256,
    ensures
        (r.0 as int, r.1 as int) == spec_popup_layout(rows as int, pct as int),
        r.1 >= 1,
        r.0 <= rows,
{
    assert(rows * (pct as usize) <= usize::MAX) by (nonlinear_arith)
        requires
            rows <= usize::MAX / 256,
            pct <= 255,
    ;
    let p0 = rows * pct as usize / 100;
    let p1 = if p0 < 4 {
        4
    } else {
        p0
    };
    let cap = if rows < 1 {
        1
    } else {
        rows
    };
    let popup = if p1 > cap {
        cap
    } else {
        p1
    };
    let list = if popup < 4 {
        1
    } else {
        popup - 3
    };
    (if rows > popup {
        rows - popup
    } else {
        0
    }, list)
}


// ---------------------------------------------------------------- picker

#[derive(Debug, Clone, Copy, PartialEq, Eq, Structural)]
pub enum Granularity {
    Word,
    Line,
}

#[derive(Debug, PartialEq, Eq)]
pub enum ExtractEffect {
    Copy(String),
    Insert(String),
}

/// An effect as plain values: (is it a copy, the text).
pub open spec fn extract_effect_v(e: Option<ExtractEffect>) -> Option<(bool, Seq<char>)> {
    match e {
        Some(ExtractEffect::Copy(s)) => Some((true, s@)),
        Some(ExtractEffect::Insert(s)) => Some((false, s@)),
        None => None,
    }
}

/// The most rows or columns the picker's terminal may have.
pub open spec fn extract_dim_max() -> int {
    (usize::MAX / 256) as int
}

/// extrakto-style token picker: type to fuzzy-filter, Enter inserts
/// into the source pane, Tab copies via OSC 52. All fields are public
/// so that contracts outside this module can speak of them.
pub struct ExtractApp {
    pub query: LineEdit,
    pub granularity: Granularity,
    pub words: Vec<String>,
    pub lines: Vec<String>,
    /// Indices into the active candidate list, best match first.
    pub filtered: Vec<usize>,
    /// Index into `filtered`; 0 is the best match, drawn next to the prompt.
    pub selected: usize,
    /// List rows inside the popup (excludes the hint, separator, and
    /// prompt rows).
    pub view_rows: usize,
    pub view_cols: usize,
    /// Rows above the popup showing the pane backdrop.
    pub backdrop_rows: usize,
    /// Total rows in the backdrop buffer, for scroll clamping.
    pub backdrop_len: usize,
    /// Rows the backdrop view is shifted up from the tail (0 = tail).
    pub backdrop_off: usize,
    pub height_pct: u8,
    pub theme: Theme,
    pub quit: bool,
}

/// The picker as plain values.
pub struct ExtractV {
    pub query: (Seq<char>, int),
    pub granularity: Granularity,
    pub words: Seq<Seq<char>>,
    pub lines: Seq<Seq<char>>,
    pub filtered: Seq<usize>,
    pub selected: usize,
    pub view_rows: usize,
    pub view_cols: usize,
    pub backdrop_rows: usize,
    pub backdrop_len: usize,
    pub backdrop_off: usize,
    pub height_pct: u8,
    pub theme: Theme,
    pub quit: bool,
}

impl View for ExtractApp {
    type V = ExtractV;

    open spec fn view(&self) -> ExtractV {
        ExtractV {
            query: self.query.state(),
            granularity: self.granularity,
            words: strings_view(self.words@),
            lines: strings_view(self.lines@),
            filtered: self.filtered@,
            selected: self.selected,
            view_rows: self.view_rows,
            view_cols: self.view_cols,
            backdrop_rows: self.backdrop_rows,
            backdrop_len: self.backdrop_len,
            backdrop_off: self.backdrop_off,
            height_pct: self.height_pct,
            theme: self.theme,
            quit: self.quit,
        }
    }
}

pub open spec fn cands_of(x: ExtractV) -> Seq<Seq<char>> {
    match x.granularity {
        Granularity::Word => x.words,
        Granularity::Line => x.lines,
    }
}

/// The candidates ranked against the query.
pub open spec fn ranked(x: ExtractV) -> Seq<usize> {
    spec_rank(scores(x.query.0, cands_of(x)))
}

impl ExtractApp {
    /// The picker's invariant, less what ties the list to the candidates.
    pub open spec fn wf_base(&self) -> bool {
        &&& self.query.wf()
        &&& all_within(strings_view(self.words@), cand_max())
        &&& all_within(strings_view(self.lines@), cand_max())
        &&& 1 <= self.view_rows <= extract_dim_max()
        &&& 1 <= self.view_cols <= extract_dim_max()
        &&& self.backdrop_rows <= extract_dim_max()
        &&& self.backdrop_len <= extract_dim_max()
        &&& self.backdrop_off <= self.backdrop_len
        &&& 1 <= self.height_pct <= 100
    }

    pub open spec fn wf(&self) -> bool {
        &&& self.query.wf()
        &&& all_within(strings_view(self.words@), cand_max())
        &&& all_within(strings_view(self.lines@), cand_max())
        &&& forall|k: int| 0 <= k < self.filtered@.len() ==> (#[trigger] self.filtered@[k]) < cands_of(self@).len()
        &&& (self.selected == 0 || self.selected < self.filtered@.len())
        &&& 1 <= self.view_rows <= extract_dim_max()
        &&& 1 <= self.view_cols <= extract_dim_max()
        &&& self.backdrop_rows <= extract_dim_max()
        &&& self.backdrop_len <= extract_dim_max()
        &&& self.backdrop_off <= self.backdrop_len
        &&& 1 <= self.height_pct <= 100
    }

    /// Backdrop rows that show content (its last row is the separator).
    pub open spec fn content_rows_v(x: ExtractV) -> int {
        if x.backdrop_rows >= 1 {
            x.backdrop_rows - 1
        } else {
            0
        }
    }

    fn backdrop_content_rows(&self) -> (n: usize)
        ensures
            n == Self::content_rows_v(self@),
    {
        if self.backdrop_rows >= 1 {
            self.backdrop_rows - 1
        } else {
            0
        }
    }

    fn refilter(&mut self)
        requires
            old(self).wf_base(),
        ensures
            final(self).wf(),
            final(self)@ == (ExtractV { filtered: ranked(old(self)@), selected: 0, ..old(self)@ }),
    {
        let q = self.query.text();
        let r = match self.granularity {
            Granularity::Word => rank(q.as_str(), self.words.as_slice()),
            Granularity::Line => rank(q.as_str(), self.lines.as_slice()),
        };
        proof {
            lemma_ranking_unique(scores(self.query.chars_v(), cands_of(self@)), r@);
        }
        self.filtered = r;
        self.selected = 0;
    }

    pub fn new(text: &str, height_pct: u8, backdrop_len: usize) -> (a: Self)
        requires
            text@.len() <= cand_max(),
            backdrop_len <= extract_dim_max(),
        ensures
            a.wf(),
            a@.query == (Seq::<char>::empty(), 0int),
            a@.granularity == Granularity::Word,
            a@.words == dedup(words_rev(spec_lines(text@), MIN_TOKEN_LEN as nat)),
            a@.lines == dedup(lines_rev(spec_lines(text@))),
            a@.filtered == ranked(a@),
            a@.selected == 0,
            a@.view_rows == 1 && a@.view_cols == 80,
            a@.backdrop_rows == 0 && a@.backdrop_len == backdrop_len && a@.backdrop_off == 0,
            a@.height_pct == (if height_pct < 1 { 1 } else if height_pct > 100 { 100 } else { height_pct }),
            a@.theme == default_theme(),
            !a@.quit,
    {
        let words = tokenize_words(text, MIN_TOKEN_LEN);
        let lines = tokenize_lines(text);
        let mut app = ExtractApp {
            query: LineEdit::default(),
            granularity: Granularity::Word,
            words,
            lines,
            filtered: Vec::new(),
            selected: 0,
            view_rows: 1,
            view_cols: 80,
            backdrop_rows: 0,
            backdrop_len,
            backdrop_off: 0,
            height_pct: if height_pct < 1 {
                1
            } else if height_pct > 100 {
                100
            } else {
                height_pct
            },
            theme: Theme::default(),
            quit: false,
        };
        app.refilter();
        app
    }

    /// Replace the active color theme.
    pub fn set_theme(&mut self, theme: Theme)
        requires
            old(self).wf(),
        ensures
            final(self).wf(),
            final(self)@ == (ExtractV { theme, ..old(self)@ }),
    {
        self.theme = theme;
    }

    /// Shift the backdrop view by `delta` rows (positive = older
    /// output), clamped between the tail and the oldest read line.
    pub fn scroll_backdrop(&mut self, delta: isize)
        requires
            old(self).wf(),
            old(self).backdrop_rows > 0 ==> old(self).backdrop_off + delta <= isize::MAX,
        ensures
            final(self).wf(),
            final(self)@ == (if old(self).backdrop_rows == 0 {
                old(self)@
            } else {
                let m = old(self).backdrop_len - Self::content_rows_v(old(self)@);
                let max = if m < 0 {
                    0
                } else {
                    m
                };
                let off = old(self).backdrop_off + delta;
                ExtractV {
                    backdrop_off: (if off < 0 {
                        0
                    } else if off > max {
                        max
                    } else {
                        off
                    }) as usize,
                    ..old(self)@
                }
            }),
    {
        if self.backdrop_rows == 0 {
            return;
        }
        let bcr = self.backdrop_content_rows();
        let max = if self.backdrop_len >= bcr {
            self.backdrop_len - bcr
        } else {
            0
        };
        let off: usize = if delta >= 0 {
            let v = self.backdrop_off + delta as usize;
            if v > max {
                max
            } else {
                v
            }
        } else {
            let d: usize = ((0 - (delta + 1)) as usize) + 1;
            if self.backdrop_off < d {
                0
            } else {
                let v = self.backdrop_off - d;
                if v > max {
                    max
                } else {
                    v
                }
            }
        };
        self.backdrop_off = off;
    }

    pub fn set_size(&mut self, cols: usize, rows: usize)
        requires
            old(self).wf(),
            cols <= extract_dim_max(),
            rows <= extract_dim_max(),
        ensures
            final(self).wf(),
            ({
                let (b, l) = spec_popup_layout(rows as int, old(self).height_pct as int);
                let x = ExtractV {
                    view_cols: if cols < 1 {
                        1
                    } else {
                        cols
                    },
                    backdrop_rows: b as usize,
                    view_rows: l as usize,
                    ..old(self)@
                };
                let m = x.backdrop_len - Self::content_rows_v(x);
                let max = if m < 0 {
                    0
                } else {
                    m
                };
                final(self)@ == (if b == 0 {
                    ExtractV { backdrop_off: 0, ..x }
                } else {
                    ExtractV {
                        backdrop_off: (if x.backdrop_off > max {
                            max
                        } else {
                            x.backdrop_off as int
                        }) as usize,
                        ..x
                    }
                })
            }),
    {
        self.view_cols = if cols < 1 {
            1
        } else {
            cols
        };
        let (backdrop, list) = popup_layout(rows, self.height_pct);
        self.backdrop_rows = backdrop;
        self.view_rows = list;
        if self.backdrop_rows == 0 {
            self.backdrop_off = 0;
        } else {
            self.scroll_backdrop(0);
        }
    }

    pub fn candidates(&self) -> (c: &[String])
        ensures
            c@.map_values(|s: String| s@) == cands_of(self@),
    {
        match self.granularity {
            Granularity::Word => self.words.as_slice(),
            Granularity::Line => self.lines.as_slice(),
        }
    }

    pub fn selected_text(&self) -> (t: Option<&str>)
        requires
            self.wf(),
        ensures
            match t {
                None => !(self.selected < self.filtered@.len()),
                Some(s) => self.selected < self.filtered@.len() && s@ == cands_of(self@)[self.filtered@[self.selected as int] as int],
            },
    {
        if self.selected >= self.filtered.len() {
            return None;
        }
        let idx = self.filtered[self.selected];
        let c = self.candidates();
        assert(c@.map_values(|s: String| s@)[idx as int] == c@[idx as int]@);
        Some(c[idx].as_str())
    }

    fn move_selection(&mut self, delta: isize)
        requires
            old(self).wf(),
            -1 <= delta <= 1,
        ensures
            final(self).wf(),
            final(self)@ == (if old(self).filtered@.len() == 0 {
                old(self)@
            } else {
                let s = old(self).selected + delta;
                let max = old(self).filtered@.len() - 1;
                ExtractV {
                    selected: (if s < 0 {
                        0
                    } else if s > max {
                        max
                    } else {
                        s
                    }) as usize,
                    ..old(self)@
                }
            }),
    {
        if self.filtered.len() == 0 {
            return;
        }
        let max = self.filtered.len() - 1;
        if delta > 0 {
            if self.selected < max {
                self.selected = self.selected + 1;
            } else {
                self.selected = max;
            }
        } else if delta < 0 {
            if self.selected > 0 {
                self.selected = if self.selected - 1 > max {
                    max
                } else {
                    self.selected - 1
                };
            }
        } else if self.selected > max {
            self.selected = max;
        }
    }
}

} // verus!

verus! {

/// What a key does to the picker, and the effect it returns.
pub open spec fn spec_extract_key(x: ExtractV, key: Key) -> (ExtractV, Option<(bool, Seq<char>)>) {
    let ctrl = key.mods.ctrl;
    let bcr = ExtractApp::content_rows_v(x);
    let page = if bcr < 1 {
        1
    } else {
        bcr
    };
    let sel_text = if x.selected < x.filtered.len() {
        Some(cands_of(x)[x.filtered[x.selected as int] as int])
    } else {
        None
    };
    if key.code == Code::Char('c') && ctrl {
        (ExtractV { quit: true, ..x }, None)
    } else if key.code == Code::Char('t') && ctrl {
        let x1 = ExtractV {
            granularity: match x.granularity {
                Granularity::Word => Granularity::Line,
                Granularity::Line => Granularity::Word,
            },
            ..x
        };
        (ExtractV { filtered: ranked(x1), selected: 0, ..x1 }, None)
    } else if (key.code == Code::Char('p') && ctrl) || key.code == Code::Up {
        (moved(x, 1), None)
    } else if (key.code == Code::Char('n') && ctrl) || key.code == Code::Down {
        (moved(x, -1), None)
    } else if key.code == Code::PageUp {
        (scrolled(x, page), None)
    } else if key.code == Code::PageDown {
        (scrolled(x, -page), None)
    } else if key.code == Code::Esc {
        if x.query.0.len() == 0 {
            (ExtractV { quit: true, ..x }, None)
        } else {
            let x1 = ExtractV { query: (seq![], 0), ..x };
            (ExtractV { filtered: ranked(x1), selected: 0, ..x1 }, None)
        }
    } else if key.code == Code::Enter || key.code == Code::Tab {
        match sel_text {
            Some(t) => (ExtractV { quit: true, ..x }, Some((key.code == Code::Tab, t))),
            None => (x, None),
        }
    } else {
        let (q2, handled) = edit_key(x.query, key);
        let x1 = ExtractV { query: q2, ..x };
        if handled {
            (ExtractV { filtered: ranked(x1), selected: 0, ..x1 }, None)
        } else {
            (x1, None)
        }
    }
}

/// The selection moved by `delta`, clamped to the list.
pub open spec fn moved(x: ExtractV, delta: int) -> ExtractV {
    if x.filtered.len() == 0 {
        x
    } else {
        let s = x.selected + delta;
        let max = x.filtered.len() - 1;
        ExtractV {
            selected: (if s < 0 {
                0
            } else if s > max {
                max
            } else {
                s
            }) as usize,
            ..x
        }
    }
}

/// The backdrop shifted by `delta`, clamped to the read history.
pub open spec fn scrolled(x: ExtractV, delta: int) -> ExtractV {
    if x.backdrop_rows == 0 {
        x
    } else {
        let m = x.backdrop_len - ExtractApp::content_rows_v(x);
        let max = if m < 0 {
            0
        } else {
            m
        };
        let off = x.backdrop_off + delta;
        ExtractV {
            backdrop_off: (if off < 0 {
                0
            } else if off > max {
                max
            } else {
                off
            }) as usize,
            ..x
        }
    }
}

impl ExtractApp {
    pub fn handle_key(&mut self, key: Key) -> (e: Option<ExtractEffect>)
        requires
            old(self).wf(),
        ensures
            final(self).wf(),
            (final(self)@, extract_effect_v(e)) == spec_extract_key(old(self)@, key),
    {
        let ctrl = key.mods.ctrl;
        if key.code == Code::Char('c') && ctrl {
            self.quit = true;
            return None;
        }
        if key.code == Code::Char('t') && ctrl {
            self.granularity = match self.granularity {
                Granularity::Word => Granularity::Line,
                Granularity::Line => Granularity::Word,
            };
            self.refilter();
            return None;
        }
        if (key.code == Code::Char('p') && ctrl) || key.code == Code::Up {
            self.move_selection(1);
            return None;
        }
        if (key.code == Code::Char('n') && ctrl) || key.code == Code::Down {
            self.move_selection(-1);
            return None;
        }
        let bcr = self.backdrop_content_rows();
        let page: isize = if bcr < 1 {
            1
        } else {
            bcr as isize
        };
        if key.code == Code::PageUp {
            self.scroll_backdrop(page);
            return None;
        }
        if key.code == Code::PageDown {
            self.scroll_backdrop(-page);
            return None;
        }
        if key.code == Code::Esc {
            if self.query.is_empty() {
                self.quit = true;
            } else {
                self.query.clear();
                self.refilter();
            }
            return None;
        }
        if key.code == Code::Enter || key.code == Code::Tab {
            let text = match self.selected_text() {
                Some(t) => t.to_owned(),
                None => {
                    return None;
                },
            };
            self.quit = true;
            return Some(
                if key.code == Code::Tab {
                    ExtractEffect::Copy(text)
                } else {
                    ExtractEffect::Insert(text)
                },
            );
        }
        if self.query.handle_key(key) {
            self.refilter();
        }
        None
    }

    /// Wheel over the backdrop scrolls it; over the popup it moves the
    /// selection (up = older, same as the Up key).
    pub fn handle_mouse(&mut self, ev: Mouse)
        requires
            old(self).wf(),
        ensures
            final(self).wf(),
            final(self)@ == (match ev.kind {
                MouseKind::ScrollUp => if (ev.row as int) < old(self).backdrop_rows {
                    scrolled(old(self)@, 3)
                } else {
                    moved(old(self)@, 1)
                },
                MouseKind::ScrollDown => if (ev.row as int) < old(self).backdrop_rows {
                    scrolled(old(self)@, -3)
                } else {
                    moved(old(self)@, -1)
                },
                _ => old(self)@,
            }),
    {
        let delta: isize = match ev.kind {
            MouseKind::ScrollUp => 1,
            MouseKind::ScrollDown => -1,
            _ => {
                return;
            },
        };
        if (ev.row as usize) < self.backdrop_rows {
            self.scroll_backdrop(delta * 3);
        } else {
            self.move_selection(delta);
        }
    }

    /// The window of `filtered` to display, keeping the selection
    /// visible within `view_rows` entries.
    pub fn window(&self) -> (w: &[usize])
        requires
            self.wf(),
        ensures
            ({
                let start = if self.selected + 1 > self.view_rows {
                    self.selected + 1 - self.view_rows
                } else {
                    0
                };
                let end = if start + self.view_rows < self.filtered@.len() {
                    start + self.view_rows
                } else {
                    self.filtered@.len() as int
                };
                w@ == self.filtered@.subrange(start, end)
            }),
    {
        let start = if self.selected >= self.view_rows {
            self.selected - (self.view_rows - 1)
        } else {
            0
        };
        let n = self.filtered.len();
        let end = if start <= n && self.view_rows < n - start {
            start + self.view_rows
        } else {
            n
        };
        vstd::slice::slice_subrange(self.filtered.as_slice(), start, end)
    }

    /// Position of the selected entry inside `window()`.
    pub fn window_selected(&self) -> (k: usize)
        requires
            self.wf(),
        ensures
            k == self.selected - (if self.selected + 1 > self.view_rows {
                self.selected + 1 - self.view_rows
            } else {
                0
            }),
    {
        let start = if self.selected >= self.view_rows {
            self.selected - (self.view_rows - 1)
        } else {
            0
        };
        self.selected - start
    }
}


/// ctrl+c ends the picker from any state, with nothing picked.
pub proof fn law_extract_ctrl_c_exits(x: ExtractV, key: Key)
    requires
        key.code == Code::Char('c'),
        key.mods.ctrl,
    ensures
        spec_extract_key(x, key).0.quit,
        spec_extract_key(x, key).1 is None,
{
}

/// Esc clears a non-empty query (back to the full list) and ends the
/// picker only once the query is empty.
pub proof fn law_extract_esc_clears_query_first(x: ExtractV, key: Key)
    requires
        key.code == Code::Esc,
    ensures
        x.query.0.len() > 0 ==> spec_extract_key(x, key).0.query.0.len() == 0
            && spec_extract_key(x, key).0.quit == x.quit,
        x.query.0.len() == 0 ==> spec_extract_key(x, key).0.quit,
        spec_extract_key(x, key).1 is None,
{
}

/// With a candidate selected, Enter inserts it and Tab copies it, and
/// either ends the picker; with none, both do nothing.
pub proof fn law_extract_pick(x: ExtractV, key: Key)
    requires
        key.code == Code::Enter || key.code == Code::Tab,
    ensures
        x.selected < x.filtered.len() ==> spec_extract_key(x, key).0.quit && spec_extract_key(x, key).1
            == Some((key.code == Code::Tab, cands_of(x)[x.filtered[x.selected as int] as int])),
        x.selected >= x.filtered.len() ==> spec_extract_key(x, key) == (x, None::<(bool, Seq<char>)>),
{
}

/// No item occurs twice.
pub open spec fn distinct(s: Seq<Seq<char>>) -> bool {
    forall|i: int, j: int| 0 <= i < j < s.len() ==> s[i] != s[j]
}

/// Deduplication keeps one copy of each item: nothing occurs twice, and
/// every item of the input is still there.
pub proof fn law_dedup_distinct(s: Seq<Seq<char>>)
    ensures
        distinct(dedup(s)),
        forall|x: Seq<char>| s.contains(x) <==> #[trigger] dedup(s).contains(x),
    decreases s.len(),
{
    if s.len() > 0 {
        law_dedup_distinct(s.drop_last());
        lemma_dedup_push(s.drop_last(), s.last());
        assert(s.drop_last().push(s.last()) =~= s);
        let d = dedup(s.drop_last());
        if !d.contains(s.last()) {
            assert forall|i: int, j: int| 0 <= i < j < d.push(s.last()).len() implies d.push(s.last())[i] != d.push(s.last())[j] by {
                if j == d.len() {
                    assert(d.push(s.last())[i] == d[i]);
                }
            }
        }
        assert forall|x: Seq<char>| s.contains(x) <==> #[trigger] dedup(s).contains(x) by {
            lemma_dedup_contains(s, x);
        }
    }
}
} // verus!
