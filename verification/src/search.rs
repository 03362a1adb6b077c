//! Incremental search: regex (or literal) matches over logical lines,
//! and vi-style seeking through them.
use vstd::prelude::*;
use crate::buffer::{concat_rows, pos_le, pos_leq, pos_lt, Buffer, Line, Pos};
use crate::motion::{flat_pos, offset, row_chars};
use crate::regex_engine::{
    escape, find_matches, is_boundary, regex_accepts, regex_escaped, regex_find, well_formed_matches,
};
use crate::text::{chars_of, spec_byte_offset, string_of, utf8_len};
use crate::unicode::{char_is_uppercase, is_uppercase};

verus! {

/// One search hit as an inclusive span of buffer positions. A hit may
/// cross soft-wrapped rows, so `start` and `end` can be on different
/// rows; `end` is the last matched position (inclusive).
#[derive(Debug, Clone, Copy, PartialEq, Eq, Structural)]
pub struct Match {
    pub start: Pos,
    pub end: Pos,
}

impl Match {
    pub open spec fn spec_covers(self, p: Pos) -> bool {
        pos_le(self.start, p) && pos_le(p, self.end)
    }

    /// Whether `p` lies within the span (row-major order, so a multi-row
    /// span covers every position on its interior rows).
    pub fn covers(&self, p: Pos) -> (b: bool)
        ensures
            b == self.spec_covers(p),
    {
        crate::buffer::pos_leq(self.start, p) && crate::buffer::pos_leq(p, self.end)
    }
}

#[derive(Debug, Clone, Copy, PartialEq, Eq, Structural)]
pub enum Direction {
    Forward,
    Backward,
}

pub open spec fn spec_flipped(d: Direction) -> Direction {
    match d {
        Direction::Forward => Direction::Backward,
        Direction::Backward => Direction::Forward,
    }
}

impl Direction {
    pub fn flipped(self) -> (d: Self)
        ensures
            d == spec_flipped(self),
    {
        match self {
            Direction::Forward => Direction::Backward,
            Direction::Backward => Direction::Forward,
        }
    }
}

pub struct Search {
    pub pattern: String,
    pub direction: Option<Direction>,
    pub matches: Vec<Match>,
    pub current: Option<usize>,
    /// Smartcase (vi-style, default on): a pattern with no uppercase is
    /// matched case-insensitively; any uppercase makes it case-sensitive.
    /// Toggled off, search is always case-sensitive.
    pub smartcase: bool,
}

impl Default for Search {
    fn default() -> (s: Self)
        ensures
            s.pattern@ == Seq::<char>::empty(),
            s.direction is None,
            s.matches@ == Seq::<Match>::empty(),
            s.current is None,
            s.smartcase,
    {
        Search {
            pattern: String::new(),
            direction: None,
            matches: Vec::new(),
            current: None,
            smartcase: true,
        }
    }
}

/// A search as plain values.
pub struct SearchV {
    pub pattern: Seq<char>,
    pub direction: Option<Direction>,
    pub matches: Seq<Match>,
    pub current: Option<usize>,
    pub smartcase: bool,
}

impl View for Search {
    type V = SearchV;

    open spec fn view(&self) -> SearchV {
        SearchV {
            pattern: self.pattern@,
            direction: self.direction,
            matches: self.matches@,
            current: self.current,
            smartcase: self.smartcase,
        }
    }
}

// ------------------------------------------------------------- matching

/// Smartcase folds case only when the pattern has no uppercase char.
pub open spec fn folds_case(smartcase: bool, pattern: Seq<char>) -> bool {
    smartcase && !(exists|i: int| 0 <= i < pattern.len() && char_is_uppercase(#[trigger] pattern[i]))
}

/// The pattern the engine runs: the query as a regex, or escaped to a
/// literal when it is not a valid regex; None when neither builds.
pub open spec fn effective_pattern(pattern: Seq<char>, ci: bool) -> Option<Seq<char>> {
    if regex_accepts(pattern, ci) {
        Some(pattern)
    } else if regex_accepts(regex_escaped(pattern), ci) {
        Some(regex_escaped(pattern))
    } else {
        None
    }
}

/// The logical lines (soft-wrap groups) from `row` down, as row ranges.
pub open spec fn groups_from(buf: Buffer, row: int) -> Seq<(int, int)>
    decreases buf.lines@.len() - row,
{
    if row < 0 || row >= buf.lines@.len() {
        seq![]
    } else {
        let last = buf.span_last(row);
        if last < row || last >= buf.lines@.len() {
            seq![]
        } else {
            seq![(buf.span_first(row), last)] + groups_from(buf, last + 1)
        }
    }
}

/// The chars of a group's rows run together.
pub open spec fn group_hay(lines: Seq<Line>, g: (int, int)) -> Seq<char> {
    concat_rows(row_chars(lines), g.0, g.1 + 1)
}

/// Char index of byte offset `b` in `hay`.
pub open spec fn char_index(hay: Seq<char>, b: int) -> int {
    choose|k: int| 0 <= k <= hay.len() && spec_byte_offset(hay, k) == b
}

/// The nonempty engine hits `ms` of one group, as buffer spans.
pub open spec fn group_hits(lines: Seq<Line>, g: (int, int), ms: Seq<(usize, usize)>) -> Seq<Match>
    decreases ms.len(),
{
    if ms.len() == 0 {
        seq![]
    } else {
        let hay = group_hay(lines, g);
        let (b0, b1) = ms.last();
        let rest = group_hits(lines, g, ms.drop_last());
        if b0 == b1 {
            rest
        } else {
            let s = char_index(hay, b0 as int);
            let e = char_index(hay, b1 as int);
            rest.push(
                Match { start: flat_pos(lines, g.0, g.1, s), end: flat_pos(lines, g.0, g.1, e - 1) },
            )
        }
    }
}

/// Hits of `p` over the groups `gs`, group by group.
pub open spec fn hits_over(lines: Seq<Line>, gs: Seq<(int, int)>, p: Seq<char>, ci: bool) -> Seq<
    Match,
>
    decreases gs.len(),
{
    if gs.len() == 0 {
        seq![]
    } else {
        hits_over(lines, gs.drop_last(), p, ci) + group_hits(
            lines,
            gs.last(),
            regex_find(p, ci, group_hay(lines, gs.last())),
        )
    }
}

/// All matches of a query: nonempty engine matches over each logical
/// line in row order, each as inclusive buffer positions.
pub open spec fn spec_matches(buf: Buffer, pattern: Seq<char>, smartcase: bool) -> Seq<Match> {
    let ci = folds_case(smartcase, pattern);
    if pattern.len() == 0 {
        seq![]
    } else {
        match effective_pattern(pattern, ci) {
            None => seq![],
            Some(p) => hits_over(buf.lines@, groups_from(buf, 0), p, ci),
        }
    }
}

} // verus!

verus! {

/// Every match lies on a row of a buffer of `n` rows, with columns
/// below `usize::MAX`.
pub open spec fn matches_within(ms: Seq<Match>, n: nat) -> bool {
    forall|i: int|
        0 <= i < ms.len() ==> {
            &&& (#[trigger] ms[i]).start.row < n
            &&& ms[i].end.row < n
            &&& ms[i].start.col < usize::MAX
            &&& ms[i].end.col < usize::MAX
        }
}

/// A hit never crosses a hard line break: its start and end lie in one
/// soft-wrap group.
pub open spec fn within_groups(buf: Buffer, ms: Seq<Match>) -> bool {
    forall|i: int|
        0 <= i < ms.len() ==> buf.span_first((#[trigger] ms[i]).start.row as int) == buf.span_first(
            ms[i].end.row as int,
        )
}

/// Every row of a soft-wrap group starts the group at its first row.
proof fn lemma_span_first_in_group(buf: Buffer, r0: int, r1: int, r: int)
    requires
        buf.is_span(r0, r0, r1),
        r0 <= r <= r1,
    ensures
        buf.span_first(r) == r0,
    decreases r - r0,
{
    if r > r0 {
        assert(buf.wraps(r - 1));
        lemma_span_first_in_group(buf, r0, r1, r - 1);
    }
}

proof fn lemma_flat_pos_bounds(lines: Seq<Line>, r0: int, r: int, i: int)
    requires
        0 <= r0 <= r <= usize::MAX,
        0 <= i <= usize::MAX,
    ensures
        r0 <= flat_pos(lines, r0, r, i).row <= r,
        flat_pos(lines, r0, r, i).col <= i,
    decreases r - r0,
{
    if r <= r0 || offset(lines, r0, r) <= i {
        assert(offset(lines, r0, r0) == 0);
    } else {
        lemma_flat_pos_bounds(lines, r0, r - 1, i);
    }
}

/// Later indices of the flattened rows sit at later buffer positions.
proof fn lemma_flat_pos_mono(lines: Seq<Line>, r0: int, r: int, i: int, j: int)
    requires
        0 <= r0 <= r <= usize::MAX,
        0 <= i < j <= usize::MAX,
    ensures
        pos_lt(flat_pos(lines, r0, r, i), flat_pos(lines, r0, r, j)),
    decreases r - r0,
{
    assert(offset(lines, r0, r0) == 0);
    if r <= r0 || offset(lines, r0, r) <= i {
    } else if offset(lines, r0, r) <= j {
        lemma_flat_pos_bounds(lines, r0, r - 1, i);
    } else {
        lemma_flat_pos_mono(lines, r0, r - 1, i, j);
    }
}

/// An index of the flattened rows `r0..=r` below their total length
/// lands on a char of its row.
proof fn lemma_flat_pos_col(lines: Seq<Line>, r0: int, r: int, i: int)
    requires
        0 <= r0 <= r < lines.len(),
        r <= usize::MAX,
        0 <= i < offset(lines, r0, r + 1),
        i <= usize::MAX,
    ensures
        flat_pos(lines, r0, r, i).col < lines[flat_pos(lines, r0, r, i).row as int].chars@.len(),
    decreases r - r0,
{
    assert(offset(lines, r0, r0) == 0);
    assert(row_chars(lines)[r] == lines[r].chars@);
    assert(offset(lines, r0, r + 1) == offset(lines, r0, r) + lines[r].chars@.len());
    if r <= r0 || offset(lines, r0, r) <= i {
    } else {
        lemma_flat_pos_col(lines, r0, r - 1, i);
    }
}

/// Each match starts no later than it ends, and ends before the next
/// one starts.
pub open spec fn spans_ordered(ms: Seq<Match>) -> bool {
    &&& forall|i: int| 0 <= i < ms.len() ==> pos_le((#[trigger] ms[i]).start, ms[i].end)
    &&& forall|i: int| 0 <= i && i + 1 < ms.len() ==> pos_lt((#[trigger] ms[i]).end, ms[i + 1].start)
}

/// Both ends of every match sit on a char of their row.
pub open spec fn on_chars(buf: Buffer, ms: Seq<Match>) -> bool {
    forall|i: int|
        0 <= i < ms.len() ==> {
            &&& (#[trigger] ms[i]).start.row < buf.lines@.len()
            &&& ms[i].start.col < buf.lines@[ms[i].start.row as int].chars@.len()
            &&& ms[i].end.row < buf.lines@.len()
            &&& ms[i].end.col < buf.lines@[ms[i].end.row as int].chars@.len()
        }
}

/// Match starts strictly increase in buffer order.
pub open spec fn starts_increasing(ms: Seq<Match>) -> bool {
    forall|a: int, b: int| 0 <= a < b < ms.len() ==> pos_lt(#[trigger] ms[a].start, #[trigger] ms[b].start)
}

proof fn lemma_push_increasing(ms: Seq<Match>, m: Match)
    requires
        starts_increasing(ms),
        ms.len() > 0 ==> pos_lt(ms.last().start, m.start),
    ensures
        starts_increasing(ms.push(m)),
{
    let t = ms.push(m);
    assert forall|a: int, b: int| 0 <= a < b < t.len() implies pos_lt(#[trigger] t[a].start, #[trigger] t[b].start) by {
        if b == ms.len() && a < ms.len() - 1 {
            assert(pos_lt(ms[a].start, ms[ms.len() - 1].start));
        }
    }
}

proof fn lemma_byte_offset_injective(s: Seq<char>, a: int, b: int)
    requires
        0 <= a <= s.len(),
        0 <= b <= s.len(),
        spec_byte_offset(s, a) == spec_byte_offset(s, b),
    ensures
        a == b,
{
    if a < b {
        crate::text::lemma_byte_offset_strict(s, a, b);
    } else if b < a {
        crate::text::lemma_byte_offset_strict(s, b, a);
    }
}

proof fn lemma_char_index(hay: Seq<char>, b: int, k: int)
    requires
        0 <= k <= hay.len(),
        spec_byte_offset(hay, k) == b,
    ensures
        char_index(hay, b) == k,
{
    let c = char_index(hay, b);
    assert(is_boundary(hay, b));
    lemma_byte_offset_injective(hay, c, k);
}

/// Char index of a byte offset that falls on a char boundary.
fn char_index_of(hay: &Vec<char>, b: usize) -> (k: usize)
    requires
        is_boundary(hay@, b as int),
    ensures
        k == char_index(hay@, b as int),
        k <= hay@.len(),
{
    let ghost kstar = choose|k: int| 0 <= k <= hay@.len() && spec_byte_offset(hay@, k) == b;
    let mut k: usize = 0;
    let mut off: usize = 0;
    while off < b
        invariant
            0 <= kstar <= hay.len(),
            spec_byte_offset(hay@, kstar) == b,
            k <= kstar,
            off == spec_byte_offset(hay@, k as int),
            off <= b,
        decreases kstar - k,
    {
        proof {
            if k == kstar {
                assert(false);
            }
            crate::text::lemma_byte_offset_mono(hay@, k + 1, kstar);
        }
        off = off + utf8_len(hay[k]);
        k = k + 1;
    }
    proof {
        lemma_byte_offset_injective(hay@, k as int, kstar);
        lemma_char_index(hay@, b as int, k as int);
    }
    k
}

proof fn lemma_char_index_order(hay: Seq<char>, b0: int, b1: int)
    requires
        is_boundary(hay, b0),
        is_boundary(hay, b1),
        b0 < b1,
    ensures
        char_index(hay, b0) < char_index(hay, b1),
{
    let k0 = char_index(hay, b0);
    let k1 = char_index(hay, b1);
    if k1 <= k0 {
        crate::text::lemma_byte_offset_mono(hay, k1, k0);
    }
}

/// The rows `r0..=r1` run together, with each row's start offset.
fn group_rows(buf: &Buffer, r0: usize, r1: usize) -> (r: (Vec<char>, Vec<(usize, usize)>))
    requires
        r0 <= r1 < buf.lines@.len(),
    ensures
        r.0@ == concat_rows(row_chars(buf.lines@), r0 as int, r1 + 1),
        r.1@.len() == r1 - r0 + 1,
        forall|k: int|
            #![trigger r.1@[k]]
            0 <= k < r.1@.len() ==> r.1@[k].0 == r0 + k && r.1@[k].1 == offset(
                buf.lines@,
                r0 as int,
                r0 + k,
            ),
{
    let ghost rows = row_chars(buf.lines@);
    assert(buf.lines.len() == buf.lines@.len());
    let mut flat: Vec<char> = Vec::new();
    let mut starts: Vec<(usize, usize)> = Vec::new();
    let mut row = r0;
    while row <= r1
        invariant
            r0 <= row <= r1 + 1,
            r1 < buf.lines@.len() <= usize::MAX,
            rows == row_chars(buf.lines@),
            flat@ == concat_rows(rows, r0 as int, row as int),
            starts@.len() == row - r0,
            forall|k: int|
                #![trigger starts@[k]]
                0 <= k < starts@.len() ==> starts@[k].0 == r0 + k && starts@[k].1 == offset(
                    buf.lines@,
                    r0 as int,
                    r0 + k,
                ),
        decreases r1 + 1 - row,
    {
        starts.push((row, flat.len()));
        let line = &buf.lines[row];
        crate::buffer::extend_from(&mut flat, &line.chars, 0, line.chars.len());
        assert(line.chars@.subrange(0, line.chars@.len() as int) =~= line.chars@);
        assert(rows[row as int] == line.chars@);
        row = row + 1;
        assert(flat@ =~= concat_rows(rows, r0 as int, row as int));
    }
    (flat, starts)
}

fn has_uppercase(p: &Vec<char>) -> (b: bool)
    ensures
        b == (exists|i: int| 0 <= i < p@.len() && char_is_uppercase(#[trigger] p@[i])),
{
    let mut i: usize = 0;
    while i < p.len()
        invariant
            i <= p@.len(),
            forall|k: int| 0 <= k < i ==> !char_is_uppercase(#[trigger] p@[k]),
        decreases p@.len() - i,
    {
        if is_uppercase(p[i]) {
            return true;
        }
        i = i + 1;
    }
    false
}

impl Search {
    /// Recompute all matches for a pattern. The pattern is tried as a
    /// regex first and falls back to a literal match when it is not a
    /// valid regex. Matches are found per logical line, so a hit can
    /// cross a soft wrap but never a hard newline.
    pub fn run(&mut self, buf: &Buffer, pattern: &str, direction: Direction)
        requires
            buf.wf(),
        ensures
            final(self).pattern@ == pattern@,
            final(self).direction == Some(direction),
            final(self).current is None,
            final(self).smartcase == old(self).smartcase,
            final(self).matches@ == spec_matches(*buf, pattern@, old(self).smartcase),
            matches_within(final(self).matches@, buf.lines@.len()),
            within_groups(*buf, final(self).matches@),
            starts_increasing(final(self).matches@),
            spans_ordered(final(self).matches@),
            on_chars(*buf, final(self).matches@),
            final(self)@ == spec_run(old(self)@, *buf, pattern@, direction),
    {
        self.pattern = pattern.to_owned();
        self.direction = Some(direction);
        self.matches = Vec::new();
        self.current = None;
        let pchars = chars_of(pattern);
        if pchars.len() == 0 {
            return;
        }
        let ci = self.smartcase && !has_uppercase(&pchars);
        // Collect each logical line (soft-wrapped rows joined) in row order.
        let mut hays: Vec<Vec<char>> = Vec::new();
        let mut spans: Vec<(usize, usize)> = Vec::new();
        let mut starts: Vec<Vec<(usize, usize)>> = Vec::new();
        let ghost all = groups_from(*buf, 0);
        let mut row: usize = 0;
        assert(all =~= spans@.map_values(|g: (usize, usize)| (g.0 as int, g.1 as int)) + groups_from(*buf, 0));
        while row < buf.lines.len()
            invariant
                buf.wf(),
                all == groups_from(*buf, 0),
                all == spans@.map_values(|g: (usize, usize)| (g.0 as int, g.1 as int))
                    + groups_from(*buf, row as int),
                hays@.len() == spans@.len(),
                starts@.len() == spans@.len(),
                row <= buf.lines@.len(),
                spans@.len() == 0 ==> row == 0,
                spans@.len() > 0 ==> spans@.last().1 + 1 == row,
                forall|i: int|
                    #![trigger spans@[i]]
                    0 <= i && i + 1 < spans@.len() ==> spans@[i].1 + 1 == spans@[i + 1].0,
                forall|i: int|
                    #![trigger spans@[i]]
                    0 <= i < spans@.len() ==> {
                        &&& spans@[i].0 <= spans@[i].1 < buf.lines@.len()
                        &&& buf.is_span(spans@[i].0 as int, spans@[i].0 as int, spans@[i].1 as int)
                        &&& hays@[i]@ == group_hay(buf.lines@, (spans@[i].0 as int, spans@[i].1 as int))
                        &&& starts@[i]@.len() == spans@[i].1 - spans@[i].0 + 1
                        &&& forall|k: int|
                            #![trigger starts@[i]@[k]]
                            0 <= k < starts@[i]@.len() ==> starts@[i]@[k].0 == spans@[i].0 + k
                                && starts@[i]@[k].1 == offset(buf.lines@, spans@[i].0 as int, spans@[i].0 + k)
                    },
            decreases buf.lines@.len() - row,
        {
            let (r0, r1) = buf.logical_span(row);
            proof {
                if spans@.len() > 0 {
                    let prev = spans@[spans@.len() - 1];
                    assert(buf.is_span(prev.0 as int, prev.0 as int, prev.1 as int));
                    assert(!buf.wraps(row - 1));
                }
                if r0 < row {
                    assert(buf.wraps(row - 1));
                }
            }
            let (flat, st) = group_rows(buf, r0, r1);
            let ghost before = spans@;
            hays.push(flat);
            spans.push((r0, r1));
            starts.push(st);
            proof {
                assert(groups_from(*buf, row as int) == seq![(r0 as int, r1 as int)] + groups_from(
                    *buf,
                    r1 + 1,
                ));
                assert(spans@.map_values(|g: (usize, usize)| (g.0 as int, g.1 as int)) =~= before.map_values(
                    |g: (usize, usize)| (g.0 as int, g.1 as int),
                ).push((r0 as int, r1 as int)));
            }
            row = r1 + 1;
        }
        assert(groups_from(*buf, row as int) =~= Seq::<(int, int)>::empty());
        let ghost gs = spans@.map_values(|g: (usize, usize)| (g.0 as int, g.1 as int));
        assert(gs =~= all);
        // The query as a regex, or escaped to a literal when it does not build.
        let pat: String = match find_matches(pattern, ci, "") {
            Some(_) => pattern.to_owned(),
            None => escape(pattern),
        };
        let ghost p = pat@;
        let mut matches: Vec<Match> = Vec::new();
        let mut i: usize = 0;
        while i < hays.len()
            invariant
                i <= hays@.len(),
                buf.wf(),
                gs == all,
                gs.len() == spans@.len(),
                gs == spans@.map_values(|g: (usize, usize)| (g.0 as int, g.1 as int)),
                hays@.len() == spans@.len(),
                starts@.len() == spans@.len(),
                ci == folds_case(old(self).smartcase, pattern@),
                regex_accepts(pattern@, ci) ==> p == pattern@,
                !regex_accepts(pattern@, ci) ==> p == regex_escaped(pattern@),
                pattern@.len() > 0,
                self.matches@ == Seq::<Match>::empty(),
                forall|i: int|
                    #![trigger spans@[i]]
                    0 <= i < spans@.len() ==> {
                        &&& spans@[i].0 <= spans@[i].1 < buf.lines@.len()
                        &&& buf.is_span(spans@[i].0 as int, spans@[i].0 as int, spans@[i].1 as int)
                        &&& hays@[i]@ == group_hay(buf.lines@, (spans@[i].0 as int, spans@[i].1 as int))
                        &&& starts@[i]@.len() == spans@[i].1 - spans@[i].0 + 1
                        &&& forall|k: int|
                            #![trigger starts@[i]@[k]]
                            0 <= k < starts@[i]@.len() ==> starts@[i]@[k].0 == spans@[i].0 + k
                                && starts@[i]@[k].1 == offset(buf.lines@, spans@[i].0 as int, spans@[i].0 + k)
                    },
                p == pat@,
                i > 0 ==> regex_accepts(p, ci),
                forall|i: int|
                    #![trigger spans@[i]]
                    0 <= i && i + 1 < spans@.len() ==> spans@[i].1 + 1 == spans@[i + 1].0,
                starts_increasing(matches@),
                spans_ordered(matches@),
                on_chars(*buf, matches@),
                matches@.len() > 0 && i < spans@.len() ==> matches@.last().start.row < spans@[i as int].0,
                matches@.len() > 0 && i < spans@.len() ==> matches@.last().end.row < spans@[i as int].0,
                matches@ == hits_over(buf.lines@, gs.take(i as int), p, ci),
                matches_within(matches@, buf.lines@.len()),
                within_groups(*buf, matches@),
                self.pattern@ == pattern@,
                self.direction == Some(direction),
                self.current is None,
                self.smartcase == old(self).smartcase,
            decreases hays@.len() - i,
        {
            let hay = &hays[i];
            let hs = string_of(hay.as_slice());
            let found = find_matches(pat.as_str(), ci, hs.as_str());
            let ms = match &found {
                Some(v) => v,
                None => {
                    return;
                },
            };
            let (r0, r1) = spans[i];
            let st = &starts[i];
            let ghost g = (r0 as int, r1 as int);
            assert(gs[i as int] == g);
            let ghost base = matches@;
            // Byte offset of the last hit taken from this group, and an
            // offset that it lies below and the next hit starts at or after.
            let ghost mut lastb: int = 0;
            let ghost mut laste: int = 0;
            let ghost mut bound: int = 0;
            let mut j: usize = 0;
            while j < ms.len()
                invariant
                    j <= ms@.len(),
                    r0 <= r1 < buf.lines@.len(),
                    hay@ == group_hay(buf.lines@, g),
                    g == (r0 as int, r1 as int),
                    well_formed_matches(hay@, ms@),
                    st@.len() == r1 - r0 + 1,
                    forall|k: int|
                        #![trigger st@[k]]
                        0 <= k < st@.len() ==> st@[k].0 == r0 + k && st@[k].1 == offset(
                            buf.lines@,
                            r0 as int,
                            r0 + k,
                        ),
                    matches@ == base + group_hits(buf.lines@, g, ms@.take(j as int)),
                    matches_within(matches@, buf.lines@.len()),
                    within_groups(*buf, matches@),
                    buf.is_span(r0 as int, r0 as int, r1 as int),
                    starts_increasing(matches@),
                    spans_ordered(matches@),
                    on_chars(*buf, matches@),
                    matches@.len() > 0 ==> matches@.last().start.row <= r1,
                    matches@.len() > 0 ==> matches@.last().end.row <= r1,
                    base.len() > 0 ==> base.last().start.row < r0,
                    base.len() > 0 ==> base.last().end.row < r0,
                    matches@.len() > base.len() ==> {
                        &&& 0 <= lastb < bound
                        &&& is_boundary(hay@, lastb)
                        &&& matches@.last().start == flat_pos(buf.lines@, r0 as int, r1 as int, char_index(hay@, lastb))
                        &&& laste <= bound
                        &&& is_boundary(hay@, laste)
                        &&& 1 <= char_index(hay@, laste) <= hay@.len()
                        &&& matches@.last().end == flat_pos(buf.lines@, r0 as int, r1 as int, char_index(hay@, laste) - 1)
                    },
                    0 <= bound,
                    j < ms@.len() ==> bound <= ms@[j as int].0,
                within_groups(*buf, matches@),
                decreases ms@.len() - j,
            {
                let (b0, b1) = ms[j];
                assert(ms@.take(j + 1).drop_last() =~= ms@.take(j as int));
                assert(ms@.take(j + 1).last() == (b0, b1));
                if b0 != b1 {
                    assert(is_boundary(hay@, ms@[j as int].0 as int));
                    let s = char_index_of(hay, b0);
                    let e = char_index_of(hay, b1);
                    proof {
                        lemma_char_index_order(hay@, b0 as int, b1 as int);
                    }
                    proof {
                        lemma_flat_pos_bounds(buf.lines@, r0 as int, r1 as int, s as int);
                        lemma_flat_pos_bounds(buf.lines@, r0 as int, r1 as int, e - 1);
                        lemma_span_first_in_group(
                            *buf,
                            r0 as int,
                            r1 as int,
                            flat_pos(buf.lines@, r0 as int, r1 as int, s as int).row as int,
                        );
                        lemma_span_first_in_group(
                            *buf,
                            r0 as int,
                            r1 as int,
                            flat_pos(buf.lines@, r0 as int, r1 as int, e - 1).row as int,
                        );
                    }
                    let m = Match {
                        start: crate::motion::to_pos(buf, st, r0, r1, s),
                        end: crate::motion::to_pos(buf, st, r0, r1, e - 1),
                    };
                    proof {
                        assert(hay@.len() == offset(buf.lines@, r0 as int, r1 + 1));
                        lemma_flat_pos_col(buf.lines@, r0 as int, r1 as int, s as int);
                        lemma_flat_pos_col(buf.lines@, r0 as int, r1 as int, e - 1);
                        if s < e - 1 {
                            lemma_flat_pos_mono(buf.lines@, r0 as int, r1 as int, s as int, e - 1);
                        }
                        if matches@.len() > base.len() {
                            lemma_char_index_order(hay@, lastb, b0 as int);
                            lemma_flat_pos_mono(buf.lines@, r0 as int, r1 as int, char_index(hay@, lastb), s as int);
                            if laste < b0 {
                                lemma_char_index_order(hay@, laste, b0 as int);
                            } else {
                                lemma_char_index(hay@, b0 as int, s as int);
                            }
                            lemma_flat_pos_mono(buf.lines@, r0 as int, r1 as int, char_index(hay@, laste) - 1, s as int);
                        } else if base.len() > 0 {
                            assert(matches@ =~= base);
                        }
                        lemma_push_increasing(matches@, m);
                        let t = matches@.push(m);
                        assert forall|k: int| 0 <= k && k + 1 < t.len() implies pos_lt((#[trigger] t[k]).end, t[k + 1].start) by {
                            if k + 1 < matches@.len() {
                                assert(t[k] == matches@[k] && t[k + 1] == matches@[k + 1]);
                            }
                        }
                        assert forall|k: int| 0 <= k < t.len() implies pos_le((#[trigger] t[k]).start, t[k].end) by {
                            if k < matches@.len() {
                                assert(t[k] == matches@[k]);
                            }
                        }
                        lastb = b0 as int;
                        laste = b1 as int;
                    }
                    matches.push(m);
                }
                proof {
                    bound = b1 as int;
                }
                j = j + 1;
            }
            assert(ms@.take(ms@.len() as int) =~= ms@);
            proof {
                if i + 1 < spans@.len() {
                    assert(spans@[i as int].1 + 1 == spans@[i + 1].0);
                }
                assert(gs.take(i + 1).drop_last() =~= gs.take(i as int));
                assert(gs.take(i + 1).last() == g);
            }
            i = i + 1;
        }
        assert(gs.take(i as int) =~= gs);
        self.matches = matches;
    }
}


// --------------------------------------------------------------- seeking

/// Whether match `m` is a candidate when seeking from `pos` in `dir`:
/// its start lies ahead of (behind) the cursor, or on it when inclusive.
pub open spec fn seek_hit(m: Match, pos: Pos, dir: Direction, inclusive: bool) -> bool {
    match dir {
        Direction::Forward => if inclusive {
            pos_le(pos, m.start)
        } else {
            pos_lt(pos, m.start)
        },
        Direction::Backward => if inclusive {
            pos_le(m.start, pos)
        } else {
            pos_lt(m.start, pos)
        },
    }
}

/// `idx` is the match a seek lands on: the first candidate going
/// forward (wrapping to the first match when there is none), the last
/// candidate going backward (wrapping to the last match).
pub open spec fn seek_choice(ms: Seq<Match>, pos: Pos, dir: Direction, inclusive: bool, idx: int) -> bool {
    let any = exists|j: int| 0 <= j < ms.len() && #[trigger] seek_hit(ms[j], pos, dir, inclusive);
    &&& 0 <= idx < ms.len()
    &&& match dir {
        Direction::Forward => if any {
            seek_hit(ms[idx], pos, dir, inclusive) && forall|j: int|
                0 <= j < idx ==> !#[trigger] seek_hit(ms[j], pos, dir, inclusive)
        } else {
            idx == 0
        },
        Direction::Backward => if any {
            seek_hit(ms[idx], pos, dir, inclusive) && forall|j: int|
                idx < j < ms.len() ==> !#[trigger] seek_hit(ms[j], pos, dir, inclusive)
        } else {
            idx == ms.len() - 1
        },
    }
}

/// What a seek from `pos` does to a search `s` and returns: with no
/// matches, nothing is current and nothing is returned; else the chosen
/// match becomes current and is returned. Nothing else changes.
pub open spec fn seek_result(
    s: Search,
    t: Search,
    r: Option<Match>,
    pos: Pos,
    dir: Direction,
    inclusive: bool,
) -> bool {
    &&& t.pattern@ == s.pattern@
    &&& t.direction == s.direction
    &&& t.matches@ == s.matches@
    &&& t.smartcase == s.smartcase
    &&& if s.matches@.len() == 0 {
        t.current is None && r is None
    } else {
        t.current matches Some(i) && seek_choice(s.matches@, pos, dir, inclusive, i as int) && r
            == Some(s.matches@[i as int])
    }
}

/// What a run of `pattern` in `dir` over `buf` makes of a search: the
/// new pattern and direction, every match of it, nothing current.
pub open spec fn spec_run(s: SearchV, buf: Buffer, pattern: Seq<char>, dir: Direction) -> SearchV {
    SearchV {
        pattern,
        direction: Some(dir),
        matches: spec_matches(buf, pattern, s.smartcase),
        current: None,
        smartcase: s.smartcase,
    }
}

/// The index a seek lands on (see `seek_choice`, which fixes it).
pub open spec fn seek_index(ms: Seq<Match>, pos: Pos, dir: Direction, inclusive: bool) -> int {
    choose|i: int| seek_choice(ms, pos, dir, inclusive, i)
}

/// A seek as a function of the search: the chosen match becomes current
/// and is returned; with no matches nothing is current.
pub open spec fn spec_seek(s: SearchV, pos: Pos, dir: Direction, inclusive: bool) -> (SearchV, Option<Match>) {
    if s.matches.len() == 0 {
        (SearchV { current: None, ..s }, None)
    } else {
        let i = seek_index(s.matches, pos, dir, inclusive);
        (SearchV { current: Some(i as usize), ..s }, Some(s.matches[i]))
    }
}

/// At most one index satisfies `seek_choice`.
pub proof fn lemma_seek_choice_unique(ms: Seq<Match>, pos: Pos, dir: Direction, inclusive: bool, i: int, j: int)
    requires
        seek_choice(ms, pos, dir, inclusive, i),
        seek_choice(ms, pos, dir, inclusive, j),
    ensures
        i == j,
{
    if i < j {
        assert(seek_hit(ms[i], pos, dir, inclusive) || seek_hit(ms[j], pos, dir, inclusive) || true);
    }
}

/// The first match covering `p`, if any.
pub open spec fn first_cover(ms: Seq<Match>, p: Pos, r: Option<Match>) -> bool {
    match r {
        None => forall|i: int| 0 <= i < ms.len() ==> !(#[trigger] ms[i]).spec_covers(p),
        Some(m) => exists|i: int|
            0 <= i < ms.len() && ms[i] == m && m.spec_covers(p) && forall|j: int|
                0 <= j < i ==> !(#[trigger] ms[j]).spec_covers(p),
    }
}

/// The first match covering `p`, as a function of the matches.
pub open spec fn spec_match_at(ms: Seq<Match>, p: Pos) -> Option<Match> {
    if exists|i: int| 0 <= i < ms.len() && (#[trigger] ms[i]).spec_covers(p) {
        Some(
            ms[choose|i: int|
                0 <= i < ms.len() && ms[i].spec_covers(p) && forall|j: int|
                    0 <= j < i ==> !(#[trigger] ms[j]).spec_covers(p)],
        )
    } else {
        None
    }
}

fn is_seek_hit(m: Match, pos: Pos, dir: Direction, inclusive: bool) -> (b: bool)
    ensures
        b == seek_hit(m, pos, dir, inclusive),
{
    match dir {
        Direction::Forward => if inclusive {
            pos_leq(pos, m.start)
        } else {
            !pos_leq(m.start, pos)
        },
        Direction::Backward => if inclusive {
            pos_leq(m.start, pos)
        } else {
            !pos_leq(pos, m.start)
        },
    }
}

impl Search {
    pub fn clear(&mut self)
        ensures
            final(self).pattern@ == Seq::<char>::empty(),
            final(self).matches@ == Seq::<Match>::empty(),
            final(self).current is None,
            final(self).direction == old(self).direction,
            final(self).smartcase == old(self).smartcase,
            final(self)@ == (SearchV {
                pattern: Seq::<char>::empty(),
                matches: Seq::<Match>::empty(),
                current: None,
                ..old(self)@
            }),
    {
        self.pattern = String::new();
        self.matches = Vec::new();
        self.current = None;
    }

    /// Find the nearest match from `pos` in `dir`, wrapping around the
    /// buffer. With `inclusive`, a match starting exactly at `pos` counts
    /// (used while typing the pattern); without, the cursor position is
    /// skipped (n/N).
    pub fn seek(&mut self, pos: Pos, dir: Direction, inclusive: bool) -> (r: Option<Match>)
        ensures
            seek_result(*old(self), *final(self), r, pos, dir, inclusive),
            (final(self)@, r) == spec_seek(old(self)@, pos, dir, inclusive),
    {
        let n = self.matches.len();
        if n == 0 {
            self.current = None;
            return None;
        }
        let ghost ms = self.matches@;
        let idx: usize = match dir {
            Direction::Forward => {
                let mut i: usize = 0;
                while i < n && !is_seek_hit(self.matches[i], pos, dir, inclusive)
                    invariant
                        n == ms.len(),
                        ms == self.matches@,
                        i <= n,
                        forall|j: int| 0 <= j < i ==> !#[trigger] seek_hit(ms[j], pos, dir, inclusive),
                    decreases n - i,
                {
                    i = i + 1;
                }
                if i < n {
                    i
                } else {
                    0
                }
            },
            Direction::Backward => {
                let mut i: usize = n;
                while i > 0 && !is_seek_hit(self.matches[i - 1], pos, dir, inclusive)
                    invariant
                        n == ms.len(),
                        ms == self.matches@,
                        i <= n,
                        forall|j: int| i <= j < n ==> !#[trigger] seek_hit(ms[j], pos, dir, inclusive),
                    decreases i,
                {
                    i = i - 1;
                }
                if i > 0 {
                    i - 1
                } else {
                    n - 1
                }
            },
        };
        proof {
            lemma_seek_choice_unique(ms, pos, dir, inclusive, idx as int, seek_index(ms, pos, dir, inclusive));
        }
        self.current = Some(idx);
        Some(self.matches[idx])
    }

    /// n: continue in the search direction (nothing before a search ran).
    pub fn next(&mut self, pos: Pos) -> (r: Option<Match>)
        ensures
            match old(self).direction {
                None => r is None && *final(self) == *old(self),
                Some(d) => seek_result(*old(self), *final(self), r, pos, d, false) && (final(self)@, r)
                    == spec_seek(old(self)@, pos, d, false),
            },
    {
        match self.direction {
            None => None,
            Some(d) => self.seek(pos, d, false),
        }
    }

    /// N: continue against the search direction.
    pub fn prev(&mut self, pos: Pos) -> (r: Option<Match>)
        ensures
            match old(self).direction {
                None => r is None && *final(self) == *old(self),
                Some(d) => seek_result(*old(self), *final(self), r, pos, spec_flipped(d), false) && (
                final(self)@, r) == spec_seek(old(self)@, pos, spec_flipped(d), false),
            },
    {
        match self.direction {
            None => None,
            Some(d) => self.seek(pos, d.flipped(), false),
        }
    }

    /// The first match covering `pos`, if any.
    pub fn match_at(&self, pos: Pos) -> (r: Option<Match>)
        ensures
            first_cover(self.matches@, pos, r),
            r == spec_match_at(self.matches@, pos),
    {
        let mut i: usize = 0;
        while i < self.matches.len()
            invariant
                i <= self.matches@.len(),
                forall|j: int| 0 <= j < i ==> !(#[trigger] self.matches@[j]).spec_covers(pos),
            decreases self.matches@.len() - i,
        {
            let m = self.matches[i];
            if m.covers(pos) {
                proof {
                    let ms = self.matches@;
                    let k = choose|k: int|
                        0 <= k < ms.len() && ms[k].spec_covers(pos) && forall|j: int|
                            0 <= j < k ==> !(#[trigger] ms[j]).spec_covers(pos);
                    assert(ms[i as int].spec_covers(pos));
                    if k < i {
                    } else if k > i {
                        assert(!ms[i as int].spec_covers(pos));
                    }
                }
                return Some(m);
            }
            i = i + 1;
        }
        None
    }
}

/// Reversing a direction twice gives it back.
/// Over matches in buffer order (as `run` leaves them), the match a
/// seek lands on is the nearest candidate in the seek's direction:
/// `n`/`N` never skip a closer match.
pub proof fn law_seek_lands_on_nearest(
    ms: Seq<Match>,
    pos: Pos,
    dir: Direction,
    inclusive: bool,
    i: int,
    j: int,
)
    requires
        starts_increasing(ms),
        seek_choice(ms, pos, dir, inclusive, i),
        0 <= j < ms.len(),
        seek_hit(ms[j], pos, dir, inclusive),
    ensures
        seek_hit(ms[i], pos, dir, inclusive),
        dir == Direction::Forward ==> pos_le(ms[i].start, ms[j].start),
        dir == Direction::Backward ==> pos_le(ms[j].start, ms[i].start),
{
    if i < j {
        assert(pos_lt(ms[i].start, ms[j].start));
    } else if j < i {
        assert(pos_lt(ms[j].start, ms[i].start));
    }
}

/// Which matches a seek may land on, in plain row and column order: a
/// forward seek takes the first match starting after the cursor (at or
/// after it when inclusive, so typing `/foo` never jumps back to an
/// earlier hit on the same row); a backward seek takes the last match
/// starting before it (at or before it when inclusive). Whenever such a
/// match exists, the chosen one is of that kind and no other of that
/// kind comes before it (after it, going backward).
pub proof fn law_seek_candidates_in_buffer_order(
    ms: Seq<Match>,
    pos: Pos,
    dir: Direction,
    inclusive: bool,
    i: int,
    j: int,
)
    requires
        seek_choice(ms, pos, dir, inclusive, i),
        0 <= j < ms.len(),
        ({
            let (a, b) = match dir {
                Direction::Forward => (pos, ms[j].start),
                Direction::Backward => (ms[j].start, pos),
            };
            a.row < b.row || (a.row == b.row && (if inclusive {
                a.col <= b.col
            } else {
                a.col < b.col
            }))
        }),
    ensures
        ({
            let (a, b) = match dir {
                Direction::Forward => (pos, ms[i].start),
                Direction::Backward => (ms[i].start, pos),
            };
            a.row < b.row || (a.row == b.row && (if inclusive {
                a.col <= b.col
            } else {
                a.col < b.col
            }))
        }),
        dir == Direction::Forward ==> i <= j,
        dir == Direction::Backward ==> j <= i,
{
    assert(seek_hit(ms[j], pos, dir, inclusive));
}

pub proof fn law_flipped_involutive(d: Direction)
    ensures
        spec_flipped(spec_flipped(d)) == d,
        spec_flipped(d) != d,
{
}

} // verus!
