//! The scrollback buffer: rows of chars with their source styles, and
//! soft-wrap flags that let yanks and motions rejoin wrapped lines.
use vstd::prelude::*;
use crate::ansi::{self, plain, Style};
use crate::text::{spec_is_whitespace, is_whitespace, string_of};
use crate::unicode::{char_width, width};

verus! {

/// A cursor position in the buffer. `col` is a char index, not a display
/// column; wide (CJK) chars occupy one col here but two display cells.
#[derive(Debug, Clone, Copy, PartialEq, Eq, Structural, PartialOrd, Ord)]
pub struct Pos {
    pub row: usize,
    pub col: usize,
}

/// Row-major order of positions (the order `Pos` derives).
pub open spec fn pos_le(a: Pos, b: Pos) -> bool {
    a.row < b.row || (a.row == b.row && a.col <= b.col)
}

pub open spec fn pos_lt(a: Pos, b: Pos) -> bool {
    a.row < b.row || (a.row == b.row && a.col < b.col)
}

/// `a <= b` in row-major order.
pub fn pos_leq(a: Pos, b: Pos) -> (r: bool)
    ensures
        r == pos_le(a, b),
{
    a.row < b.row || (a.row == b.row && a.col <= b.col)
}

pub struct Line {
    pub chars: Vec<char>,
    /// Per-char source styles; empty = all default (plain text path).
    pub styles: Vec<Style>,
    /// True when this row soft-wraps into the next row (no real newline
    /// between them); slicing joins such rows without a line break.
    pub soft_wrap: bool,
}

/// Width a char adds to a run of text (no width counts as 0).
pub open spec fn width0(c: char) -> nat {
    match char_width(c) {
        Some(n) => n as nat,
        None => 0,
    }
}

/// Display cells a char occupies: at least one.
pub open spec fn cells(c: char) -> nat {
    if width0(c) == 0 {
        1
    } else {
        width0(c)
    }
}

/// Display width of the first `k` chars.
pub open spec fn width_sum(s: Seq<char>, k: int) -> nat
    decreases k,
{
    if k <= 0 || s.len() == 0 {
        0
    } else if k > s.len() {
        width_sum(s, s.len() as int)
    } else {
        width_sum(s, k - 1) + width0(s[k - 1])
    }
}

/// Display cells of the first `k` chars, each at least one cell wide.
pub open spec fn cells_sum(s: Seq<char>, k: int) -> nat
    decreases k,
{
    if k <= 0 || s.len() == 0 {
        0
    } else if k > s.len() {
        cells_sum(s, s.len() as int)
    } else {
        cells_sum(s, k - 1) + cells(s[k - 1])
    }
}

pub open spec fn all_blank(s: Seq<char>) -> bool {
    forall|i: int| 0 <= i < s.len() ==> spec_is_whitespace(#[trigger] s[i])
}

/// The most chars a row can hold: a `Vec<char>` never exceeds a quarter
/// of the address space, which keeps width sums in range.
/// The char under display cell `x`, scanning from index `i`: the first
/// char whose cells reach past `x`, else the last char (0 when empty).
pub open spec fn col_scan(s: Seq<char>, x: int, i: int) -> int
    decreases s.len() - i,
{
    if i < 0 || i >= s.len() {
        if s.len() == 0 {
            0
        } else {
            s.len() - 1
        }
    } else if x < cells_sum(s, i + 1) {
        i
    } else {
        col_scan(s, x, i + 1)
    }
}

/// The first non-whitespace index of `s` from `i` on, 0 when none.
pub open spec fn non_blank_from(s: Seq<char>, i: int) -> int
    decreases s.len() - i,
{
    if i < 0 || i >= s.len() {
        0
    } else if !spec_is_whitespace(s[i]) {
        i
    } else {
        non_blank_from(s, i + 1)
    }
}

pub open spec fn row_len_ok(s: Seq<char>) -> bool {
    s.len() <= usize::MAX / 4
}

} // verus!

verus! {

impl Line {
    pub fn from_text(s: &str) -> (l: Self)
        ensures
            l.chars@ == s@,
            l.styles@.len() == 0,
            !l.soft_wrap,
    {
        Line { chars: crate::text::chars_of(s), styles: Vec::new(), soft_wrap: false }
    }

    fn from_styled(l: ansi::StyledLine) -> (r: Self)
        ensures
            r.chars@ == l.chars@,
            r.styles@ == l.styles@,
            !r.soft_wrap,
    {
        Line { chars: l.chars, styles: l.styles, soft_wrap: false }
    }

    pub fn len(&self) -> (n: usize)
        ensures
            n == self.chars@.len(),
    {
        self.chars.len()
    }

    pub fn is_empty(&self) -> (b: bool)
        ensures
            b == (self.chars@.len() == 0),
    {
        self.chars.len() == 0
    }

    /// Every char is whitespace (an empty line is blank).
    pub fn is_blank(&self) -> (b: bool)
        ensures
            b == all_blank(self.chars@),
    {
        let mut i: usize = 0;
        while i < self.chars.len()
            invariant
                i <= self.chars@.len(),
                forall|k: int| 0 <= k < i ==> spec_is_whitespace(#[trigger] self.chars@[k]),
            decreases self.chars@.len() - i,
        {
            if !is_whitespace(self.chars[i]) {
                return false;
            }
            i = i + 1;
        }
        true
    }

    pub fn text(&self) -> (s: String)
        ensures
            s@ == self.chars@,
    {
        string_of(self.chars.as_slice())
    }

    /// Source style of the char at `col`; default past end of styles.
    pub fn style_at(&self, col: usize) -> (s: Style)
        ensures
            s == (if col < self.styles@.len() {
                self.styles@[col as int]
            } else {
                plain()
            }),
    {
        if col < self.styles.len() {
            self.styles[col]
        } else {
            Style::default()
        }
    }

    /// Display width of chars[..col].
    pub fn width_before(&self, col: usize) -> (w: usize)
        requires
            row_len_ok(self.chars@),
        ensures
            w == width_sum(self.chars@, col as int),
            w <= 3 * col,
            w <= 3 * self.chars@.len(),
    {
        let n = if col < self.chars.len() {
            col
        } else {
            self.chars.len()
        };
        let mut acc: usize = 0;
        let mut i: usize = 0;
        while i < n
            invariant
                n <= self.chars@.len() <= usize::MAX / 4,
                i <= n,
                acc == width_sum(self.chars@, i as int),
                acc <= 3 * i,
            decreases n - i,
        {
            let w = match width(self.chars[i]) {
                Some(w) => w,
                None => 0,
            };
            acc = acc + w;
            i = i + 1;
        }
        assert(width_sum(self.chars@, col as int) == width_sum(self.chars@, n as int));
        assert(n <= col && n <= self.chars@.len());
        acc
    }

    /// Display cell width of the char at `col`, at least 1 so the cursor
    /// always occupies a cell (also past end of line).
    pub fn cell_width(&self, col: usize) -> (w: usize)
        ensures
            w == (if col < self.chars@.len() {
                cells(self.chars@[col as int])
            } else {
                1
            }),
            1 <= w <= 3,
    {
        if col < self.chars.len() {
            match width(self.chars[col]) {
                Some(w) => if w == 0 {
                    1
                } else {
                    w
                },
                None => 1,
            }
        } else {
            1
        }
    }

    /// Char index whose display cell range contains column x (with the
    /// given horizontal offset already subtracted by the caller); the
    /// last char (or 0) when x lies past the end.
    pub fn col_at_x(&self, x: usize) -> (i: usize)
        requires
            row_len_ok(self.chars@),
        ensures
            i == col_scan(self.chars@, x as int, 0),
            (i < self.chars@.len() && cells_sum(self.chars@, i as int) <= x < cells_sum(
                self.chars@,
                i + 1,
            )) || (x >= cells_sum(self.chars@, self.chars@.len() as int) && i == (if self.chars@.len()
                == 0 {
                0
            } else {
                self.chars@.len() - 1
            })),
    {
        let mut acc: usize = 0;
        let mut i: usize = 0;
        while i < self.chars.len()
            invariant
                self.chars@.len() <= usize::MAX / 4,
                i <= self.chars@.len(),
                acc == cells_sum(self.chars@, i as int),
                acc <= 3 * i,
                x >= acc,
                col_scan(self.chars@, x as int, 0) == col_scan(self.chars@, x as int, i as int),
            decreases self.chars@.len() - i,
        {
            let w = match width(self.chars[i]) {
                Some(w) => if w == 0 {
                    1
                } else {
                    w
                },
                None => 1,
            };
            if x < acc + w {
                return i;
            }
            acc = acc + w;
            i = i + 1;
        }
        if self.chars.len() == 0 {
            0
        } else {
            self.chars.len() - 1
        }
    }
}

} // verus!

verus! {

pub struct Buffer {
    pub lines: Vec<Line>,
}

/// The line break after a row in yanked text: none after a soft wrap.
pub open spec fn brk(soft_wrap: bool) -> Seq<char> {
    if soft_wrap {
        seq![]
    } else {
        seq!['\n']
    }
}

/// Rows `lo..hi`, each followed by its line break.
pub open spec fn rows_text(lines: Seq<Line>, lo: int, hi: int) -> Seq<char>
    decreases hi - lo,
{
    if hi <= lo {
        seq![]
    } else {
        rows_text(lines, lo, hi - 1) + lines[hi - 1].chars@ + brk(lines[hi - 1].soft_wrap)
    }
}

pub open spec fn min_int(a: int, b: int) -> int {
    if a <= b {
        a
    } else {
        b
    }
}

/// Appends `s[lo..hi]` to `out`.
pub fn extend_from(out: &mut Vec<char>, s: &Vec<char>, lo: usize, hi: usize)
    requires
        lo <= hi <= s@.len(),
    ensures
        final(out)@ == old(out)@ + s@.subrange(lo as int, hi as int),
{
    let mut i = lo;
    while i < hi
        invariant
            lo <= i <= hi <= s@.len(),
            out@ == old(out)@ + s@.subrange(lo as int, i as int),
        decreases hi - i,
    {
        out.push(s[i]);
        i = i + 1;
        assert(out@ =~= old(out)@ + s@.subrange(lo as int, i as int));
    }
}

impl Buffer {
    /// A buffer always holds at least one row.
    pub open spec fn wf(&self) -> bool {
        self.lines@.len() >= 1
    }

    pub open spec fn row(&self, r: int) -> Seq<char> {
        self.lines@[r].chars@
    }

    pub open spec fn wraps(&self, r: int) -> bool {
        self.lines@[r].soft_wrap
    }

    /// Logical text: rows joined with newlines, except soft-wrapped rows
    /// which continue without a break.
    pub open spec fn spec_text(&self) -> Seq<char> {
        rows_text(self.lines@, 0, self.lines@.len() as int)
    }

    /// `(first, last)` is the soft-wrap group around `row`: the rows
    /// before `last` in it all soft-wrap, the row above `first` does not,
    /// and `last` is the final row or a hard break.
    pub open spec fn is_span(&self, row: int, first: int, last: int) -> bool {
        &&& 0 <= first <= row <= last < self.lines@.len()
        &&& forall|r: int| first <= r < last ==> #[trigger] self.wraps(r)
        &&& first == 0 || !self.wraps(first - 1)
        &&& last == self.lines@.len() - 1 || !self.wraps(last)
    }

    /// First row of the soft-wrap group around `row`.
    pub open spec fn span_first(&self, row: int) -> int
        decreases row,
    {
        if row > 0 && self.wraps(row - 1) {
            self.span_first(row - 1)
        } else {
            row
        }
    }

    /// Last row of the soft-wrap group around `row`.
    pub open spec fn span_last(&self, row: int) -> int
        decreases self.lines@.len() - row,
    {
        if 0 <= row && row + 1 < self.lines@.len() && self.wraps(row) {
            self.span_last(row + 1)
        } else {
            row
        }
    }

    /// Charwise text between two positions, both endpoints inclusive,
    /// soft-wrapped rows joined without a newline.
    pub open spec fn spec_slice(&self, a: Pos, b: Pos) -> Seq<char> {
        let p = if pos_le(a, b) {
            a
        } else {
            b
        };
        let q = if pos_le(a, b) {
            b
        } else {
            a
        };
        let first = self.row(p.row as int);
        let last = self.row(q.row as int);
        if p.row == q.row {
            first.subrange(
                min_int(p.col as int, first.len() as int),
                min_int(q.col + 1, first.len() as int),
            )
        } else {
            first.skip(min_int(p.col as int, first.len() as int)) + brk(self.wraps(p.row as int))
                + rows_text(self.lines@, p.row + 1, q.row as int) + last.take(
                min_int(q.col + 1, last.len() as int),
            )
        }
    }

    /// Linewise text of an inclusive row range (in either order, clipped
    /// to the buffer) with a trailing newline; empty when the range lies
    /// below the buffer.
    pub open spec fn spec_slice_lines(&self, r1: int, r2: int) -> Seq<char> {
        let lo = min_int(r1, r2);
        let hi = if r1 <= r2 {
            r2
        } else {
            r1
        };
        let top = min_int(hi, self.lines@.len() - 1);
        if lo > top {
            seq![]
        } else {
            rows_text(self.lines@, lo, top) + self.row(top) + seq!['\n']
        }
    }

    pub fn text(&self) -> (s: String)
        ensures
            s@ == self.spec_text(),
    {
        let mut out: Vec<char> = Vec::new();
        let mut r: usize = 0;
        while r < self.lines.len()
            invariant
                r <= self.lines@.len(),
                out@ == rows_text(self.lines@, 0, r as int),
            decreases self.lines@.len() - r,
        {
            let line = &self.lines[r];
            extend_from(&mut out, &line.chars, 0, line.chars.len());
            assert(line.chars@.subrange(0, line.chars@.len() as int) =~= line.chars@);
            if !line.soft_wrap {
                out.push('\n');
            }
            r = r + 1;
            assert(out@ =~= rows_text(self.lines@, 0, r as int));
        }
        string_of(out.as_slice())
    }

    pub fn last_row(&self) -> (r: usize)
        requires
            self.wf(),
        ensures
            r == self.lines@.len() - 1,
    {
        self.lines.len() - 1
    }

    pub fn line(&self, row: usize) -> (l: &Line)
        requires
            row < self.lines@.len(),
        ensures
            *l == self.lines@[row as int],
    {
        &self.lines[row]
    }

    /// Inclusive physical-row range of the logical line (soft-wrap group)
    /// containing `row`; `(row, row)` when `row` has no soft-wrap
    /// neighbours.
    pub fn logical_span(&self, row: usize) -> (span: (usize, usize))
        requires
            self.wf(),
            row < self.lines@.len(),
        ensures
            self.is_span(row as int, span.0 as int, span.1 as int),
            span.0 == self.span_first(row as int),
            span.1 == self.span_last(row as int),
    {
        let mut first = row;
        while first > 0 && self.lines[first - 1].soft_wrap
            invariant
                first <= row < self.lines@.len(),
                self.span_first(row as int) == self.span_first(first as int),
                forall|r: int| first <= r < row ==> #[trigger] self.wraps(r),
            decreases first,
        {
            first = first - 1;
        }
        let mut last = row;
        let lr = self.last_row();
        while last < lr && self.lines[last].soft_wrap
            invariant
                row <= last <= lr,
                lr == self.lines@.len() - 1,
                self.span_last(row as int) == self.span_last(last as int),
                forall|r: int| row <= r < last ==> #[trigger] self.wraps(r),
            decreases lr - last,
        {
            last = last + 1;
        }
        (first, last)
    }

    /// Max cursor col for a row; the cursor sits on a char (vi style).
    pub fn max_col(&self, row: usize) -> (c: usize)
        requires
            row < self.lines@.len(),
        ensures
            c == (if self.row(row as int).len() == 0 {
                0
            } else {
                self.row(row as int).len() - 1
            }),
    {
        let n = self.lines[row].chars.len();
        if n == 0 {
            0
        } else {
            n - 1
        }
    }

    pub open spec fn spec_max_col(&self, row: int) -> int {
        if self.row(row).len() == 0 {
            0
        } else {
            self.row(row).len() - 1
        }
    }

    pub open spec fn spec_clamp(&self, p: Pos) -> Pos {
        let row = min_int(p.row as int, self.lines@.len() - 1);
        Pos { row: row as usize, col: min_int(p.col as int, self.spec_max_col(row)) as usize }
    }

    pub fn clamp(&self, p: Pos) -> (q: Pos)
        requires
            self.wf(),
        ensures
            q == self.spec_clamp(p),
    {
        let lr = self.last_row();
        let row = if p.row < lr {
            p.row
        } else {
            lr
        };
        let mc = self.max_col(row);
        Pos {
            row,
            col: if p.col < mc {
                p.col
            } else {
                mc
            },
        }
    }

    /// Col of the first non-whitespace char of `row`, 0 when it has none.
    pub fn first_non_blank(&self, row: usize) -> (c: usize)
        requires
            row < self.lines@.len(),
        ensures
            c == non_blank_from(self.row(row as int), 0),
            (c < self.row(row as int).len() && !spec_is_whitespace(self.row(row as int)[c as int])
                && forall|k: int| 0 <= k < c ==> spec_is_whitespace(#[trigger] self.row(row as int)[k]))
                || (c == 0 && all_blank(self.row(row as int))),
    {
        let line = &self.lines[row];
        let mut i: usize = 0;
        while i < line.chars.len()
            invariant
                *line == self.lines@[row as int],
                i <= line.chars@.len(),
                forall|k: int| 0 <= k < i ==> spec_is_whitespace(#[trigger] line.chars@[k]),
                non_blank_from(line.chars@, 0) == non_blank_from(line.chars@, i as int),
            decreases line.chars@.len() - i,
        {
            if !is_whitespace(line.chars[i]) {
                return i;
            }
            i = i + 1;
        }
        0
    }

    /// Newline or nothing after `row` in yanked text, depending on wrap.
    fn push_break(&self, out: &mut Vec<char>, row: usize)
        requires
            row < self.lines@.len(),
        ensures
            final(out)@ == old(out)@ + brk(self.wraps(row as int)),
    {
        if !self.lines[row].soft_wrap {
            out.push('\n');
        } else {
            assert(old(out)@ + brk(self.wraps(row as int)) =~= old(out)@);
        }
    }

    /// Rows `lo..hi`, each followed by its break, appended to `out`.
    fn push_rows(&self, out: &mut Vec<char>, lo: usize, hi: usize)
        requires
            lo <= hi <= self.lines@.len(),
        ensures
            final(out)@ == old(out)@ + rows_text(self.lines@, lo as int, hi as int),
    {
        let mut r = lo;
        while r < hi
            invariant
                lo <= r <= hi <= self.lines@.len(),
                out@ == old(out)@ + rows_text(self.lines@, lo as int, r as int),
            decreases hi - r,
        {
            let line = &self.lines[r];
            extend_from(out, &line.chars, 0, line.chars.len());
            assert(line.chars@.subrange(0, line.chars@.len() as int) =~= line.chars@);
            self.push_break(out, r);
            r = r + 1;
            assert(out@ =~= old(out)@ + rows_text(self.lines@, lo as int, r as int));
        }
    }

    /// Charwise text between two positions, both endpoints inclusive.
    /// Soft-wrapped rows are joined without a newline.
    pub fn slice_inclusive(&self, a: Pos, b: Pos) -> (s: String)
        requires
            a.row < self.lines@.len(),
            b.row < self.lines@.len(),
            a.col < usize::MAX,
            b.col < usize::MAX,
        ensures
            s@ == self.spec_slice(a, b),
    {
        let (p, q) = if pos_leq(a, b) {
            (a, b)
        } else {
            (b, a)
        };
        let mut out: Vec<char> = Vec::new();
        let first = &self.lines[p.row];
        let flen = first.chars.len();
        let start = if p.col < flen {
            p.col
        } else {
            flen
        };
        if p.row == q.row {
            let end = if q.col + 1 < flen {
                q.col + 1
            } else {
                flen
            };
            extend_from(&mut out, &first.chars, start, end);
            assert(out@ =~= self.spec_slice(a, b));
            return string_of(out.as_slice());
        }
        extend_from(&mut out, &first.chars, start, flen);
        self.push_break(&mut out, p.row);
        self.push_rows(&mut out, p.row + 1, q.row);
        let last = &self.lines[q.row];
        let llen = last.chars.len();
        let end = if q.col + 1 < llen {
            q.col + 1
        } else {
            llen
        };
        extend_from(&mut out, &last.chars, 0, end);
        assert(first.chars@.subrange(start as int, flen as int) =~= first.chars@.skip(start as int));
        assert(last.chars@.subrange(0, end as int) =~= last.chars@.take(end as int));
        assert(out@ =~= self.spec_slice(a, b));
        string_of(out.as_slice())
    }

    /// Linewise text for an inclusive row range, with a trailing newline.
    /// Soft-wrapped rows are joined without a newline.
    pub fn slice_lines(&self, r1: usize, r2: usize) -> (s: String)
        requires
            self.wf(),
        ensures
            s@ == self.spec_slice_lines(r1 as int, r2 as int),
    {
        let (lo, hi) = if r1 <= r2 {
            (r1, r2)
        } else {
            (r2, r1)
        };
        let lr = self.last_row();
        let top = if hi < lr {
            hi
        } else {
            lr
        };
        let mut out: Vec<char> = Vec::new();
        if lo > top {
            assert(out@ =~= self.spec_slice_lines(r1 as int, r2 as int));
            return string_of(out.as_slice());
        }
        self.push_rows(&mut out, lo, top);
        let line = &self.lines[top];
        extend_from(&mut out, &line.chars, 0, line.chars.len());
        assert(line.chars@.subrange(0, line.chars@.len() as int) =~= line.chars@);
        out.push('\n');
        assert(out@ =~= self.spec_slice_lines(r1 as int, r2 as int));
        string_of(out.as_slice())
    }
}

} // verus!

verus! {

/// A row as plain values: its chars, styles and soft-wrap flag.
pub ghost struct RowV {
    pub chars: Seq<char>,
    pub styles: Seq<Style>,
    pub soft_wrap: bool,
}

pub open spec fn row_v(l: Line) -> RowV {
    RowV { chars: l.chars@, styles: l.styles@, soft_wrap: l.soft_wrap }
}

pub open spec fn rows_v(lines: Seq<Line>) -> Seq<RowV> {
    lines.map_values(|l: Line| row_v(l))
}

/// Trailing blank rows are dropped (one row is always kept); an empty
/// list becomes one empty row.
pub open spec fn spec_finalize(rows: Seq<RowV>) -> Seq<RowV>
    decreases rows.len(),
{
    if rows.len() > 1 && all_blank(rows.last().chars) {
        spec_finalize(rows.drop_last())
    } else if rows.len() == 0 {
        seq![RowV { chars: seq![], styles: seq![], soft_wrap: false }]
    } else {
        rows
    }
}

/// Tabs replaced by four spaces (`str::replace('\t', "    ")`).
pub open spec fn expand_tabs(s: Seq<char>) -> Seq<char>
    decreases s.len(),
{
    if s.len() == 0 {
        seq![]
    } else if s.last() == '\t' {
        expand_tabs(s.drop_last()) + seq![' ', ' ', ' ', ' ']
    } else {
        expand_tabs(s.drop_last()).push(s.last())
    }
}

pub open spec fn plain_row(chars: Seq<char>) -> RowV {
    RowV { chars, styles: seq![], soft_wrap: false }
}

/// Rows of plain text: tabs expanded, split as `str::lines`.
pub open spec fn text_rows(text: Seq<char>) -> Seq<RowV> {
    crate::text::spec_lines(expand_tabs(text)).map_values(|l: Seq<char>| plain_row(l))
}

/// Rows of SGR-styled text, none soft-wrapped.
pub open spec fn styled_rows(text: Seq<char>) -> Seq<RowV> {
    ansi::spec_parse(text).map_values(
        |l: (Seq<char>, Seq<Style>)| RowV { chars: l.0, styles: l.1, soft_wrap: false },
    )
}

// ------------------------------------------------------ soft-wrap marks

/// The chars of `rows[s..e]` run together.
pub open spec fn concat_rows(rows: Seq<Seq<char>>, s: int, e: int) -> Seq<char>
    decreases e - s,
{
    if e <= s {
        seq![]
    } else {
        concat_rows(rows, s, e - 1) + rows[e - 1]
    }
}

/// `rows[s..e]` run together, trailing whitespace removed.
pub open spec fn joined(rows: Seq<Seq<char>>, s: int, e: int) -> Seq<char> {
    crate::text::spec_trim_end(concat_rows(rows, s, e))
}

/// Walking up from row `s`, the first start whose group `s..end` is at
/// least as long as `want`; None when even `0..end` is shorter.
pub open spec fn find_start(rows: Seq<Seq<char>>, want: Seq<char>, end: int, s: int) -> Option<
    int,
>
    decreases s,
{
    if s < 0 {
        None
    } else if joined(rows, s, end).len() >= want.len() {
        Some(s)
    } else if s == 0 {
        None
    } else {
        find_start(rows, want, end, s - 1)
    }
}

/// First row of the group of wrapped rows ending at `end` that spells
/// the logical line `want`; the oldest rows may spell only a suffix of
/// it. None when the rows do not line up with `want`.
pub open spec fn group_start(rows: Seq<Seq<char>>, want: Seq<char>, end: int) -> Option<int> {
    match find_start(rows, want, end, end - 1) {
        Some(s) => if joined(rows, s, end) == want {
            Some(s)
        } else {
            None
        },
        None => {
            let j = joined(rows, 0, end);
            if j.len() <= want.len() && want.skip(want.len() - j.len()) == j {
                Some(0)
            } else {
                None
            }
        },
    }
}

pub open spec fn set_true(flags: Seq<bool>, lo: int, hi: int) -> Seq<bool> {
    Seq::new(flags.len(), |i: int| if lo <= i < hi { true } else { flags[i] })
}

/// Align rows `0..end` to the first `k` logical lines, newest first,
/// marking every row that continues into the next; None on a mismatch.
pub open spec fn spec_mark(
    rows: Seq<Seq<char>>,
    logical: Seq<Seq<char>>,
    k: int,
    end: int,
    flags: Seq<bool>,
) -> Option<Seq<bool>>
    decreases k,
{
    if k <= 0 || end <= 0 {
        Some(flags)
    } else {
        match group_start(rows, logical[k - 1], end) {
            None => None,
            Some(start) => spec_mark(rows, logical, k - 1, start, set_true(flags, start, end - 1)),
        }
    }
}

/// The soft-wrap flags `from_reads` gives the rows: those of a full
/// alignment, or none at all when the reads disagree.
pub open spec fn wrap_flags(rows: Seq<Seq<char>>, unwrapped: Seq<char>) -> Seq<bool> {
    let logical = logical_of(unwrapped);
    let none = no_flags(rows.len());
    match spec_mark(rows, logical, logical.len() as int, rows.len() as int, none) {
        Some(f) => f,
        None => none,
    }
}

/// The logical lines of the unwrapped read, trailing whitespace removed.
pub open spec fn logical_of(unwrapped: Seq<char>) -> Seq<Seq<char>> {
    crate::text::spec_lines(unwrapped).map_values(|l: Seq<char>| crate::text::spec_trim_end(l))
}

pub open spec fn no_flags(n: nat) -> Seq<bool> {
    Seq::new(n, |i: int| false)
}

/// Rows of the wrapped styled read, flagged by alignment with the
/// unwrapped logical read.
pub open spec fn read_rows(unwrapped: Seq<char>, wrapped_ansi: Seq<char>) -> Seq<RowV> {
    let base = ansi::spec_parse(wrapped_ansi);
    let flags = wrap_flags(base.map_values(|l: (Seq<char>, Seq<Style>)| l.0), unwrapped);
    Seq::new(
        base.len(),
        |i: int| RowV { chars: base[i].0, styles: base[i].1, soft_wrap: flags[i] },
    )
}

} // verus!

verus! {

pub open spec fn styled_chars(v: Seq<ansi::StyledLine>) -> Seq<Seq<char>> {
    v.map_values(|l: ansi::StyledLine| l.chars@)
}

/// Concatenated chars of `rows[s..e]` with trailing whitespace removed.
fn joined_trimmed(rows: &Vec<ansi::StyledLine>, s: usize, e: usize) -> (out: Vec<char>)
    requires
        s <= e <= rows@.len(),
    ensures
        out@ == joined(styled_chars(rows@), s as int, e as int),
{
    let ghost rv = styled_chars(rows@);
    let mut out: Vec<char> = Vec::new();
    let mut r = s;
    while r < e
        invariant
            s <= r <= e <= rows@.len(),
            rv == styled_chars(rows@),
            out@ == concat_rows(rv, s as int, r as int),
        decreases e - r,
    {
        let l = &rows[r];
        extend_from(&mut out, &l.chars, 0, l.chars.len());
        assert(l.chars@.subrange(0, l.chars@.len() as int) =~= l.chars@);
        r = r + 1;
        assert(out@ =~= concat_rows(rv, s as int, r as int));
    }
    let n = crate::text::trim_end_len(out.as_slice(), 0, out.len());
    assert(out@.subrange(0, out@.len() as int) =~= out@);
    out.truncate(n);
    assert(out@ =~= joined(rv, s as int, e as int));
    out
}

proof fn lemma_find_start_skip(rows: Seq<Seq<char>>, want: Seq<char>, end: int, hi: int, lo: int)
    requires
        0 <= lo <= hi,
        forall|s: int| lo < s <= hi ==> #[trigger] joined(rows, s, end).len() < want.len(),
    ensures
        find_start(rows, want, end, hi) == find_start(rows, want, end, lo),
    decreases hi - lo,
{
    if hi > lo {
        lemma_find_start_skip(rows, want, end, hi - 1, lo);
    }
}

fn chars_eq(a: &Vec<char>, lo: usize, b: &Vec<char>) -> (r: bool)
    requires
        lo <= b@.len(),
    ensures
        r == (a@ == b@.skip(lo as int)),
{
    if a.len() != b.len() - lo {
        return false;
    }
    let blen = b.len();
    let mut i: usize = 0;
    while i < a.len()
        invariant
            blen == b@.len(),
            a@.len() == b@.len() - lo,
            lo + a@.len() == b@.len(),
            i <= a@.len(),
            forall|k: int| 0 <= k < i ==> a@[k] == b@[lo + k],
        decreases a@.len() - i,
    {
        if a[i] != b[lo + i] {
            return false;
        }
        i = i + 1;
    }
    assert(a@ =~= b@.skip(lo as int));
    true
}

/// `group_start` over the rows of a styled read.
fn find_group_start(rows: &Vec<ansi::StyledLine>, want: &Vec<char>, end: usize) -> (r: Option<
    usize,
>)
    requires
        0 < end <= rows@.len(),
    ensures
        match r {
            Some(s) => s < end && group_start(styled_chars(rows@), want@, end as int) == Some(
                s as int,
            ),
            None => group_start(styled_chars(rows@), want@, end as int) is None,
        },
{
    let ghost rv = styled_chars(rows@);
    let mut start = end;
    loop
        invariant_except_break
            forall|s: int| start <= s < end ==> #[trigger] joined(rv, s, end as int).len()
                < want@.len(),
        invariant
            rv == styled_chars(rows@),
            0 < end <= rows@.len(),
            start <= end,
        ensures
            start < end,
            group_start(rv, want@, end as int) == Some(start as int),
        decreases start,
    {
        if start == 0 {
            let j = joined_trimmed(rows, 0, end);
            proof {
                lemma_find_start_skip(rv, want@, end as int, end - 1, 0);
            }
            if j.len() > want.len() || !chars_eq(&j, want.len() - j.len(), &want) {
                return None;
            }
            break;
        }
        start = start - 1;
        let j = joined_trimmed(rows, start, end);
        if j.len() < want.len() {
            continue;
        }
        proof {
            lemma_find_start_skip(rv, want@, end as int, end - 1, start as int);
        }
        assert(want@.skip(0) =~= want@);
        if !chars_eq(&j, 0, &want) {
            return None;
        }
        break;
    }
    Some(start)
}

fn set_range(flags: &mut Vec<bool>, lo: usize, hi: usize)
    requires
        hi <= old(flags)@.len(),
    ensures
        final(flags)@ == set_true(old(flags)@, lo as int, hi as int),
{
    let mut r = lo;
    while r < hi
        invariant
            r == lo || (lo <= r <= hi),
            hi <= flags@.len(),
            flags@.len() == old(flags)@.len(),
            forall|t: int|
                0 <= t < flags@.len() ==> #[trigger] flags@[t] == (if lo <= t < r {
                    true
                } else {
                    old(flags)@[t]
                }),
        decreases hi - r,
    {
        flags.set(r, true);
        r = r + 1;
    }
    assert(flags@ =~= set_true(old(flags)@, lo as int, hi as int));
}

/// Align wrapped rows to logical lines, newest first, and flag every row
/// that continues into the next. The wrapped read covers fewer logical
/// lines than the unwrapped one (both are tail-capped), so alignment
/// walks both from the bottom; the oldest wrapped rows may form only a
/// suffix of their logical line. None when the texts do not line up.
/// Comparison ignores trailing whitespace.
fn mark_soft_wraps(rows: &Vec<ansi::StyledLine>, unwrapped: &str) -> (r: Option<Vec<bool>>)
    ensures
        ({
            let logical = logical_of(unwrapped@);
            let none = no_flags(rows@.len());
            match r {
                Some(f) => spec_mark(
                    styled_chars(rows@),
                    logical,
                    logical.len() as int,
                    rows@.len() as int,
                    none,
                ) == Some(f@),
                None => spec_mark(
                    styled_chars(rows@),
                    logical,
                    logical.len() as int,
                    rows@.len() as int,
                    none,
                ) is None,
            }
        }),
{
    let ghost rv = styled_chars(rows@);
    let text = crate::text::chars_of(unwrapped);
    let bounds = crate::text::line_bounds(text.as_slice());
    let ghost logical = logical_of(unwrapped@);
    let ghost none = no_flags(rows@.len());
    let mut flags: Vec<bool> = Vec::new();
    let mut i: usize = 0;
    while i < rows.len()
        invariant
            i <= rows@.len(),
            flags@ =~= Seq::new(i as nat, |j: int| false),
        decreases rows@.len() - i,
    {
        flags.push(false);
        i = i + 1;
    }
    assert(flags@ =~= none);
    let mut end = rows.len();
    let mut k = bounds.len();
    while k > 0
        invariant
            rv == styled_chars(rows@),
            logical == logical_of(unwrapped@),
            none == no_flags(rows@.len()),
            text@ == unwrapped@,
            bounds@.len() == logical.len(),
            forall|j: int|
                0 <= j < bounds@.len() ==> {
                    &&& #[trigger] bounds@[j].0 <= bounds@[j].1 <= text@.len()
                    &&& crate::text::spec_trim_end(
                        text@.subrange(bounds@[j].0 as int, bounds@[j].1 as int),
                    ) =~= logical[j]
                },
            k <= bounds@.len(),
            end <= rows@.len(),
            flags@.len() == rows@.len(),
            spec_mark(rv, logical, logical.len() as int, rows@.len() as int, none) == spec_mark(
                rv,
                logical,
                k as int,
                end as int,
                flags@,
            ),
        decreases k,
    {
        if end == 0 {
            return Some(flags);
        }
        let (lo, hi) = bounds[k - 1];
        let n = crate::text::trim_end_len(text.as_slice(), lo, hi);
        let mut want: Vec<char> = Vec::new();
        extend_from(&mut want, &text, lo, lo + n);
        assert(want@ =~= logical[k - 1]);
        let start = match find_group_start(rows, &want, end) {
            Some(st) => st,
            None => {
                return None;
            },
        };
        set_range(&mut flags, start, end - 1);
        end = start;
        k = k - 1;
    }
    Some(flags)
}

} // verus!

verus! {

proof fn lemma_mark_len(
    rows: Seq<Seq<char>>,
    logical: Seq<Seq<char>>,
    k: int,
    end: int,
    flags: Seq<bool>,
)
    ensures
        spec_mark(rows, logical, k, end, flags) matches Some(f) ==> f.len() == flags.len(),
    decreases k,
{
    if k > 0 && end > 0 {
        if let Some(start) = group_start(rows, logical[k - 1], end) {
            lemma_mark_len(rows, logical, k - 1, start, set_true(flags, start, end - 1));
        }
    }
}

proof fn lemma_wrap_flags_len(rows: Seq<Seq<char>>, unwrapped: Seq<char>)
    ensures
        wrap_flags(rows, unwrapped).len() == rows.len(),
{
    let logical = logical_of(unwrapped);
    lemma_mark_len(rows, logical, logical.len() as int, rows.len() as int, no_flags(rows.len()));
}

impl Buffer {
    fn finalize(lines: Vec<Line>) -> (b: Buffer)
        ensures
            b.wf(),
            rows_v(b.lines@) == spec_finalize(rows_v(lines@)),
    {
        let mut lines = lines;
        let ghost orig = rows_v(lines@);
        while lines.len() > 1 && lines[lines.len() - 1].is_blank()
            invariant
                spec_finalize(rows_v(lines@)) == spec_finalize(orig),
            decreases lines@.len(),
        {
            let ghost before = lines@;
            lines.pop();
            assert(rows_v(lines@) =~= rows_v(before).drop_last());
        }
        if lines.len() == 0 {
            assert(spec_finalize(rows_v(lines@)) == seq![
                RowV { chars: seq![], styles: seq![], soft_wrap: false },
            ]);
            lines.push(Line { chars: Vec::new(), styles: Vec::new(), soft_wrap: false });
            assert(rows_v(lines@) =~= spec_finalize(orig));
        } else {
            assert(spec_finalize(rows_v(lines@)) == rows_v(lines@));
        }
        Buffer { lines }
    }

    /// Plain text: tabs expand to four spaces, lines split as
    /// `str::lines`, trailing blank lines dropped.
    pub fn from_text(text: &str) -> (b: Self)
        ensures
            b.wf(),
            rows_v(b.lines@) == spec_finalize(text_rows(text@)),
    {
        let src = crate::text::chars_of(text);
        let mut expanded: Vec<char> = Vec::new();
        let mut i: usize = 0;
        while i < src.len()
            invariant
                i <= src@.len(),
                src@ == text@,
                expanded@ == expand_tabs(src@.take(i as int)),
            decreases src@.len() - i,
        {
            assert(src@.take(i + 1).drop_last() =~= src@.take(i as int));
            if src[i] == '\t' {
                expanded.push(' ');
                expanded.push(' ');
                expanded.push(' ');
                expanded.push(' ');
            } else {
                expanded.push(src[i]);
            }
            i = i + 1;
            assert(expanded@ =~= expand_tabs(src@.take(i as int)));
        }
        assert(src@.take(i as int) =~= text@);
        let bounds = crate::text::line_bounds(expanded.as_slice());
        let ghost want = text_rows(text@);
        let mut lines: Vec<Line> = Vec::new();
        let mut k: usize = 0;
        while k < bounds.len()
            invariant
                k <= bounds@.len(),
                bounds@.len() == crate::text::spec_lines(expanded@).len(),
                want == text_rows(text@),
                expanded@ == expand_tabs(text@),
                forall|j: int|
                    0 <= j < bounds@.len() ==> {
                        &&& #[trigger] bounds@[j].0 <= bounds@[j].1 <= expanded@.len()
                        &&& expanded@.subrange(bounds@[j].0 as int, bounds@[j].1 as int)
                            =~= crate::text::spec_lines(expanded@)[j]
                    },
                rows_v(lines@) =~= want.take(k as int),
            decreases bounds@.len() - k,
        {
            let (lo, hi) = bounds[k];
            let mut chars: Vec<char> = Vec::new();
            extend_from(&mut chars, &expanded, lo, hi);
            let ghost before = lines@;
            let line = Line { chars, styles: Vec::new(), soft_wrap: false };
            proof {
                let ls = crate::text::spec_lines(expanded@);
                assert(want.len() == ls.len());
                assert(want[k as int] == plain_row(ls[k as int]));
                assert(row_v(line) == want[k as int]);
            }
            lines.push(line);
            assert(rows_v(lines@) =~= rows_v(before).push(row_v(line)));
            k = k + 1;
            assert(want.take(k as int) =~= want.take(k - 1).push(want[k - 1]));
        }
        assert(want.take(k as int) =~= want);
        Self::finalize(lines)
    }

    /// Plain or SGR-styled text; styles are kept per char, other escape
    /// sequences are stripped.
    pub fn from_ansi(text: &str) -> (b: Self)
        ensures
            b.wf(),
            rows_v(b.lines@) == spec_finalize(styled_rows(text@)),
    {
        let parsed = ansi::parse(text);
        let ghost want = styled_rows(text@);
        let mut lines: Vec<Line> = Vec::new();
        for l in it: parsed.into_iter()
            invariant
                want == styled_rows(text@),
                ansi::lines_view(it.seq()) == ansi::spec_parse(text@),
                rows_v(lines@) =~= want.take(it.index() as int),
        {
            let ghost idx = it.index();
            let ghost before = lines@;
            proof {
                assert(ansi::lines_view(it.seq())[idx as int] == (l.chars@, l.styles@));
                assert(want.len() == it.seq().len());
            }
            let line = Line::from_styled(l);
            assert(row_v(line) == want[idx as int]);
            lines.push(line);
            assert(rows_v(lines@) =~= rows_v(before).push(row_v(line)));
            assert(want.take(idx + 1) =~= want.take(idx as int).push(want[idx as int]));
        }
        assert(want.take(want.len() as int) =~= want);
        Self::finalize(lines)
    }

    /// Compose a styled buffer from the pane's two reads: `wrapped_ansi`
    /// (styled rows wrapped at the pane width) and `unwrapped` (logical
    /// lines). Rows are the wrapped ones; the unwrapped text aligns them
    /// to mark soft_wrap flags so yanks rejoin wrapped long lines. On any
    /// alignment mismatch the flags degrade to hard breaks.
    pub fn from_reads(unwrapped: &str, wrapped_ansi: &str) -> (b: Self)
        ensures
            b.wf(),
            rows_v(b.lines@) == spec_finalize(read_rows(unwrapped@, wrapped_ansi@)),
    {
        let parsed = ansi::parse(wrapped_ansi);
        let ghost base = ansi::spec_parse(wrapped_ansi@);
        let ghost rv = base.map_values(|l: (Seq<char>, Seq<Style>)| l.0);
        assert(styled_chars(parsed@) =~= rv);
        let flags = match mark_soft_wraps(&parsed, unwrapped) {
            Some(f) => f,
            None => {
                let mut f: Vec<bool> = Vec::new();
                let mut i: usize = 0;
                while i < parsed.len()
                    invariant
                        i <= parsed@.len(),
                        f@ =~= Seq::new(i as nat, |j: int| false),
                    decreases parsed@.len() - i,
                {
                    f.push(false);
                    i = i + 1;
                }
                f
            },
        };
        assert(flags@ =~= wrap_flags(rv, unwrapped@));
        proof {
            lemma_wrap_flags_len(rv, unwrapped@);
        }
        let ghost want = read_rows(unwrapped@, wrapped_ansi@);
        let mut lines: Vec<Line> = Vec::new();
        let n = parsed.len();
        for l in it: parsed.into_iter()
            invariant
                want == read_rows(unwrapped@, wrapped_ansi@),
                ansi::lines_view(it.seq()) == base,
                base == ansi::spec_parse(wrapped_ansi@),
                n == base.len(),
                flags@.len() == n,
                flags@ == wrap_flags(rv, unwrapped@),
                rv == base.map_values(|l: (Seq<char>, Seq<Style>)| l.0),
                lines@.len() == it.index(),
                rows_v(lines@) =~= want.take(it.index() as int),
        {
            let k = lines.len();
            let ghost idx = it.index();
            let ghost before = lines@;
            proof {
                assert(ansi::lines_view(it.seq())[idx as int] == (l.chars@, l.styles@));
                assert(want.len() == it.seq().len());
            }
            let line = Line { chars: l.chars, styles: l.styles, soft_wrap: flags[k] };
            assert(row_v(line) == want[idx as int]);
            lines.push(line);
            assert(rows_v(lines@) =~= rows_v(before).push(row_v(line)));
            assert(want.take(idx + 1) =~= want.take(idx as int).push(want[idx as int]));
        }
        assert(want.take(want.len() as int) =~= want);
        Self::finalize(lines)
    }
}


/// A charwise slice does not depend on which end is the anchor.
pub proof fn law_slice_symmetric(b: Buffer, p: Pos, q: Pos)
    ensures
        b.spec_slice(p, q) == b.spec_slice(q, p),
{
    if pos_le(p, q) && pos_le(q, p) {
        assert(p == q);
    }
}

/// Two row lists that differ at most in their soft-wrap flags.
pub open spec fn same_rows_but_flags(a: Seq<RowV>, b: Seq<RowV>) -> bool {
    &&& a.len() == b.len()
    &&& forall|i: int| 0 <= i < a.len() ==> (#[trigger] a[i]).chars == b[i].chars && a[i].styles == b[i].styles
}

proof fn lemma_finalize_ignores_flags(a: Seq<RowV>, b: Seq<RowV>)
    requires
        same_rows_but_flags(a, b),
    ensures
        same_rows_but_flags(spec_finalize(a), spec_finalize(b)),
    decreases a.len(),
{
    if a.len() > 1 && all_blank(a.last().chars) {
        assert(b.last().chars == a.last().chars);
        lemma_finalize_ignores_flags(a.drop_last(), b.drop_last());
    }
}

/// Composing the two pane reads keeps the wrapped rows as they are: the
/// buffer shows the same rows, chars and styles as the styled read
/// alone, and the unwrapped read only decides which rows soft-wrap.
pub proof fn law_reads_keep_wrapped_rows(unwrapped: Seq<char>, wrapped_ansi: Seq<char>)
    ensures
        same_rows_but_flags(
            spec_finalize(read_rows(unwrapped, wrapped_ansi)),
            spec_finalize(styled_rows(wrapped_ansi)),
        ),
{
    lemma_finalize_ignores_flags(read_rows(unwrapped, wrapped_ansi), styled_rows(wrapped_ansi));
}

proof fn lemma_finalize_keeps_no_wraps(rows: Seq<RowV>)
    requires
        forall|i: int| 0 <= i < rows.len() ==> !(#[trigger] rows[i]).soft_wrap,
    ensures
        forall|i: int| 0 <= i < spec_finalize(rows).len() ==> !(#[trigger] spec_finalize(rows)[i]).soft_wrap,
    decreases rows.len(),
{
    if rows.len() > 1 && all_blank(rows.last().chars) {
        let d = rows.drop_last();
        assert forall|i: int| 0 <= i < d.len() implies !(#[trigger] d[i]).soft_wrap by {
            assert(d[i] == rows[i]);
        }
        lemma_finalize_keeps_no_wraps(d);
        assert(spec_finalize(rows) == spec_finalize(d));
    } else if rows.len() == 0 {
        let f = spec_finalize(rows);
        assert(f.len() == 1 && !f[0].soft_wrap);
    } else {
        assert(spec_finalize(rows) == rows);
    }
}

/// When the unwrapped read does not line up with the styled rows (the
/// pane changed between the reads), every row is a hard break.
pub proof fn law_misaligned_reads_clear_wraps(unwrapped: Seq<char>, wrapped_ansi: Seq<char>)
    requires
        spec_mark(
            ansi::spec_parse(wrapped_ansi).map_values(|l: (Seq<char>, Seq<Style>)| l.0),
            logical_of(unwrapped),
            logical_of(unwrapped).len() as int,
            ansi::spec_parse(wrapped_ansi).len() as int,
            no_flags(ansi::spec_parse(wrapped_ansi).len()),
        ) is None,
    ensures
        forall|i: int|
            0 <= i < spec_finalize(read_rows(unwrapped, wrapped_ansi)).len() ==> !(#[trigger] spec_finalize(
                read_rows(unwrapped, wrapped_ansi),
            )[i]).soft_wrap,
{
    let rows = read_rows(unwrapped, wrapped_ansi);
    let base = ansi::spec_parse(wrapped_ansi);
    let rs = base.map_values(|l: (Seq<char>, Seq<Style>)| l.0);
    assert(rs.len() == base.len());
    assert(wrap_flags(rs, unwrapped) == no_flags(base.len()));
    assert forall|i: int| 0 <= i < rows.len() implies !(#[trigger] rows[i]).soft_wrap by {
        assert(no_flags(base.len())[i] == false);
    }
    lemma_finalize_keeps_no_wraps(rows);
}

/// The lines of `t` read from the end: the finished lines and the
/// unfinished last one.
pub open spec fn split_back(t: Seq<char>) -> (Seq<Seq<char>>, Seq<char>)
    decreases t.len(),
{
    if t.len() == 0 {
        (seq![], seq![])
    } else {
        let (l, p) = split_back(t.drop_last());
        if t.last() == '\n' {
            (l.push(p), seq![])
        } else {
            (l, p.push(t.last()))
        }
    }
}

/// The finished lines, then the unfinished one when it is not empty.
pub open spec fn split_lines(sp: (Seq<Seq<char>>, Seq<char>)) -> Seq<Seq<char>> {
    if sp.1.len() > 0 {
        sp.0.push(sp.1)
    } else {
        sp.0
    }
}

pub open spec fn no_char(t: Seq<char>, c: char) -> bool {
    forall|i: int| 0 <= i < t.len() ==> t[i] != c
}

proof fn lemma_split_no_newline(x: Seq<char>)
    requires
        no_char(x, '\n'),
    ensures
        split_back(x) == (Seq::<Seq<char>>::empty(), x),
    decreases x.len(),
{
    if x.len() > 0 {
        lemma_split_no_newline(x.drop_last());
        assert(x.drop_last().push(x.last()) =~= x);
    }
}

/// A first line `x` ended by a newline goes in front of the lines of
/// what follows it.
proof fn lemma_split_first_line(x: Seq<char>, y: Seq<char>)
    requires
        no_char(x, '\n'),
    ensures
        split_back(x + seq!['\n'] + y) == (seq![x] + split_back(y).0, split_back(y).1),
    decreases y.len(),
{
    let t = x + seq!['\n'] + y;
    if y.len() == 0 {
        assert(t.drop_last() =~= x);
        lemma_split_no_newline(x);
        assert(Seq::<Seq<char>>::empty().push(x) =~= seq![x] + Seq::<Seq<char>>::empty());
    } else {
        lemma_split_first_line(x, y.drop_last());
        assert(t.drop_last() =~= x + seq!['\n'] + y.drop_last());
        let (l, p) = split_back(y.drop_last());
        assert((seq![x] + l).push(p) =~= seq![x] + l.push(p));
    }
}

/// `str::lines` on text without carriage returns is the backward split.
proof fn lemma_lines_split(t: Seq<char>)
    requires
        no_char(t, '\r'),
    ensures
        crate::text::spec_lines(t) == split_lines(split_back(t)),
    decreases t.len(),
{
    crate::text::lemma_find_props(t, '\n');
    if t.len() == 0 {
    } else {
        match crate::text::spec_find(t, '\n') {
            None => {
                lemma_split_no_newline(t);
            },
            Some(i) => {
                let x = t.take(i);
                let y = t.skip(i + 1);
                assert(t =~= x + seq!['\n'] + y);
                assert(no_char(x, '\n'));
                assert(no_char(y, '\r'));
                lemma_lines_split(y);
                lemma_split_first_line(x, y);
                assert(x.len() == 0 || x.last() != '\r');
                let (l, p) = split_back(y);
                if p.len() > 0 {
                    assert((seq![x] + l).push(p) =~= seq![x] + l.push(p));
                }
            },
        }
    }
}

/// Decoding text with no escapes and no carriage returns keeps the
/// plain style and splits the tab-expanded text into lines.
proof fn lemma_decode_plain(t: Seq<char>)
    requires
        no_char(t, '\x1b'),
        no_char(t, '\r'),
    ensures
        ansi::decode(t).mode == ansi::SpecMode::Text,
        ansi::decode(t).style == plain(),
        ansi::decode(t).lines == split_back(expand_tabs(t)).0.map_values(
            |l: Seq<char>| (l, Seq::<Style>::empty()),
        ),
        ansi::decode(t).chars == split_back(expand_tabs(t)).1,
        ansi::decode(t).styles.len() == ansi::decode(t).chars.len(),
        ansi::all_plain(ansi::decode(t).styles),
    decreases t.len(),
{
    if t.len() > 0 {
        let u = t.drop_last();
        let c = t.last();
        assert(no_char(u, '\x1b') && no_char(u, '\r'));
        lemma_decode_plain(u);
        let e = expand_tabs(u);
        let (l, p) = split_back(e);
        let st = ansi::decode(u);
        let f = |l: Seq<char>| (l, Seq::<Style>::empty());
        if c == '\n' {
            assert(expand_tabs(t) =~= e.push('\n'));
            assert(expand_tabs(t).drop_last() =~= e);
            assert(split_back(expand_tabs(t)) == (l.push(p), Seq::<char>::empty()));
            assert(l.push(p).map_values(f) =~= l.map_values(f).push((p, Seq::<Style>::empty())));
            assert(ansi::decode(t) == ansi::step(st, c));
            assert(ansi::all_plain(st.styles));
            assert(ansi::finished_line(st.chars, st.styles) == (p, Seq::<Style>::empty()));
        } else if c == '\t' {
            let e1 = e.push(' ');
            let e2 = e1.push(' ');
            let e3 = e2.push(' ');
            let e4 = e3.push(' ');
            assert(expand_tabs(t) =~= e4);
            assert(e4.drop_last() =~= e3);
            assert(e3.drop_last() =~= e2);
            assert(e2.drop_last() =~= e1);
            assert(e1.drop_last() =~= e);
            assert(split_back(e1) == (l, p.push(' ')));
            assert(split_back(e2) == (l, p.push(' ').push(' ')));
            assert(split_back(e3) == (l, p.push(' ').push(' ').push(' ')));
            assert(split_back(e4) == (l, p.push(' ').push(' ').push(' ').push(' ')));
            assert(ansi::decode(t) == ansi::step(st, c));
            let ss = st.styles.push(plain()).push(plain()).push(plain()).push(plain());
            assert(ansi::all_plain(ss)) by {
                assert forall|i: int| 0 <= i < ss.len() implies ss[i] == plain() by {
                    if i < st.styles.len() {
                        assert(ss[i] == st.styles[i]);
                    }
                }
            }
        } else {
            assert(expand_tabs(t) =~= e.push(c));
            assert(expand_tabs(t).drop_last() =~= e);
            assert(split_back(expand_tabs(t)) == (l, p.push(c)));
            assert(ansi::decode(t) == ansi::step(st, c));
            let ss = st.styles.push(plain());
            assert(ansi::all_plain(ss)) by {
                assert forall|i: int| 0 <= i < ss.len() implies ss[i] == plain() by {
                    if i < st.styles.len() {
                        assert(ss[i] == st.styles[i]);
                    }
                }
            }
        }
    }
}

/// On text with neither escapes nor carriage returns, reading it as
/// styled text gives the rows of reading it as plain text.
pub proof fn law_plain_text_reads_alike(text: Seq<char>)
    requires
        no_char(text, '\x1b'),
        no_char(text, '\r'),
    ensures
        styled_rows(text) == text_rows(text),
        spec_finalize(styled_rows(text)) == spec_finalize(text_rows(text)),
{
    lemma_decode_plain(text);
    lemma_expand_keeps_no_cr(text);
    let e = expand_tabs(text);
    lemma_lines_split(e);
    let (l, p) = split_back(e);
    let f = |l: Seq<char>| (l, Seq::<Style>::empty());
    let parsed = ansi::spec_parse(text);
    assert(parsed == split_lines(split_back(e)).map_values(f)) by {
        if p.len() > 0 {
            assert(l.push(p).map_values(f) =~= l.map_values(f).push((p, Seq::<Style>::empty())));
        }
    }
    assert(styled_rows(text) =~= text_rows(text));
}

proof fn lemma_expand_keeps_no_cr(t: Seq<char>)
    requires
        no_char(t, '\r'),
    ensures
        no_char(expand_tabs(t), '\r'),
    decreases t.len(),
{
    if t.len() > 0 {
        assert(no_char(t.drop_last(), '\r'));
        lemma_expand_keeps_no_cr(t.drop_last());
    }
}

/// A linewise slice does not depend on which row is the anchor.
pub proof fn law_slice_lines_symmetric(b: Buffer, r1: int, r2: int)
    ensures
        b.spec_slice_lines(r1, r2) == b.spec_slice_lines(r2, r1),
{
}
} // verus!
