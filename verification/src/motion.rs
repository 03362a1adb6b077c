//! vi-style motions over the buffer: words, WORDs, text objects and
//! paragraphs. Soft-wrapped rows read as one continuous line.
use vstd::prelude::*;
use crate::buffer::{all_blank, concat_rows, Buffer, Line, Pos};
use crate::text::{is_whitespace, spec_is_whitespace};
use crate::unicode::{char_is_alphanumeric, is_alphanumeric};

verus! {

#[derive(Debug, Clone, Copy, PartialEq, Eq, Structural)]
pub enum Class {
    Space,
    Word,
    Punct,
}

pub open spec fn spec_class(c: char) -> Class {
    if spec_is_whitespace(c) {
        Class::Space
    } else if char_is_alphanumeric(c) || c == '_' {
        Class::Word
    } else {
        Class::Punct
    }
}

/// How chars read for word motions: whitespace separates, letters,
/// digits and the underscore make up words (so `foo_bar` is one word),
/// and any other char is punctuation. Two word chars always read alike,
/// and a word char never reads as whitespace or punctuation.
pub proof fn law_word_chars(c: char, d: char)
    ensures
        spec_is_whitespace(c) ==> spec_class(c) == Class::Space,
        c == '_' ==> spec_class(c) == Class::Word,
        !spec_is_whitespace(c) && char_is_alphanumeric(c) ==> spec_class(c) == Class::Word,
        !spec_is_whitespace(c) && !char_is_alphanumeric(c) && c != '_' ==> spec_class(c) == Class::Punct,
        (c == '_' || (char_is_alphanumeric(c) && !spec_is_whitespace(c))) && (d == '_' || (
        char_is_alphanumeric(d) && !spec_is_whitespace(d))) ==> spec_class(c) == spec_class(d),
{
    assert(!spec_is_whitespace('_'));
}

pub fn class(c: char) -> (k: Class)
    ensures
        k == spec_class(c),
{
    if is_whitespace(c) {
        Class::Space
    } else if is_alphanumeric(c) || c == '_' {
        Class::Word
    } else {
        Class::Punct
    }
}

/// The class at a position; line breaks and empty lines read as
/// whitespace, like vi word motions.
pub open spec fn class_at(lines: Seq<Line>, p: Pos) -> Class {
    if p.row < lines.len() && p.col < lines[p.row as int].chars@.len() {
        spec_class(lines[p.row as int].chars@[p.col as int])
    } else {
        Class::Space
    }
}

fn class_at_exec(buf: &Buffer, p: Pos) -> (k: Class)
    ensures
        k == class_at(buf.lines@, p),
{
    if p.row < buf.lines.len() && p.col < buf.lines[p.row].chars.len() {
        class(buf.lines[p.row].chars[p.col])
    } else {
        Class::Space
    }
}

/// Next position, stepping through a virtual position at `col == len`
/// (the newline, which reads as whitespace). A soft-wrapped row has no
/// real newline, so that virtual position is skipped.
pub open spec fn adv(lines: Seq<Line>, p: Pos) -> Option<Pos> {
    let len = lines[p.row as int].chars.len();
    if p.col < len {
        if p.col + 1 == len && p.row + 1 < lines.len() && lines[p.row as int].soft_wrap {
            Some(Pos { row: (p.row + 1) as usize, col: 0 })
        } else {
            Some(Pos { row: p.row, col: (p.col + 1) as usize })
        }
    } else if p.row + 1 < lines.len() {
        Some(Pos { row: (p.row + 1) as usize, col: 0 })
    } else {
        None
    }
}

/// Mirror of `adv`: a hard break exposes the previous row's virtual
/// newline; a soft wrap lands on the previous row's last char.
pub open spec fn ret(lines: Seq<Line>, p: Pos) -> Option<Pos> {
    if p.col > 0 {
        Some(Pos { row: p.row, col: (p.col - 1) as usize })
    } else if p.row > 0 {
        let row = p.row - 1;
        let len = lines[row].chars.len();
        let col = if lines[row].soft_wrap {
            if len == 0 {
                0
            } else {
                len - 1
            }
        } else {
            len as int
        };
        Some(Pos { row: row as usize, col: col as usize })
    } else {
        None
    }
}

pub open spec fn valid(lines: Seq<Line>, p: Pos) -> bool {
    p.row < lines.len() <= usize::MAX
}

pub proof fn lemma_adv_valid(lines: Seq<Line>, p: Pos)
    requires
        valid(lines, p),
    ensures
        adv(lines, p) matches Some(n) ==> valid(lines, n) && n.col <= lines[n.row as int].chars@.len()
            && (n.row > p.row || (n.row == p.row && n.col > p.col)),
{
}

/// From `p` forward, the first position whose class is not `cls`, and
/// whether one was found before the buffer ended.
pub open spec fn fwd_skip(lines: Seq<Line>, p: Pos, cls: Class) -> (Pos, bool)
    decreases lines.len() - p.row, lines[p.row as int].chars@.len() - p.col,
    when valid(lines, p)
{
    if class_at(lines, p) != cls {
        (p, true)
    } else {
        match adv(lines, p) {
            None => (p, false),
            Some(n) => fwd_skip(lines, n, cls),
        }
    }
}

/// From `p` forward, the last position of the run of class `cls`.
pub open spec fn fwd_run(lines: Seq<Line>, p: Pos, cls: Class) -> Pos
    decreases lines.len() - p.row, lines[p.row as int].chars@.len() - p.col,
    when valid(lines, p)
{
    match adv(lines, p) {
        None => p,
        Some(n) => if class_at(lines, n) != cls {
            p
        } else {
            fwd_run(lines, n, cls)
        },
    }
}

/// From `p` backward, the first position whose class is not `cls`.
pub open spec fn bwd_skip(lines: Seq<Line>, p: Pos, cls: Class) -> (Pos, bool)
    decreases p.row, p.col,
    when valid(lines, p)
{
    if class_at(lines, p) != cls {
        (p, true)
    } else {
        match ret(lines, p) {
            None => (p, false),
            Some(n) => bwd_skip(lines, n, cls),
        }
    }
}

/// From `p` backward, the first position of the run of class `cls`.
pub open spec fn bwd_run(lines: Seq<Line>, p: Pos, cls: Class) -> Pos
    decreases p.row, p.col,
    when valid(lines, p)
{
    match ret(lines, p) {
        None => p,
        Some(n) => if class_at(lines, n) != cls {
            p
        } else {
            bwd_run(lines, n, cls)
        },
    }
}

} // verus!

verus! {

pub proof fn lemma_ret_valid(lines: Seq<Line>, p: Pos)
    requires
        valid(lines, p),
    ensures
        ret(lines, p) matches Some(n) ==> valid(lines, n),
{
}

fn advance(buf: &Buffer, p: Pos) -> (r: Option<Pos>)
    requires
        valid(buf.lines@, p),
    ensures
        r == adv(buf.lines@, p),
{
    let len = buf.lines[p.row].chars.len();
    if p.col < len {
        let next = p.col + 1;
        if next == len && p.row + 1 < buf.lines.len() && buf.lines[p.row].soft_wrap {
            return Some(Pos { row: p.row + 1, col: 0 });
        }
        return Some(Pos { row: p.row, col: next });
    }
    if p.row + 1 < buf.lines.len() {
        return Some(Pos { row: p.row + 1, col: 0 });
    }
    None
}

fn retreat(buf: &Buffer, p: Pos) -> (r: Option<Pos>)
    requires
        valid(buf.lines@, p),
    ensures
        r == ret(buf.lines@, p),
{
    if p.col > 0 {
        return Some(Pos { row: p.row, col: p.col - 1 });
    }
    if p.row > 0 {
        let row = p.row - 1;
        let len = buf.lines[row].chars.len();
        let col = if buf.lines[row].soft_wrap {
            if len == 0 {
                0
            } else {
                len - 1
            }
        } else {
            len
        };
        return Some(Pos { row, col });
    }
    None
}

/// `fwd_skip` run from `p`.
fn skip_forward(buf: &Buffer, p: Pos, cls: Class) -> (r: (Pos, bool))
    requires
        valid(buf.lines@, p),
    ensures
        r == fwd_skip(buf.lines@, p, cls),
        valid(buf.lines@, r.0),
{
    let mut cur = p;
    loop
        invariant
            valid(buf.lines@, cur),
            fwd_skip(buf.lines@, p, cls) == fwd_skip(buf.lines@, cur, cls),
        decreases buf.lines@.len() - cur.row, buf.lines@[cur.row as int].chars.len() - cur.col,
    {
        if class_at_exec(buf, cur) != cls {
            return (cur, true);
        }
        match advance(buf, cur) {
            None => {
                return (cur, false);
            },
            Some(n) => {
                proof {
                    lemma_adv_valid(buf.lines@, cur);
                }
                cur = n;
            },
        }
    }
}

/// `fwd_run` run from `p`.
fn run_forward(buf: &Buffer, p: Pos, cls: Class) -> (r: Pos)
    requires
        valid(buf.lines@, p),
    ensures
        r == fwd_run(buf.lines@, p, cls),
{
    let mut cur = p;
    loop
        invariant
            valid(buf.lines@, cur),
            fwd_run(buf.lines@, p, cls) == fwd_run(buf.lines@, cur, cls),
        decreases buf.lines@.len() - cur.row, buf.lines@[cur.row as int].chars.len() - cur.col,
    {
        match advance(buf, cur) {
            None => {
                return cur;
            },
            Some(n) => {
                proof {
                    lemma_adv_valid(buf.lines@, cur);
                }
                if class_at_exec(buf, n) != cls {
                    return cur;
                }
                cur = n;
            },
        }
    }
}

/// `bwd_skip` run from `p`.
fn skip_backward(buf: &Buffer, p: Pos, cls: Class) -> (r: (Pos, bool))
    requires
        valid(buf.lines@, p),
    ensures
        r == bwd_skip(buf.lines@, p, cls),
        valid(buf.lines@, r.0),
{
    let mut cur = p;
    loop
        invariant
            valid(buf.lines@, cur),
            bwd_skip(buf.lines@, p, cls) == bwd_skip(buf.lines@, cur, cls),
        decreases cur.row, cur.col,
    {
        if class_at_exec(buf, cur) != cls {
            return (cur, true);
        }
        match retreat(buf, cur) {
            None => {
                return (cur, false);
            },
            Some(n) => {
                cur = n;
            },
        }
    }
}

/// `bwd_run` run from `p`.
fn run_backward(buf: &Buffer, p: Pos, cls: Class) -> (r: Pos)
    requires
        valid(buf.lines@, p),
    ensures
        r == bwd_run(buf.lines@, p, cls),
{
    let mut cur = p;
    loop
        invariant
            valid(buf.lines@, cur),
            bwd_run(buf.lines@, p, cls) == bwd_run(buf.lines@, cur, cls),
        decreases cur.row, cur.col,
    {
        match retreat(buf, cur) {
            None => {
                return cur;
            },
            Some(n) => {
                if class_at_exec(buf, n) != cls {
                    return cur;
                }
                cur = n;
            },
        }
    }
}

/// w: the start of the next word. The run of the class under `p` is
/// left, then whitespace (line breaks included); at the buffer's end
/// the last position reached is clamped onto a char.
pub open spec fn spec_word_forward(buf: Buffer, p: Pos) -> Pos {
    let lines = buf.lines@;
    let start = class_at(lines, p);
    let (a, ok) = if start != Class::Space {
        fwd_skip(lines, p, start)
    } else {
        (p, true)
    };
    if !ok {
        buf.spec_clamp(a)
    } else {
        let (b, ok2) = fwd_skip(lines, a, Class::Space);
        if ok2 {
            b
        } else {
            buf.spec_clamp(b)
        }
    }
}

/// b: the start of the current or previous word.
pub open spec fn spec_word_backward(buf: Buffer, p: Pos) -> Pos {
    let lines = buf.lines@;
    match ret(lines, p) {
        None => p,
        Some(c0) => {
            let (c1, ok) = bwd_skip(lines, c0, Class::Space);
            if !ok {
                c1
            } else {
                bwd_run(lines, c1, class_at(lines, c1))
            }
        },
    }
}

/// e: the end of the current or next word.
pub open spec fn spec_word_end(buf: Buffer, p: Pos) -> Pos {
    let lines = buf.lines@;
    match adv(lines, p) {
        None => p,
        Some(c0) => {
            let (c1, ok) = fwd_skip(lines, c0, Class::Space);
            if !ok {
                buf.spec_clamp(c1)
            } else {
                fwd_run(lines, c1, class_at(lines, c1))
            }
        },
    }
}

/// w: start of the next word.
pub fn word_forward(buf: &Buffer, p: Pos) -> (q: Pos)
    requires
        buf.wf(),
        p.row < buf.lines@.len(),
    ensures
        q == spec_word_forward(*buf, p),
{
    assert(buf.lines.len() == buf.lines@.len());
    let start = class_at_exec(buf, p);
    let (a, ok) = if start != Class::Space {
        skip_forward(buf, p, start)
    } else {
        (p, true)
    };
    if !ok {
        return buf.clamp(a);
    }
    let (b, ok2) = skip_forward(buf, a, Class::Space);
    if ok2 {
        b
    } else {
        buf.clamp(b)
    }
}

/// b: start of the current or previous word.
pub fn word_backward(buf: &Buffer, p: Pos) -> (q: Pos)
    requires
        buf.wf(),
        p.row < buf.lines@.len(),
    ensures
        q == spec_word_backward(*buf, p),
{
    assert(buf.lines.len() == buf.lines@.len());
    match retreat(buf, p) {
        None => p,
        Some(c0) => {
            proof {
                lemma_ret_valid(buf.lines@, p);
            }
            let (c1, ok) = skip_backward(buf, c0, Class::Space);
            if !ok {
                c1
            } else {
                let cls = class_at_exec(buf, c1);
                run_backward(buf, c1, cls)
            }
        },
    }
}

/// e: end of the current or next word.
pub fn word_end(buf: &Buffer, p: Pos) -> (q: Pos)
    requires
        buf.wf(),
        p.row < buf.lines@.len(),
    ensures
        q == spec_word_end(*buf, p),
{
    assert(buf.lines.len() == buf.lines@.len());
    match advance(buf, p) {
        None => p,
        Some(c0) => {
            proof {
                lemma_adv_valid(buf.lines@, p);
            }
            let (c1, ok) = skip_forward(buf, c0, Class::Space);
            if !ok {
                buf.clamp(c1)
            } else {
                let cls = class_at_exec(buf, c1);
                run_forward(buf, c1, cls)
            }
        },
    }
}

/// Rows from `row` on while blank, stopping at the last row.
pub open spec fn skip_rows(lines: Seq<Line>, row: int, blank: bool) -> int
    decreases lines.len() - row,
{
    if row < 0 || row + 1 >= lines.len() || all_blank(lines[row].chars@) != blank {
        row
    } else {
        skip_rows(lines, row + 1, blank)
    }
}

/// Rows from `row` back while blank (or non-blank), stopping at row 0.
pub open spec fn skip_rows_back(lines: Seq<Line>, row: int, blank: bool) -> int
    decreases row,
{
    if row <= 0 || row >= lines.len() || all_blank(lines[row].chars@) != blank {
        row
    } else {
        skip_rows_back(lines, row - 1, blank)
    }
}

/// }: past any blank rows, the next blank row (or the last row).
pub fn para_forward(buf: &Buffer, row: usize) -> (r: usize)
    requires
        buf.wf(),
        row < buf.lines@.len(),
    ensures
        r == skip_rows(buf.lines@, skip_rows(buf.lines@, row as int, true), false),
{
    let last = buf.last_row();
    let mut r = row;
    while r < last && buf.lines[r].is_blank()
        invariant
            row <= r <= last,
            last == buf.lines@.len() - 1,
            skip_rows(buf.lines@, row as int, true) == skip_rows(buf.lines@, r as int, true),
        decreases last - r,
    {
        r = r + 1;
    }
    let ghost mid = r;
    while r < last && !buf.lines[r].is_blank()
        invariant
            mid <= r <= last,
            last == buf.lines@.len() - 1,
            skip_rows(buf.lines@, mid as int, false) == skip_rows(buf.lines@, r as int, false),
        decreases last - r,
    {
        r = r + 1;
    }
    r
}

/// {: past any blank rows upward, the previous blank row (or row 0).
pub fn para_backward(buf: &Buffer, row: usize) -> (r: usize)
    requires
        buf.wf(),
        row < buf.lines@.len(),
    ensures
        r == skip_rows_back(buf.lines@, skip_rows_back(buf.lines@, row as int, true), false),
{
    let mut r = row;
    while r > 0 && buf.lines[r].is_blank()
        invariant
            r <= row < buf.lines@.len(),
            skip_rows_back(buf.lines@, row as int, true) == skip_rows_back(
                buf.lines@,
                r as int,
                true,
            ),
        decreases r,
    {
        r = r - 1;
    }
    let ghost mid = r;
    while r > 0 && !buf.lines[r].is_blank()
        invariant
            r <= mid < buf.lines@.len(),
            skip_rows_back(buf.lines@, mid as int, false) == skip_rows_back(
                buf.lines@,
                r as int,
                false,
            ),
        decreases r,
    {
        r = r - 1;
    }
    r
}

} // verus!

verus! {

/// Text-object class of a char: 0 for whitespace; small words split
/// word chars (1) from punctuation (2), WORDs (`big`) do not.
pub open spec fn kind(c: char, big: bool) -> u8 {
    match spec_class(c) {
        Class::Space => 0,
        Class::Word => 1,
        Class::Punct => if big {
            1
        } else {
            2
        },
    }
}

fn kind_exec(c: char, big: bool) -> (k: u8)
    ensures
        k == kind(c, big),
{
    match class(c) {
        Class::Space => 0,
        Class::Word => 1,
        Class::Punct => if big {
            1
        } else {
            2
        },
    }
}

/// Start of the run of kind `t` that ends at `s`.
pub open spec fn run_start(flat: Seq<char>, s: int, t: u8, big: bool) -> int
    decreases s,
{
    if 0 < s < flat.len() && kind(flat[s - 1], big) == t {
        run_start(flat, s - 1, t, big)
    } else {
        s
    }
}

/// End of the run of kind `t` that starts at `e`.
pub open spec fn run_end(flat: Seq<char>, e: int, t: u8, big: bool) -> int
    decreases flat.len() - e,
{
    if 0 <= e && e + 1 < flat.len() && kind(flat[e + 1], big) == t {
        run_end(flat, e + 1, t, big)
    } else {
        e
    }
}

pub open spec fn row_chars(lines: Seq<Line>) -> Seq<Seq<char>> {
    lines.map_values(|l: Line| l.chars@)
}

/// Offset of row `r` in the run-together rows that start at `r0`.
pub open spec fn offset(lines: Seq<Line>, r0: int, r: int) -> int {
    concat_rows(row_chars(lines), r0, r).len() as int
}

/// The buffer position of index `i` of the flattened rows `r0..=r`:
/// the last row starting at or before `i`.
pub open spec fn flat_pos(lines: Seq<Line>, r0: int, r: int, i: int) -> Pos
    decreases r - r0,
{
    if r <= r0 || offset(lines, r0, r) <= i {
        Pos { row: r as usize, col: (i - offset(lines, r0, r)) as usize }
    } else {
        flat_pos(lines, r0, r - 1, i)
    }
}

/// vi word/WORD text object around `p` as inclusive positions, taken
/// over the whole logical line (soft-wrapped rows flattened).
pub open spec fn spec_word_object(buf: Buffer, p: Pos, around: bool, big: bool) -> (Pos, Pos) {
    let lines = buf.lines@;
    let r0 = buf.span_first(p.row as int);
    let r1 = buf.span_last(p.row as int);
    let flat = concat_rows(row_chars(lines), r0, r1 + 1);
    if flat.len() == 0 {
        (Pos { row: p.row, col: 0 }, Pos { row: p.row, col: 0 })
    } else {
        let last = flat.len() - 1;
        let col = offset(lines, r0, p.row as int) + p.col;
        let c = if col < last {
            col
        } else {
            last
        };
        let t = kind(flat[c], big);
        let s0 = run_start(flat, c, t, big);
        let e0 = run_end(flat, c, t, big);
        let (s, e) = if !around {
            (s0, e0)
        } else if spec_class(flat[c]) == Class::Space {
            if e0 < last {
                (s0, run_end(flat, e0 + 1, kind(flat[e0 + 1], big), big))
            } else {
                (s0, e0)
            }
        } else if e0 < last && spec_class(flat[e0 + 1]) == Class::Space {
            (s0, run_end(flat, e0, 0, big))
        } else {
            (run_start(flat, s0, 0, big), e0)
        };
        (flat_pos(lines, r0, r1, s), flat_pos(lines, r0, r1, e))
    }
}

fn run_bounds(flat: &Vec<char>, col: usize, big: bool) -> (r: (usize, usize))
    requires
        col < flat@.len(),
    ensures
        r.0 == run_start(flat@, col as int, kind(flat@[col as int], big), big),
        r.1 == run_end(flat@, col as int, kind(flat@[col as int], big), big),
        r.0 <= col <= r.1 < flat@.len(),
{
    let target = kind_exec(flat[col], big);
    (run_start_exec(flat, col, target, big), run_end_exec(flat, col, target, big))
}

fn run_start_exec(flat: &Vec<char>, s: usize, t: u8, big: bool) -> (r: usize)
    requires
        s < flat@.len(),
    ensures
        r == run_start(flat@, s as int, t, big),
        r <= s,
{
    let mut i = s;
    while i > 0 && kind_exec(flat[i - 1], big) == t
        invariant
            i <= s < flat@.len(),
            run_start(flat@, s as int, t, big) == run_start(flat@, i as int, t, big),
        decreases i,
    {
        i = i - 1;
    }
    i
}

fn run_end_exec(flat: &Vec<char>, e: usize, t: u8, big: bool) -> (r: usize)
    requires
        e < flat@.len(),
    ensures
        r == run_end(flat@, e as int, t, big),
        e <= r < flat@.len(),
{
    let last = flat.len() - 1;
    let mut i = e;
    while i < last && kind_exec(flat[i + 1], big) == t
        invariant
            e <= i <= last,
            last == flat@.len() - 1,
            run_end(flat@, e as int, t, big) == run_end(flat@, i as int, t, big),
        decreases last - i,
    {
        i = i + 1;
    }
    i
}

/// vi word/WORD text object around `p`, returning the inclusive
/// (start, end) positions. `around` (aw/aW) extends over adjacent
/// whitespace (trailing preferred, else leading; on a space run it
/// takes the following word instead); `big` (iW/aW) treats any
/// non-whitespace run as one WORD. Operates over the whole logical line
/// (soft-wrapped rows flattened), so a wrapped word is one object and
/// the returned positions may land on different rows.
pub fn word_object(buf: &Buffer, p: Pos, around: bool, big: bool) -> (r: (Pos, Pos))
    requires
        buf.wf(),
        p.row < buf.lines@.len(),
        p.col <= buf.row(p.row as int).len() || offset(
            buf.lines@,
            buf.span_first(p.row as int),
            p.row as int,
        ) + p.col <= usize::MAX,
    ensures
        r == spec_word_object(*buf, p, around, big),
        r.0.row < buf.lines@.len() && r.0.col <= buf.spec_max_col(r.0.row as int),
        r.1.row < buf.lines@.len() && r.1.col <= buf.spec_max_col(r.1.row as int),
{
    let (r0, r1) = buf.logical_span(p.row);
    let ghost rows = row_chars(buf.lines@);
    assert(buf.lines.len() == buf.lines@.len());
    let mut flat: Vec<char> = Vec::new();
    let mut starts: Vec<(usize, usize)> = Vec::new();
    let mut base: usize = 0;
    let mut row = r0;
    while row <= r1
        invariant
            r0 <= row <= r1 + 1,
            r1 < buf.lines@.len() <= usize::MAX,
            rows == row_chars(buf.lines@),
            flat@ == concat_rows(rows, r0 as int, row as int),
            starts@.len() == row - r0,
            forall|k: int|
                #![trigger starts@[k]] 0 <= k < starts@.len() ==> starts@[k].0 == r0 + k && starts@[k].1 == offset(buf.lines@, r0 as int, r0 + k),
            row > p.row ==> base == offset(buf.lines@, r0 as int, p.row as int),
            r0 <= p.row <= r1,
        decreases r1 + 1 - row,
    {
        if row == p.row {
            base = flat.len();
        }
        starts.push((row, flat.len()));
        let line = &buf.lines[row];
        extend_from_line(&mut flat, line);
        proof {
            assert(rows[row as int] == line.chars@);
        }
        row = row + 1;
        assert(flat@ =~= concat_rows(rows, r0 as int, row as int));
    }
    if flat.len() == 0 {
        let z = Pos { row: p.row, col: 0 };
        return (z, z);
    }
    proof {
        if p.col <= buf.row(p.row as int).len() {
            assert(rows[p.row as int] == buf.row(p.row as int));
            assert(offset(buf.lines@, r0 as int, p.row + 1) == base + buf.row(p.row as int).len());
            lemma_offset_mono(buf.lines@, r0 as int, p.row + 1, r1 + 1);
        }
    }
    let col = base + p.col;
    let last = flat.len() - 1;
    let c = if col < last {
        col
    } else {
        last
    };
    let (mut s, mut e) = run_bounds(&flat, c, big);
    if around {
        if class(flat[c]) == Class::Space {
            if e < last {
                let (_, e2) = run_bounds(&flat, e + 1, big);
                e = e2;
            }
        } else if e < last && class(flat[e + 1]) == Class::Space {
            e = run_end_exec(&flat, e, 0, big);
        } else {
            s = run_start_exec(&flat, s, 0, big);
        }
    }
    proof {
        lemma_flat_pos_valid(buf.lines@, r0 as int, r1 as int, s as int);
        lemma_flat_pos_valid(buf.lines@, r0 as int, r1 as int, e as int);
    }
    (to_pos(buf, &starts, r0, r1, s), to_pos(buf, &starts, r0, r1, e))
}

/// A flat index of rows `r0..=r` maps to a char of one of those rows.
proof fn lemma_flat_pos_valid(lines: Seq<Line>, r0: int, r: int, i: int)
    requires
        0 <= r0 <= r < lines.len() <= usize::MAX,
        0 <= i < offset(lines, r0, r + 1),
    ensures
        r0 <= flat_pos(lines, r0, r, i).row <= r,
        flat_pos(lines, r0, r, i).col < lines[flat_pos(lines, r0, r, i).row as int].chars@.len(),
    decreases r - r0,
{
    assert(offset(lines, r0, r + 1) == offset(lines, r0, r) + lines[r].chars@.len());
    if r <= r0 || offset(lines, r0, r) <= i {
        assert(offset(lines, r0, r0) == 0);
    } else {
        lemma_flat_pos_valid(lines, r0, r - 1, i);
    }
}

fn extend_from_line(out: &mut Vec<char>, line: &Line)
    ensures
        final(out)@ == old(out)@ + line.chars@,
{
    crate::buffer::extend_from(out, &line.chars, 0, line.chars.len());
    assert(line.chars@.subrange(0, line.chars@.len() as int) =~= line.chars@);
}

proof fn lemma_offset_mono(lines: Seq<Line>, r0: int, a: int, b: int)
    requires
        r0 <= a <= b <= lines.len(),
    ensures
        offset(lines, r0, a) <= offset(lines, r0, b),
    decreases b - a,
{
    if a < b {
        lemma_offset_mono(lines, r0, a, b - 1);
    }
}

proof fn lemma_flat_pos(lines: Seq<Line>, r0: int, r: int, i: int, m: int)
    requires
        r0 <= m <= r,
        offset(lines, r0, m) <= i,
        forall|j: int| m < j <= r ==> #[trigger] offset(lines, r0, j) > i,
    ensures
        flat_pos(lines, r0, r, i) == (Pos {
            row: m as usize,
            col: (i - offset(lines, r0, m)) as usize,
        }),
    decreases r - m,
{
    if r > m {
        lemma_flat_pos(lines, r0, r - 1, i, m);
    }
}

/// Map a flat index back to its buffer position.
pub(crate) fn to_pos(buf: &Buffer, starts: &Vec<(usize, usize)>, r0: usize, r1: usize, i: usize) -> (p: Pos)
    requires
        r0 <= r1 < buf.lines@.len(),
        starts@.len() == r1 - r0 + 1,
        forall|k: int|
            #![trigger starts@[k]] 0 <= k < starts@.len() ==> starts@[k].0 == r0 + k && starts@[k].1 == offset(buf.lines@, r0 as int, r0 + k),
    ensures
        p == flat_pos(buf.lines@, r0 as int, r1 as int, i as int),
{
    let ghost lines = buf.lines@;
    assert(starts@[0].1 == 0);
    let mut k: usize = 1;
    while k < starts.len() && starts[k].1 <= i
        invariant
            1 <= k <= starts@.len(),
            starts@.len() == r1 - r0 + 1,
            r0 <= r1 < lines.len(),
            lines == buf.lines@,
            forall|j: int|
                #![trigger starts@[j]] 0 <= j < starts@.len() ==> starts@[j].0 == r0 + j && starts@[j].1 == offset(lines, r0 as int, r0 + j),
            starts@[k - 1].1 <= i,
        decreases starts@.len() - k,
    {
        k = k + 1;
    }
    let chosen = starts[k - 1];
    proof {
        let m = r0 + k - 1;
        assert forall|j: int| m < j <= r1 implies #[trigger] offset(lines, r0 as int, j) > i by {
            lemma_offset_mono(lines, r0 as int, r0 + k, j);
            assert(starts@[k as int].1 > i);
        }
        lemma_flat_pos(lines, r0 as int, r1 as int, i as int, m);
    }
    Pos { row: chosen.0, col: i - chosen.1 }
}

} // verus!
