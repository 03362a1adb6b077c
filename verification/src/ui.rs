//! What the screen shows, as values: styled spans per row, clipping to
//! the viewport, the mode row and the indicator. Writing them to the
//! terminal is left to the caller.
use vstd::prelude::*;
use crate::ansi::{plain, Style};
use crate::app::{spec_sel_range, valid_pos, App, AppV, ModeV, Mode, SelKind};
use crate::buffer::{cells, Buffer, Line, Pos};
use crate::lineedit::LineEdit;
use crate::search::spec_match_at;
use crate::text::{chars_of, push_decimal, push_str, spec_decimal, string_of};
use crate::unicode::width;

verus! {

/// Highlight class of a rendered cell. Precedence when several apply:
/// Cursor > Sel > CurrentMatch > Match > Plain.
#[derive(Debug, Clone, Copy, PartialEq, Eq, Structural)]
pub enum Hl {
    /// No highlight (the source style shows).
    Plain,
    Match,
    CurrentMatch,
    Sel,
    Cursor,
}

/// Merge key for rendered spans: the highlight class plus, for
/// unhighlighted cells, the source pane style. Highlights normalize the
/// style to default so one highlight run stays one span across source
/// color changes and fully overrides source styling.
#[derive(Debug, Clone, Copy, PartialEq, Eq, Structural)]
pub struct SpanAttrs {
    pub hl: Hl,
    pub style: Style,
}

/// A key that runs of equal keys merge under.
pub trait SpanKey: Copy {
    fn same(&self, other: &Self) -> (b: bool)
        ensures
            b == (*self == *other),
    ;
}

impl SpanKey for Hl {
    fn same(&self, other: &Self) -> (b: bool) {
        *self == *other
    }
}

impl SpanKey for Style {
    fn same(&self, other: &Self) -> (b: bool) {
        *self == *other
    }
}

impl SpanKey for SpanAttrs {
    fn same(&self, other: &Self) -> (b: bool) {
        *self == *other
    }
}

/// Spans as plain values.
pub open spec fn spans_view<K>(v: Seq<(K, String)>) -> Seq<(K, Seq<char>)> {
    v.map_values(|p: (K, String)| (p.0, p.1@))
}

pub open spec fn work_view<K>(v: Seq<(K, Vec<char>)>) -> Seq<(K, Seq<char>)> {
    v.map_values(|p: (K, Vec<char>)| (p.0, p.1@))
}

/// `c` appended under `key`: extends the last span when its key is the
/// same, else starts a new one.
pub open spec fn push_char_v<K>(spans: Seq<(K, Seq<char>)>, key: K, c: char) -> Seq<(K, Seq<char>)> {
    if spans.len() > 0 && spans.last().0 == key {
        spans.update(spans.len() - 1, (key, spans.last().1.push(c)))
    } else {
        spans.push((key, seq![c]))
    }
}

fn push_char<K: SpanKey>(spans: &mut Vec<(K, Vec<char>)>, key: K, c: char)
    ensures
        work_view(final(spans)@) == push_char_v(work_view(old(spans)@), key, c),
{
    let n = spans.len();
    if n > 0 && spans[n - 1].0.same(&key) {
        let ghost w = work_view(spans@);
        let ghost last = spans@.last();
        let (k, mut s) = spans.pop().unwrap();
        assert((k, s) == last);
        s.push(c);
        let ghost sv = s@;
        spans.push((k, s));
        assert(spans@.last().1@ == sv);
        assert(work_view(spans@) =~= push_char_v(w, key, c));
    } else {
        let ghost w = work_view(spans@);
        let s: Vec<char> = vec![c];
        assert(s@ == seq![c]);
        spans.push((key, s));
        assert(spans@.last() == (key, s));
        assert(work_view(spans@).last() == (key, seq![c]));
        assert(work_view(spans@) =~= push_char_v(w, key, c));
    }
}

/// Spans with their texts turned into strings.
fn finish<K: SpanKey>(work: Vec<(K, Vec<char>)>) -> (out: Vec<(K, String)>)
    ensures
        spans_view(out@) == work_view(work@),
{
    let mut out: Vec<(K, String)> = Vec::new();
    let mut i: usize = 0;
    while i < work.len()
        invariant
            i <= work@.len(),
            spans_view(out@) == work_view(work@).take(i as int),
        decreases work@.len() - i,
    {
        let k = work[i].0;
        let s = string_of(work[i].1.as_slice());
        assert(s@ == work@[i as int].1@);
        let ghost o = spans_view(out@);
        out.push((k, s));
        assert(out@.last() == (k, s));
        assert(spans_view(out@) =~= o.push((k, s@)));
        assert(work_view(work@)[i as int] == (k, work@[i as int].1@));
        assert(work_view(work@).take(i + 1) =~= work_view(work@).take(i as int).push((k, s@)));
        i = i + 1;
        assert(spans_view(out@) =~= work_view(work@).take(i as int));
    }
    assert(work_view(work@).take(work@.len() as int) =~= work_view(work@));
    out
}

// ------------------------------------------------------------- highlights

/// The source style of col `col` of a line (default past its styles).
pub open spec fn line_style(l: Line, col: int) -> Style {
    if 0 <= col < l.styles@.len() {
        l.styles@[col]
    } else {
        plain()
    }
}

pub open spec fn spec_hl_at(a: AppV, row: int, col: int, sel: Option<(usize, usize)>) -> Hl {
    let p = Pos { row: row as usize, col: col as usize };
    if row == a.cursor.row && col == a.cursor.col {
        Hl::Cursor
    } else if sel matches Some((s, e)) && s <= col && col <= e {
        Hl::Sel
    } else if a.search.current matches Some(i) && i < a.search.matches.len()
        && a.search.matches[i as int].spec_covers(p) {
        Hl::CurrentMatch
    } else if spec_match_at(a.search.matches, p) is Some {
        Hl::Match
    } else {
        Hl::Plain
    }
}

fn hl_at(app: &App, row: usize, col: usize, sel: Option<(usize, usize)>) -> (h: Hl)
    ensures
        h == spec_hl_at(app@, row as int, col as int, sel),
{
    if row == app.cursor.row && col == app.cursor.col {
        return Hl::Cursor;
    }
    match sel {
        Some((s, e)) => {
            if col >= s && col <= e {
                return Hl::Sel;
            }
        },
        None => {},
    }
    let p = Pos { row, col };
    match app.search.current {
        Some(i) => {
            if i < app.search.matches.len() && app.search.matches[i].covers(p) {
                return Hl::CurrentMatch;
            }
        },
        None => {},
    }
    if app.search.match_at(p).is_some() {
        return Hl::Match;
    }
    Hl::Plain
}

/// Spans of the first `k` cells of row `row`.
pub open spec fn cells_spans(a: AppV, row: int, sel: Option<(usize, usize)>, k: int) -> Seq<
    (SpanAttrs, Seq<char>),
>
    decreases k,
{
    if k <= 0 {
        seq![]
    } else {
        let line = a.buf.lines@[row];
        let col = k - 1;
        let hl = spec_hl_at(a, row, col, sel);
        let style = if hl == Hl::Plain {
            line_style(line, col)
        } else {
            plain()
        };
        push_char_v(cells_spans(a, row, sel, k - 1), SpanAttrs { hl, style }, line.chars@[col])
    }
}

/// Per-row spans in char space, merging selection, search matches, the
/// current match, the cursor cell, and the source style. The cursor
/// gets a virtual space cell when it sits past the end of the line.
pub open spec fn spec_row_spans(a: AppV, row: int) -> Seq<(SpanAttrs, Seq<char>)> {
    let line = a.buf.lines@[row];
    let base = cells_spans(a, row, spec_sel_range(a, row as usize), line.chars@.len() as int);
    if row == a.cursor.row && a.cursor.col >= line.chars@.len() {
        base.push((SpanAttrs { hl: Hl::Cursor, style: plain() }, seq![' ']))
    } else {
        base
    }
}

pub fn row_spans(app: &App, row: usize) -> (v: Vec<(SpanAttrs, String)>)
    requires
        row < app.buf.lines@.len(),
    ensures
        spans_view(v@) == spec_row_spans(app@, row as int),
{
    let line = app.buf.line(row);
    let sel = app.sel_range(row);
    let mut spans: Vec<(SpanAttrs, Vec<char>)> = Vec::new();
    let mut col: usize = 0;
    while col < line.chars.len()
        invariant
            *line == app.buf.lines@[row as int],
            sel == spec_sel_range(app@, row),
            row < app.buf.lines@.len(),
            col <= line.chars@.len(),
            work_view(spans@) == cells_spans(app@, row as int, sel, col as int),
        decreases line.chars@.len() - col,
    {
        let hl = hl_at(app, row, col, sel);
        let style = if hl == Hl::Plain {
            line.style_at(col)
        } else {
            Style::default()
        };
        push_char(&mut spans, SpanAttrs { hl, style }, line.chars[col]);
        col = col + 1;
    }
    if row == app.cursor.row && app.cursor.col >= line.chars.len() {
        let ghost w = work_view(spans@);
        let s: Vec<char> = vec![' '];
        assert(s@ == seq![' ']);
        let st = Style::default();
        spans.push((SpanAttrs { hl: Hl::Cursor, style: st }, s));
        assert(spans@.last() == (SpanAttrs { hl: Hl::Cursor, style: st }, s));
        assert(work_view(spans@) =~= w.push((SpanAttrs { hl: Hl::Cursor, style: plain() }, seq![' '])));
    }
    finish(spans)
}

/// Spans of the first `k` cells of a raw row, merged by source style.
pub open spec fn style_spans(line: Line, k: int) -> Seq<(Style, Seq<char>)>
    decreases k,
{
    if k <= 0 {
        seq![]
    } else {
        push_char_v(style_spans(line, k - 1), line_style(line, k - 1), line.chars@[k - 1])
    }
}

/// Raw buffer row merged by source style only (extract backdrop).
pub fn buffer_row_spans(buf: &Buffer, row: usize) -> (v: Vec<(Style, String)>)
    requires
        row < buf.lines@.len(),
    ensures
        spans_view(v@) == style_spans(buf.lines@[row as int], buf.lines@[row as int].chars@.len() as int),
{
    let line = buf.line(row);
    let mut spans: Vec<(Style, Vec<char>)> = Vec::new();
    let mut col: usize = 0;
    while col < line.chars.len()
        invariant
            col <= line.chars@.len(),
            work_view(spans@) == style_spans(*line, col as int),
        decreases line.chars@.len() - col,
    {
        push_char(&mut spans, line.style_at(col), line.chars[col]);
        col = col + 1;
    }
    finish(spans)
}

// --------------------------------------------------------------- clipping

/// The chars of the spans, each with its key.
pub open spec fn keyed_chars<K>(spans: Seq<(K, Seq<char>)>) -> Seq<(K, char)>
    decreases spans.len(),
{
    if spans.len() == 0 {
        seq![]
    } else {
        keyed_chars(spans.drop_last()) + spans.last().1.map_values(|c: char| (spans.last().0, c))
    }
}

/// Clip keyed chars from index `i` (at display cell `x`) into `out`:
/// cells left of `hoff` are skipped, a wide char straddling the left
/// edge becomes a space, and the first char reaching past `end` stops.
pub open spec fn clip_from<K>(cs: Seq<(K, char)>, i: int, x: int, hoff: int, end: int, out: Seq<(K, Seq<char>)>) -> Seq<(K, Seq<char>)>
    decreases cs.len() - i,
{
    if i < 0 || i >= cs.len() {
        out
    } else {
        let (k, c) = cs[i];
        let w = cells(c) as int;
        if x + w <= hoff {
            clip_from(cs, i + 1, x + w, hoff, end, out)
        } else if x >= end || x + w > end {
            out
        } else {
            clip_from(cs, i + 1, x + w, hoff, end, push_char_v(out, k, if x < hoff {
                ' '
            } else {
                c
            }))
        }
    }
}

/// Clip spans to the viewport [hoff, hoff + view_cols) in display cells.
pub open spec fn spec_clip_spans<K>(spans: Seq<(K, Seq<char>)>, hoff: int, view_cols: int) -> Seq<(K, Seq<char>)> {
    clip_from(keyed_chars(spans), 0, 0, hoff, hoff + view_cols, seq![])
}

/// Display cells taken by a run of chars.
pub open spec fn text_cells(s: Seq<char>) -> nat
    decreases s.len(),
{
    if s.len() == 0 {
        0
    } else {
        text_cells(s.drop_last()) + cells(s.last())
    }
}

/// Display cells taken by the text of all spans.
pub open spec fn spans_cells<K>(spans: Seq<(K, Seq<char>)>) -> nat
    decreases spans.len(),
{
    if spans.len() == 0 {
        0
    } else {
        spans_cells(spans.drop_last()) + text_cells(spans.last().1)
    }
}

proof fn lemma_push_char_cells<K>(spans: Seq<(K, Seq<char>)>, key: K, c: char)
    ensures
        spans_cells(push_char_v(spans, key, c)) == spans_cells(spans) + cells(c),
{
    let t = push_char_v(spans, key, c);
    if spans.len() > 0 && spans.last().0 == key {
        let s = spans.last().1;
        assert(t.drop_last() =~= spans.drop_last());
        assert(t.last() == (key, s.push(c)));
        assert(s.push(c).drop_last() =~= s);
        assert(text_cells(s.push(c)) == text_cells(s) + cells(c));
    } else {
        assert(t.drop_last() =~= spans);
        assert(t.last() == (key, seq![c]));
        assert(seq![c].drop_last() =~= Seq::<char>::empty());
        assert(text_cells(Seq::<char>::empty()) == 0);
        assert(text_cells(seq![c]) == cells(c));
    }
}

/// Clipping from cell `x` adds at most the cells left between the later
/// of `x` and the left edge, and the right edge.
proof fn lemma_clip_from_cells<K>(
    cs: Seq<(K, char)>,
    i: int,
    x: int,
    hoff: int,
    end: int,
    out: Seq<(K, Seq<char>)>,
)
    requires
        0 <= x <= end,
        0 <= hoff <= end,
        cells(' ') == 1,
    ensures
        spans_cells(clip_from(cs, i, x, hoff, end, out)) <= spans_cells(out) + end - (if x < hoff {
            hoff
        } else {
            x
        }),
    decreases cs.len() - i,
{
    if i < 0 || i >= cs.len() {
    } else {
        let (k, c) = cs[i];
        let w = cells(c) as int;
        if x + w <= hoff {
            lemma_clip_from_cells(cs, i + 1, x + w, hoff, end, out);
        } else if x >= end || x + w > end {
        } else {
            let shown = if x < hoff {
                ' '
            } else {
                c
            };
            lemma_push_char_cells(out, k, shown);
            lemma_clip_from_cells(cs, i + 1, x + w, hoff, end, push_char_v(out, k, shown));
        }
    }
}

fn cell(c: char) -> (w: usize)
    ensures
        w == cells(c),
        1 <= w <= 3,
{
    match width(c) {
        Some(w) => if w == 0 {
            1
        } else {
            w
        },
        None => 1,
    }
}

/// Clip spans to the viewport [hoff, hoff + view_cols) in display cells.
/// A wide char straddling the left edge renders as a space; a char that
/// would cross the right edge is dropped.
pub fn clip_spans<K: SpanKey>(spans: Vec<(K, String)>, hoff: usize, view_cols: usize) -> (out: Vec<(K, String)>)
    requires
        hoff + view_cols + 3 <= usize::MAX,
    ensures
        spans_view(out@) == spec_clip_spans(spans_view(spans@), hoff as int, view_cols as int),
        spans_cells(spans_view(out@)) <= view_cols,
{
    let end = hoff + view_cols;
    // A space is one cell wide; the left-edge pad relies on it.
    let _ = width(' ');
    proof {
        lemma_clip_from_cells(
            keyed_chars(spans_view(spans@)),
            0,
            0,
            hoff as int,
            end as int,
            Seq::<(K, Seq<char>)>::empty(),
        );
    }
    let ghost sv = spans_view(spans@);
    // Every char with its span's key, in order.
    let mut flat: Vec<(K, char)> = Vec::new();
    let mut si: usize = 0;
    assert(sv.take(0) =~= Seq::<(K, Seq<char>)>::empty());
    while si < spans.len()
        invariant
            sv == spans_view(spans@),
            si <= spans@.len(),
            flat@ == keyed_chars(sv.take(si as int)),
        decreases spans@.len() - si,
    {
        let key = spans[si].0;
        let text = chars_of(spans[si].1.as_str());
        assert(sv[si as int] == (key, text@));
        let ghost base = flat@;
        let mut j: usize = 0;
        while j < text.len()
            invariant
                j <= text@.len(),
                flat@ == base + text@.take(j as int).map_values(|c: char| (key, c)),
            decreases text@.len() - j,
        {
            flat.push((key, text[j]));
            j = j + 1;
            assert(flat@ =~= base + text@.take(j as int).map_values(|c: char| (key, c)));
        }
        proof {
            assert(text@.take(text@.len() as int) =~= text@);
            assert(sv.take(si + 1).drop_last() =~= sv.take(si as int));
            assert(sv.take(si + 1).last() == (key, text@));
        }
        si = si + 1;
    }
    assert(sv.take(spans@.len() as int) =~= sv);
    let mut out: Vec<(K, Vec<char>)> = Vec::new();
    assert(work_view(out@) =~= Seq::<(K, Seq<char>)>::empty());
    let mut x: usize = 0;
    let mut i: usize = 0;
    while i < flat.len()
        invariant
            flat@ == keyed_chars(sv),
            sv == spans_view(spans@),
            end == hoff + view_cols,
            end + 3 <= usize::MAX,
            i <= flat@.len(),
            x <= end,
            spans_cells(spec_clip_spans(sv, hoff as int, view_cols as int)) <= view_cols,
            spec_clip_spans(sv, hoff as int, view_cols as int) == clip_from(flat@, i as int, x as int, hoff as int, end as int, work_view(out@)),
        decreases flat@.len() - i,
    {
        let (key, c) = flat[i];
        let w = cell(c);
        if x + w <= hoff {
            x = x + w;
        } else if x >= end || x + w > end {
            return finish(out);
        } else {
            push_char(&mut out, key, if x < hoff {
                ' '
            } else {
                c
            });
            x = x + w;
        }
        i = i + 1;
    }
    finish(out)
}

// --------------------------------------------------------------- mode row

/// Badge naming the current mode, leading the persistent bottom row.
pub open spec fn spec_mode_badge(a: AppV) -> Seq<char> {
    match a.mode {
        ModeV::Prompt { .. } => "[search]"@,
        _ => "[copy]"@,
    }
}

pub fn mode_badge(app: &App) -> (s: &'static str)
    ensures
        s@ == spec_mode_badge(app@),
{
    match app.mode {
        Mode::Prompt { .. } => "[search]",
        _ => "[copy]",
    }
}

/// Extra text for the mode row after the badge: the pattern menu while
/// it is open, or a transient message.
pub open spec fn spec_mode_row_message(a: AppV) -> Option<Seq<char>> {
    match a.mode {
        ModeV::PatternMenu => Some("pattern:"@ + crate::patterns::menu_items(a.patterns)),
        _ => a.message,
    }
}

pub fn mode_row_message(app: &App) -> (m: Option<String>)
    ensures
        crate::app::opt_str(m) == spec_mode_row_message(app@),
{
    match app.mode {
        Mode::PatternMenu => Some(app.patterns.menu_line()),
        _ => match &app.message {
            Some(s) => Some(s.clone()),
            None => None,
        },
    }
}

pub open spec fn hint_selecting() -> Seq<char> {
    "y copy  Enter copy+exit  Esc clear"@
}

pub open spec fn hint_idle() -> Seq<char> {
    "/ search  n/N next  v select  p patterns  y copy  q quit"@
}

/// Contextual keybinding hint for the mode row in Normal mode.
pub open spec fn spec_mode_hint(a: AppV) -> Option<Seq<char>> {
    match a.mode {
        ModeV::Normal => Some(
            if a.sel is Some {
                hint_selecting()
            } else {
                hint_idle()
            },
        ),
        _ => None,
    }
}

pub fn mode_hint(app: &App) -> (h: Option<String>)
    ensures
        crate::app::opt_str(h) == spec_mode_hint(app@),
{
    match app.mode {
        Mode::Normal => Some(
            if app.sel.is_some() {
                "y copy  Enter copy+exit  Esc clear".to_owned()
            } else {
                "/ search  n/N next  v select  p patterns  y copy  q quit".to_owned()
            },
        ),
        _ => None,
    }
}

pub open spec fn spec_extract_hint() -> Seq<char> {
    "Tab copy  Enter insert  ^t word/line  Esc cancel"@
}

/// Keybind hint for the extract popup.
pub fn extract_hint() -> (s: &'static str)
    ensures
        s@ == spec_extract_hint(),
{
    "Tab copy  Enter insert  ^t word/line  Esc cancel"
}

/// Chars of `s` from `i` on that keep the running cell width, counted
/// from `w`, below `cols` (`String::retain` with a running sum).
pub open spec fn keep_below(s: Seq<char>, i: int, w: int, cols: int) -> Seq<char>
    decreases s.len() - i,
{
    if i < 0 || i >= s.len() {
        seq![]
    } else {
        let w2 = w + cells(s[i]);
        if w2 < cols {
            seq![s[i]] + keep_below(s, i + 1, w2, cols)
        } else {
            keep_below(s, i + 1, w2, cols)
        }
    }
}

pub open spec fn spec_truncate(s: Seq<char>, cols: int) -> Seq<char> {
    keep_below(s, 0, 0, cols)
}

/// Keeps the chars of `text` whose running display width stays below
/// `cols`.
pub fn truncate_to_width(text: String, cols: usize) -> (t: String)
    ensures
        t@ == spec_truncate(text@, cols as int),
        t@.len() <= text@.len(),
        t@ == text@.take(t@.len() as int),
        t@.len() > 0 ==> text_cells(t@) < cols,
{
    let cs = chars_of(text.as_str());
    let mut out: Vec<char> = Vec::new();
    let mut w: usize = 0;
    let mut i: usize = 0;
    // Cells taken by the kept chars.
    let ghost mut shown: nat = 0;
    // Once the width reaches `cols` nothing more is kept.
    while i < cs.len() && w < cols
        invariant
            i <= cs@.len(),
            w <= cols,
            spec_truncate(cs@, cols as int) == out@ + keep_below(cs@, i as int, w as int, cols as int),
            out@.len() <= i,
            out@ == cs@.take(out@.len() as int),
            text_cells(out@) == shown,
            w < cols ==> w == shown && out@.len() == i,
            out@.len() > 0 ==> shown < cols,
        decreases cs@.len() - i,
    {
        let c = cs[i];
        let cw = cell(c);
        if cw < cols - w {
            let ghost before = out@;
            out.push(c);
            w = w + cw;
            proof {
                assert(out@.drop_last() =~= before);
                shown = shown + cw as nat;
                assert(out@ =~= cs@.take(out@.len() as int));
            }
            assert(out@ + keep_below(cs@, i + 1, w as int, cols as int) =~= out@.drop_last() + (seq![c]
                + keep_below(cs@, i + 1, w as int, cols as int)));
        } else {
            proof {
                lemma_keep_none(cs@, i + 1, w + cw, cols as int);
            }
            w = cols;
            i = cs.len();
            assert(keep_below(cs@, i as int, w as int, cols as int) =~= Seq::<char>::empty());
            assert(out@ + keep_below(cs@, i as int, w as int, cols as int) =~= out@);
            continue;
        }
        i = i + 1;
    }
    proof {
        if i < cs@.len() {
            lemma_keep_none(cs@, i as int, w as int, cols as int);
        }
        assert(out@ + keep_below(cs@, i as int, w as int, cols as int) =~= out@);
    }
    string_of(out.as_slice())
}

/// Past the width limit nothing more is kept.
proof fn lemma_keep_none(s: Seq<char>, i: int, w: int, cols: int)
    requires
        w >= cols,
    ensures
        keep_below(s, i, w, cols) == Seq::<char>::empty(),
    decreases s.len() - i,
{
    if 0 <= i < s.len() {
        lemma_keep_none(s, i + 1, w + cells(s[i]), cols);
    }
}

/// A full-width box-drawing rule.
pub fn separator_rule(cols: usize) -> (s: String)
    ensures
        s@ == spec_truncate(Seq::new(cols as nat, |i: int| '\u{2500}'), cols as int),
{
    let mut v: Vec<char> = Vec::new();
    let mut i: usize = 0;
    while i < cols
        invariant
            i <= cols,
            v@ == Seq::new(i as nat, |k: int| '\u{2500}'),
        decreases cols - i,
    {
        v.push('\u{2500}');
        i = i + 1;
        assert(v@ =~= Seq::new(i as nat, |k: int| '\u{2500}'));
    }
    truncate_to_width(string_of(v.as_slice()), cols)
}

/// The selection part of the indicator.
pub open spec fn sel_label(sel: Option<(SelKind, Pos)>) -> Seq<char> {
    match sel {
        Some((SelKind::Char, _)) => "VISUAL "@,
        Some((SelKind::Line, _)) => "VISUAL LINE "@,
        None => seq![],
    }
}

/// The search part of the indicator: the query and its match count,
/// with the current match's number when there is one.
pub open spec fn search_label(pattern: Seq<char>, current: Option<usize>, n: nat) -> Seq<char> {
    if pattern.len() == 0 {
        seq![]
    } else {
        match current {
            Some(i) => "/"@ + pattern + " ["@ + spec_decimal((i + 1) as nat) + "/"@ + spec_decimal(n) + "] "@,
            None => "/"@ + pattern + " ["@ + spec_decimal(n) + "] "@,
        }
    }
}

/// Always-on top-right indicator, tmux mode-style: selection state,
/// the active search summary, and the cursor position.
pub open spec fn spec_indicator(a: AppV) -> Seq<char> {
    sel_label(a.sel) + search_label(a.search.pattern, a.search.current, a.search.matches.len())
        + "["@ + spec_decimal((a.cursor.row + 1) as nat) + "/"@ + spec_decimal(
        a.buf.lines@.len() as nat,
    ) + "]"@
}

fn push_search_label(out: &mut Vec<char>, pattern: &str, current: Option<usize>, n: usize)
    requires
        current matches Some(i) ==> i < n,
    ensures
        final(out)@ == old(out)@ + search_label(pattern@, current, n as nat),
{
    if pattern.is_empty() {
        assert(old(out)@ + search_label(pattern@, current, n as nat) =~= old(out)@);
        return;
    }
    push_str(out, "/");
    push_str(out, pattern);
    push_str(out, " [");
    match current {
        Some(i) => {
            push_decimal(out, i + 1);
            push_str(out, "/");
            push_decimal(out, n);
        },
        None => push_decimal(out, n),
    }
    push_str(out, "] ");
    assert(out@ =~= old(out)@ + search_label(pattern@, current, n as nat));
}

pub fn indicator(app: &App) -> (s: String)
    requires
        app.wf(),
    ensures
        s@ == spec_indicator(app@),
{
    let mut out: Vec<char> = Vec::new();
    match app.sel {
        Some((SelKind::Char, _)) => push_str(&mut out, "VISUAL "),
        Some((SelKind::Line, _)) => push_str(&mut out, "VISUAL LINE "),
        None => {},
    }
    assert(out@ =~= sel_label(app.sel));
    push_search_label(&mut out, app.search.pattern.as_str(), app.search.current, app.search.matches.len());
    let ghost pre = out@;
    push_str(&mut out, "[");
    push_decimal(&mut out, app.cursor.row + 1);
    push_str(&mut out, "/");
    push_decimal(&mut out, app.buf.last_row() + 1);
    push_str(&mut out, "]");
    assert(out@ =~= pre + "["@ + spec_decimal((app.cursor.row + 1) as nat) + "/"@ + spec_decimal(
        app.buf.lines@.len() as nat,
    ) + "]"@);
    string_of(out.as_slice())
}

// ----------------------------------------------------------------- prompt

/// Chars taken from the end of `s` while each still fits in `avail`
/// cells, and the cells left after them.
pub open spec fn take_back(s: Seq<char>, avail: int) -> (Seq<char>, int)
    decreases s.len(),
{
    if s.len() == 0 || cells(s.last()) > avail {
        (seq![], avail)
    } else {
        let (t, rest) = take_back(s.drop_last(), avail - cells(s.last()));
        (t.push(s.last()), rest)
    }
}

/// Chars taken from the start of `s` while each still fits in `avail`.
pub open spec fn take_front(s: Seq<char>, avail: int) -> Seq<char>
    decreases s.len(),
{
    if s.len() == 0 || cells(s[0]) > avail {
        seq![]
    } else {
        seq![s[0]] + take_front(s.drop_first(), avail - cells(s[0]))
    }
}

/// Spans (reverse-video?, text) for a one-line prompt: the prefix and
/// the text around the cursor, with the cursor cell (the char under it,
/// or a trailing space) in reverse video. Text left of the cursor is
/// trimmed from its start so the cursor always stays on screen.
pub open spec fn spec_line_edit_spans(prefix: Seq<char>, st: (Seq<char>, int), cols: int) -> Seq<(bool, Seq<char>)> {
    let (t, c) = st;
    let cur = if c < t.len() {
        t[c]
    } else {
        ' '
    };
    let pw = crate::buffer::cells_sum(prefix, prefix.len() as int) as int;
    if pw + cells(cur) > cols {
        seq![(false, spec_truncate(prefix, cols))]
    } else {
        let avail = cols - pw - cells(cur);
        let (before, avail2) = take_back(t.take(c), avail);
        let after_src = if c < t.len() {
            t.skip(c + 1)
        } else {
            seq![]
        };
        let after = take_front(after_src, avail2);
        let base = seq![(false, prefix + before), (true, seq![cur])];
        if after.len() > 0 {
            base.push((false, after))
        } else {
            base
        }
    }
}

pub fn line_edit_spans(prefix: &str, le: &LineEdit, cols: usize) -> (v: Vec<(bool, String)>)
    requires
        le.wf(),
        prefix@.len() <= usize::MAX / 8,
    ensures
        spans_view(v@) == spec_line_edit_spans(prefix@, le.state(), cols as int),
{
    let p = chars_of(prefix);
    let mut pw: usize = 0;
    let mut k: usize = 0;
    while k < p.len()
        invariant
            p@ == prefix@,
            p@.len() <= usize::MAX / 8,
            k <= p@.len(),
            pw == crate::buffer::cells_sum(p@, k as int),
            pw <= 3 * k,
        decreases p@.len() - k,
    {
        pw = pw + cell(p[k]);
        k = k + 1;
    }
    let cursor = match le.under() {
        Some(c) => c,
        None => ' ',
    };
    if pw + cell(cursor) > cols {
        let t = truncate_to_width(prefix.to_owned(), cols);
        let mut v: Vec<(bool, String)> = Vec::new();
        v.push((false, t));
        assert(spans_view(v@) =~= seq![(false, t@)]);
        return v;
    }
    let mut avail: usize = cols - pw - cell(cursor);
    let bt = chars_of(le.before_text().as_str());
    let ghost full_avail = avail as int;
    // Take chars from the end of the text before the cursor.
    let mut j: usize = bt.len();
    proof {
        assert(bt@.take(bt@.len() as int) =~= bt@);
        assert(bt@.skip(bt@.len() as int) =~= Seq::<char>::empty());
        let (t, r) = take_back(bt@, full_avail);
        assert(t + Seq::<char>::empty() =~= t);
    }
    while j > 0 && cell(bt[j - 1]) <= avail
        invariant
            j <= bt@.len(),
            take_back(bt@, full_avail) == ({
                let (t, r) = take_back(bt@.take(j as int), avail as int);
                (t + bt@.skip(j as int), r)
            }),
        decreases j,
    {
        let w = cell(bt[j - 1]);
        proof {
            let s = bt@.take(j as int);
            assert(s.last() == bt@[j - 1]);
            assert(s.drop_last() =~= bt@.take(j - 1));
            let (t0, r0) = take_back(bt@.take(j - 1), avail - w);
            assert(take_back(s, avail as int) == (t0.push(bt@[j - 1]), r0));
            assert(t0.push(bt@[j - 1]) + bt@.skip(j as int) =~= t0 + bt@.skip(j - 1));
        }
        avail = avail - w;
        j = j - 1;
    }
    proof {
        let s = bt@.take(j as int);
        if j > 0 {
            assert(s.last() == bt@[j - 1]);
        }
        assert(take_back(s, avail as int) == (Seq::<char>::empty(), avail as int));
        assert(Seq::<char>::empty() + bt@.skip(j as int) =~= bt@.skip(j as int));
    }
    let mut first: Vec<char> = Vec::new();
    crate::text::push_str(&mut first, prefix);
    crate::buffer::extend_from(&mut first, &bt, j, bt.len());
    assert(bt@.subrange(j as int, bt@.len() as int) =~= bt@.skip(j as int));
    let at = chars_of(le.after_text().as_str());
    let mut after: Vec<char> = Vec::new();
    let mut i: usize = 0;
    let ghost avail2 = avail as int;
    assert(at@.take(0) =~= Seq::<char>::empty());
    assert(at@.skip(0) =~= at@);
    assert(after@ =~= at@.take(0));
    while i < at.len() && cell(at[i]) <= avail
        invariant
            i <= at@.len(),
            after@ == at@.take(i as int),
            take_front(at@, avail2) == at@.take(i as int) + take_front(at@.skip(i as int), avail as int),
        decreases at@.len() - i,
    {
        let w = cell(at[i]);
        proof {
            let s = at@.skip(i as int);
            assert(s[0] == at@[i as int]);
            assert(s.drop_first() =~= at@.skip(i + 1));
            assert(at@.take(i as int) + seq![at@[i as int]] =~= at@.take(i + 1));
        }
        after.push(at[i]);
        avail = avail - w;
        i = i + 1;
    }
    proof {
        let s = at@.skip(i as int);
        if i < at@.len() {
            assert(s[0] == at@[i as int]);
        }
        assert(take_front(s, avail as int) == Seq::<char>::empty());
        assert(take_front(at@, avail2) =~= after@);
    }
    let mut v: Vec<(bool, String)> = Vec::new();
    v.push((false, string_of(first.as_slice())));
    let cv: Vec<char> = vec![cursor];
    assert(cv@ == seq![cursor]);
    v.push((true, string_of(cv.as_slice())));
    if after.len() > 0 {
        v.push((false, string_of(after.as_slice())));
    }
    proof {
        assert(bt@ == le.chars_v().take(le.cursor_v()));
    }
    assert(spans_view(v@) =~= spec_line_edit_spans(prefix@, le.state(), cols as int));
    v
}

} // verus!
