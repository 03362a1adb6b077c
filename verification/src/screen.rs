//! Screen layout: what each terminal row of the copy view and of the
//! extract picker shows, as values ready to be written out.
use vstd::prelude::*;
use crate::ansi::Style;
use crate::app::{App, AppV, Mode, ModeV};
use crate::buffer::Buffer;
use crate::config::ColorPair;
use crate::extract::{cands_of, ExtractApp, ExtractV, Granularity};
use crate::search::Direction;
use crate::text::{chars_of, push_decimal, spec_decimal, string_of};
use crate::ui::{
    buffer_row_spans, clip_spans, indicator, line_edit_spans, mode_hint, mode_row_message, row_spans,
    spans_view, spec_clip_spans, spec_indicator, spec_line_edit_spans, spec_mode_hint,
    spec_mode_row_message, spec_row_spans, spec_truncate, spans_cells, style_spans, text_cells,
    truncate_to_width, SpanAttrs,
};
use crate::unicode::width;

verus! {

// ------------------------------------------------------------ copy view

/// Spans shown on content row `y` of the copy view: buffer row
/// `top + y` clipped to the viewport, or nothing past the last row.
pub open spec fn spec_view_row(a: AppV, y: int) -> Seq<(SpanAttrs, Seq<char>)> {
    let row = a.top + y;
    if row < a.buf.lines@.len() {
        spec_clip_spans(spec_row_spans(a, row), a.hoff as int, a.view_cols as int)
    } else {
        seq![]
    }
}

pub fn view_row(app: &App, y: usize) -> (v: Vec<(SpanAttrs, String)>)
    requires
        app.wf(),
        y < app.view_rows,
    ensures
        spans_view(v@) == spec_view_row(app@, y as int),
        spans_cells(spans_view(v@)) <= app.view_cols,
{
    let row = app.top + y;
    if row < app.buf.lines.len() {
        clip_spans(row_spans(app, row), app.hoff, app.view_cols)
    } else {
        let v: Vec<(SpanAttrs, String)> = Vec::new();
        assert(spans_view(v@) =~= Seq::<(SpanAttrs, Seq<char>)>::empty());
        v
    }
}

/// Where the top-right indicator goes and what it prints: a one-cell
/// pad, then the indicator cut below the width; nothing when even that
/// does not fit.
pub open spec fn spec_indicator_cell(a: AppV) -> Option<(int, Seq<char>)> {
    let cut = if a.view_cols >= 1 {
        a.view_cols - 1
    } else {
        0
    };
    let ind = spec_truncate(spec_indicator(a), cut);
    let w = ind.len() + 1;
    if w <= a.view_cols {
        Some((a.view_cols - w, seq![' '] + ind))
    } else {
        None
    }
}

pub fn indicator_cell(app: &App) -> (r: Option<(usize, String)>)
    requires
        app.wf(),
    ensures
        match r {
            Some((x, s)) => spec_indicator_cell(app@) == Some((x as int, s@)),
            None => spec_indicator_cell(app@) is None,
        },
{
    let cut = if app.view_cols >= 1 {
        app.view_cols - 1
    } else {
        0
    };
    let ind = truncate_to_width(indicator(app), cut);
    let cs = chars_of(ind.as_str());
    if cs.len() < app.view_cols {
        let mut out: Vec<char> = Vec::new();
        out.push(' ');
        crate::text::push_str(&mut out, ind.as_str());
        assert(out@ =~= seq![' '] + ind@);
        Some((app.view_cols - (cs.len() + 1), string_of(out.as_slice())))
    } else {
        None
    }
}

/// The badge color pair: the search accent while the prompt is open,
/// the copy accent otherwise.
pub open spec fn spec_badge_pair(a: AppV) -> ColorPair {
    match a.mode {
        ModeV::Prompt { .. } => a.theme.badge_search,
        _ => a.theme.badge_copy,
    }
}

pub fn badge_pair(app: &App) -> (p: ColorPair)
    ensures
        p == spec_badge_pair(app@),
{
    match app.mode {
        Mode::Prompt { .. } => app.theme.badge_search,
        _ => app.theme.badge_copy,
    }
}

/// What the mode row shows after the badge, in `rest` columns.
pub enum RowPart {
    /// The search prompt: spans of (reverse video?, text).
    Edit(Vec<(bool, String)>),
    /// A message or the pattern menu.
    Text(String),
    /// The idle key hint, shown dim.
    Dim(String),
    Blank,
}

pub enum RowPartV {
    Edit(Seq<(bool, Seq<char>)>),
    Text(Seq<char>),
    Dim(Seq<char>),
    Blank,
}

pub open spec fn row_part_view(r: RowPart) -> RowPartV {
    match r {
        RowPart::Edit(v) => RowPartV::Edit(spans_view(v@)),
        RowPart::Text(s) => RowPartV::Text(s@),
        RowPart::Dim(s) => RowPartV::Dim(s@),
        RowPart::Blank => RowPartV::Blank,
    }
}

/// The prompt's leading char: `/` searching down, `?` up.
pub open spec fn prompt_prefix(d: Direction) -> Seq<char> {
    match d {
        Direction::Forward => seq!['/'],
        Direction::Backward => seq!['?'],
    }
}

/// The prompt with its query while it is open; else the message or
/// pattern menu; else, idle, the key hint; each fitted to `rest`.
pub open spec fn spec_mode_row_part(a: AppV, rest: int) -> RowPartV {
    match a.mode {
        ModeV::Prompt { direction, input, .. } => RowPartV::Edit(
            spec_line_edit_spans(prompt_prefix(direction), input, rest),
        ),
        _ => match spec_mode_row_message(a) {
            Some(t) => RowPartV::Text(spec_truncate(t, rest)),
            None => match spec_mode_hint(a) {
                Some(h) => RowPartV::Dim(spec_truncate(h, rest)),
                None => RowPartV::Blank,
            },
        },
    }
}

pub fn mode_row_part(app: &App, rest: usize) -> (r: RowPart)
    requires
        app.wf(),
    ensures
        row_part_view(r) == spec_mode_row_part(app@, rest as int),
{
    match &app.mode {
        Mode::Prompt { direction, input, .. } => {
            let prefix = match direction {
                Direction::Forward => "/",
                Direction::Backward => "?",
            };
            proof {
                reveal_strlit("/");
                reveal_strlit("?");
            }
            assert(prefix@ =~= prompt_prefix(*direction));
            let v = line_edit_spans(prefix, input, rest);
            assert(app@.mode == ModeV::Prompt {
                direction: *direction,
                input: input.state(),
                origin: app@.mode->Prompt_origin,
                origin_top: app@.mode->Prompt_origin_top,
            });
            RowPart::Edit(v)
        },
        _ => match mode_row_message(app) {
            Some(t) => RowPart::Text(truncate_to_width(t, rest)),
            None => match mode_hint(app) {
                Some(h) => RowPart::Dim(truncate_to_width(h, rest)),
                None => RowPart::Blank,
            },
        },
    }
}

/// Display width of `s` in terminal cells.
pub fn text_width(s: &str) -> (w: usize)
    requires
        3 * s@.len() <= usize::MAX,
    ensures
        w == text_cells(s@),
{
    let cs = chars_of(s);
    let mut w: usize = 0;
    let mut i: usize = 0;
    while i < cs.len()
        invariant
            i <= cs@.len(),
            cs@ == s@,
            3 * cs@.len() <= usize::MAX,
            w == text_cells(cs@.take(i as int)),
            w <= 3 * i,
        decreases cs@.len() - i,
    {
        let c = cs[i];
        let cw: usize = match width(c) {
            Some(n) => if n == 0 {
                1
            } else {
                n
            },
            None => 1,
        };
        assert(cs@.take(i + 1).drop_last() =~= cs@.take(i as int));
        w = w + cw;
        i = i + 1;
    }
    assert(cs@.take(i as int) =~= cs@);
    w
}

// -------------------------------------------------------- extract picker

/// First source row shown in the backdrop: the tail of the `len` rows,
/// scrolled back by the backdrop offset.
pub open spec fn spec_backdrop_start(x: ExtractV, len: int) -> int {
    let want = ExtractApp::content_rows_v(x) + x.backdrop_off;
    if len > want {
        len - want
    } else {
        0
    }
}

/// Spans shown on backdrop row `y`: the source row `start + y` in its
/// own styles, clipped to the width, or nothing past the last row.
pub open spec fn spec_backdrop_row(x: ExtractV, buf: Buffer, y: int) -> Seq<(Style, Seq<char>)> {
    let row = spec_backdrop_start(x, buf.lines@.len() as int) + y;
    if row < buf.lines@.len() {
        let line = buf.lines@[row];
        spec_clip_spans(style_spans(line, line.chars@.len() as int), 0, x.view_cols as int)
    } else {
        seq![]
    }
}

pub fn backdrop_row(app: &ExtractApp, backdrop: &Buffer, y: usize) -> (v: Vec<(Style, String)>)
    requires
        app.wf(),
        y <= app.backdrop_rows,
    ensures
        spans_view(v@) == spec_backdrop_row(app@, *backdrop, y as int),
        spans_cells(spans_view(v@)) <= app.view_cols,
{
    let content = if app.backdrop_rows >= 1 {
        app.backdrop_rows - 1
    } else {
        0
    };
    let want = content + app.backdrop_off;
    let n = backdrop.lines.len();
    let start = if n > want {
        n - want
    } else {
        0
    };
    if y < n - start {
        clip_spans(buffer_row_spans(backdrop, start + y), 0, app.view_cols)
    } else {
        let v: Vec<(Style, String)> = Vec::new();
        assert(spans_view(v@) =~= Seq::<(Style, Seq<char>)>::empty());
        v
    }
}

/// First entry of `filtered` in the shown window: the window ends at
/// the selection once the selection is past the first page.
pub open spec fn win_start(x: ExtractV) -> int {
    if x.selected + 1 > x.view_rows {
        x.selected + 1 - x.view_rows
    } else {
        0
    }
}

/// The window of `filtered` shown in the list.
pub open spec fn win(x: ExtractV) -> Seq<usize> {
    let end = if win_start(x) + x.view_rows < x.filtered.len() {
        win_start(x) + x.view_rows
    } else {
        x.filtered.len() as int
    };
    x.filtered.subrange(win_start(x), end)
}

/// What list row `y` (from the top) shows: window entry
/// `view_rows - 1 - y`, so the best match sits at the bottom next to
/// the input, cut to the width, and whether it is the selected entry.
pub open spec fn spec_list_row(x: ExtractV, y: int) -> Option<(Seq<char>, bool)> {
    let k = x.view_rows - 1 - y;
    if 0 <= k < win(x).len() {
        Some(
            (
                spec_truncate(cands_of(x)[win(x)[k] as int], x.view_cols as int),
                k == x.selected - win_start(x),
            ),
        )
    } else {
        None
    }
}

pub fn list_row(app: &ExtractApp, y: usize) -> (r: Option<(String, bool)>)
    requires
        app.wf(),
        y < app.view_rows,
    ensures
        match r {
            Some((s, b)) => spec_list_row(app@, y as int) == Some((s@, b)),
            None => spec_list_row(app@, y as int) is None,
        },
{
    let window = app.window();
    let k = app.view_rows - 1 - y;
    if k < window.len() {
        let idx = window[k];
        let cands = app.candidates();
        assert(cands@.map_values(|s: String| s@)[idx as int] == cands@[idx as int]@);
        let text = truncate_to_width(cands[idx].clone(), app.view_cols);
        Some((text, k == app.window_selected()))
    } else {
        None
    }
}

/// The granularity badge and its color pair.
pub open spec fn spec_granularity_badge(x: ExtractV) -> (Seq<char>, ColorPair) {
    match x.granularity {
        Granularity::Word => ("[word]"@, x.theme.badge_word),
        Granularity::Line => ("[line]"@, x.theme.badge_line),
    }
}

pub fn granularity_badge(app: &ExtractApp) -> (r: (&'static str, ColorPair))
    ensures
        (r.0@, r.1) == spec_granularity_badge(app@),
{
    match app.granularity {
        Granularity::Word => ("[word]", app.theme.badge_word),
        Granularity::Line => ("[line]", app.theme.badge_line),
    }
}

/// The prompt before the query on the input row: the count of
/// matching candidates, then `> `.
pub open spec fn spec_input_prefix(x: ExtractV) -> Seq<char> {
    seq![' '] + spec_decimal(x.filtered.len() as nat) + seq!['>', ' ']
}

pub fn input_prefix(app: &ExtractApp) -> (s: String)
    ensures
        s@ == spec_input_prefix(app@),
{
    let mut out: Vec<char> = Vec::new();
    out.push(' ');
    push_decimal(&mut out, app.filtered.len());
    out.push('>');
    out.push(' ');
    assert(out@ =~= spec_input_prefix(app@));
    string_of(out.as_slice())
}

} // verus!
