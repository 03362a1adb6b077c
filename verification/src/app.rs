//! The copy-mode state machine: cursor motion, selection, search and
//! the pattern menu, driven by keys and mouse events. All fields are
//! public so that contracts outside this module can speak of them.
use vstd::prelude::*;
use crate::buffer::{all_blank, cells, min_int, pos_leq, row_len_ok, width_sum, Buffer, Pos};
use crate::click::{spec_in_window, spec_next_count, ClickTracker};
use crate::config::{default_theme, Theme};
use crate::keys::{Button, Code, Key, Mouse, MouseKind};
use crate::lineedit::LineEdit;
use crate::motion;
use crate::patterns::{key_pos, spec_default_patterns, DefV, PatternDef, Patterns};
use crate::search::{
    matches_within, spec_flipped, spec_run, spec_seek, Direction, Match, Search, SearchV,
};
use crate::text::{chars_of, push_decimal, push_str, spec_decimal, spec_is_whitespace, string_of};

verus! {

pub enum Mode {
    Normal,
    Prompt { direction: Direction, input: LineEdit, origin: Pos, origin_top: usize },
    PatternMenu,
}

#[derive(Debug, Clone, Copy, PartialEq, Eq, Structural)]
pub enum SelKind {
    Char,
    Line,
}

/// A key waiting for its completion key (vi-style multi-key command).
#[derive(Debug, Clone, Copy, PartialEq, Eq, Structural)]
pub enum Pending {
    /// `i`/`a` pressed; the next `w`/`W` selects a word/WORD text object.
    TextObject { around: bool },
}

#[derive(Debug, PartialEq, Eq)]
pub enum Effect {
    Copy(String),
}

pub struct App {
    pub buf: Buffer,
    pub cursor: Pos,
    pub top: usize,
    pub hoff: usize,
    pub view_rows: usize,
    pub view_cols: usize,
    pub search: Search,
    pub patterns: Patterns,
    pub theme: Theme,
    pub mode: Mode,
    pub sel: Option<(SelKind, Pos)>,
    pub message: Option<String>,
    pub quit: bool,
    pub want_col: usize,
    pub drag_origin: Option<Pos>,
    pub clicks: ClickTracker,
    /// The current selection came from a mouse gesture, so releasing the
    /// left button copies it.
    pub mouse_sel: bool,
    pub saved_pattern: String,
    pub pending: Option<Pending>,
    pub pending_bottom: bool,
    /// Rows the source pane was showing when captured. The bottom-most
    /// view keeps exactly this many tail rows on screen, so opening the
    /// overlay does not move the content (None: fill the view).
    pub screen_rows: Option<usize>,
}

// ------------------------------------------------------------------ views

/// The mode as plain values; a prompt's input is its (text, cursor).
pub enum ModeV {
    Normal,
    Prompt { direction: Direction, input: (Seq<char>, int), origin: Pos, origin_top: usize },
    PatternMenu,
}

pub open spec fn mode_v(m: Mode) -> ModeV {
    match m {
        Mode::Normal => ModeV::Normal,
        Mode::Prompt { direction, input, origin, origin_top } => ModeV::Prompt {
            direction,
            input: input.state(),
            origin,
            origin_top,
        },
        Mode::PatternMenu => ModeV::PatternMenu,
    }
}

/// The app as plain values.
pub struct AppV {
    pub buf: Buffer,
    pub cursor: Pos,
    pub top: usize,
    pub hoff: usize,
    pub view_rows: usize,
    pub view_cols: usize,
    pub search: SearchV,
    pub patterns: Seq<DefV>,
    pub theme: Theme,
    pub mode: ModeV,
    pub sel: Option<(SelKind, Pos)>,
    pub message: Option<Seq<char>>,
    pub quit: bool,
    pub want_col: usize,
    pub drag_origin: Option<Pos>,
    pub clicks: ((u16, u16), u8, u64),
    pub mouse_sel: bool,
    pub saved_pattern: Seq<char>,
    pub pending: Option<Pending>,
    pub pending_bottom: bool,
    pub screen_rows: Option<usize>,
}

pub open spec fn opt_str(m: Option<String>) -> Option<Seq<char>> {
    match m {
        Some(s) => Some(s@),
        None => None,
    }
}

impl View for App {
    type V = AppV;

    open spec fn view(&self) -> AppV {
        AppV {
            buf: self.buf,
            cursor: self.cursor,
            top: self.top,
            hoff: self.hoff,
            view_rows: self.view_rows,
            view_cols: self.view_cols,
            search: self.search@,
            patterns: self.patterns@,
            theme: self.theme,
            mode: mode_v(self.mode),
            sel: self.sel,
            message: opt_str(self.message),
            quit: self.quit,
            want_col: self.want_col,
            drag_origin: self.drag_origin,
            clicks: self.clicks.run(),
            mouse_sel: self.mouse_sel,
            saved_pattern: self.saved_pattern@,
            pending: self.pending,
            pending_bottom: self.pending_bottom,
            screen_rows: self.screen_rows,
        }
    }
}

pub open spec fn effect_v(e: Option<Effect>) -> Option<Seq<char>> {
    match e {
        Some(Effect::Copy(s)) => Some(s@),
        None => None,
    }
}

// -------------------------------------------------------------- invariant

/// A buffer the view can address: at least one row, and row and text
/// sizes that leave room for cell arithmetic.
pub open spec fn buf_ok(b: Buffer) -> bool {
    &&& b.wf()
    &&& b.lines@.len() <= usize::MAX / 4
    &&& forall|r: int| 0 <= r < b.lines@.len() ==> row_len_ok(#[trigger] b.row(r))
}

/// A cursor position: on a row of the buffer, on a char of it (or col 0
/// of an empty row).
pub open spec fn valid_pos(b: Buffer, p: Pos) -> bool {
    p.row < b.lines@.len() && p.col <= b.spec_max_col(p.row as int)
}

pub open spec fn mode_ok(b: Buffer, m: Mode) -> bool {
    match m {
        Mode::Prompt { input, origin, origin_top, .. } => input.wf() && valid_pos(b, origin)
            && origin_top < b.lines@.len(),
        _ => true,
    }
}

/// The most a view dimension may be.
pub open spec fn dim_max() -> int {
    (usize::MAX / 8) as int
}

impl App {
    pub open spec fn wf(&self) -> bool {
        &&& buf_ok(self.buf)
        &&& valid_pos(self.buf, self.cursor)
        &&& 1 <= self.view_rows <= dim_max()
        &&& 1 <= self.view_cols <= dim_max()
        &&& self.top < self.buf.lines@.len()
        &&& self.hoff <= 3 * (usize::MAX / 4) + 2
        &&& match self.sel {
            Some((_, p)) => valid_pos(self.buf, p),
            None => true,
        }
        &&& match self.drag_origin {
            Some(p) => valid_pos(self.buf, p),
            None => true,
        }
        &&& matches_within(self.search.matches@, self.buf.lines@.len())
        &&& (self.search.current matches Some(i) ==> i < self.search.matches@.len())
        &&& mode_ok(self.buf, self.mode)
    }
}

// ---------------------------------------------------------------- viewport

/// Rows of content: the bottom row is the persistent mode row.
pub open spec fn content_rows(view_rows: usize) -> int {
    if view_rows >= 2 {
        view_rows - 1
    } else {
        1
    }
}

/// Top row of the bottom-most view, anchored to the rows the source
/// pane was showing.
pub open spec fn spec_max_top(a: AppV) -> int {
    let sr: int = match a.screen_rows {
        Some(n) => n as int,
        None => usize::MAX as int,
    };
    let anchor0 = min_int(sr, content_rows(a.view_rows));
    let anchor = if anchor0 < 1 {
        1
    } else {
        anchor0
    };
    let last = a.buf.lines@.len() - 1;
    if last >= anchor - 1 {
        last - (anchor - 1)
    } else {
        0
    }
}

/// Vertical follow: the top row after bringing row `row` into a view of
/// `rows` rows, capped at `max_top`.
pub open spec fn follow_top(top: int, row: int, rows: int, max_top: int) -> int {
    let t1 = if row < top {
        row
    } else {
        top
    };
    let t2 = if row >= t1 + rows {
        row + 1 - rows
    } else {
        t1
    };
    if t2 > max_top {
        max_top
    } else {
        t2
    }
}

/// Horizontal follow in display cells: the offset that keeps the cell
/// range `[x, x + cw)` inside `[hoff, hoff + cols)`.
pub open spec fn follow_hoff(hoff: int, x: int, cw: int, cols: int) -> int {
    let h1 = if x < hoff {
        x
    } else {
        hoff
    };
    if x + cw > h1 + cols {
        x + cw - cols
    } else {
        h1
    }
}

/// Display cell where the cursor starts, and how many cells it covers.
pub open spec fn cursor_x(a: AppV) -> int {
    width_sum(a.buf.row(a.cursor.row as int), a.cursor.col as int) as int
}

pub open spec fn cursor_cw(a: AppV) -> int {
    let line = a.buf.row(a.cursor.row as int);
    if a.cursor.col < line.len() {
        cells(line[a.cursor.col as int]) as int
    } else {
        1
    }
}

pub open spec fn with_hfollow(a: AppV) -> AppV {
    AppV { hoff: follow_hoff(a.hoff as int, cursor_x(a), cursor_cw(a), a.view_cols as int) as usize, ..a }
}

/// The view after following the cursor vertically and horizontally.
pub open spec fn with_visible(a: AppV) -> AppV {
    let top = follow_top(
        a.top as int,
        a.cursor.row as int,
        content_rows(a.view_rows),
        spec_max_top(a),
    );
    with_hfollow(AppV { top: top as usize, ..a })
}

pub open spec fn mode_with_origin_top(m: ModeV, t: usize) -> ModeV {
    match m {
        ModeV::Prompt { direction, input, origin, .. } => ModeV::Prompt {
            direction,
            input,
            origin,
            origin_top: t,
        },
        other => other,
    }
}

pub open spec fn spec_set_size(a: AppV, cols: usize, rows: usize) -> AppV {
    let a1 = AppV {
        view_cols: if cols < 1 {
            1
        } else {
            cols
        },
        view_rows: if rows < 1 {
            1
        } else {
            rows
        },
        ..a
    };
    let a2 = if a.pending_bottom {
        let t = spec_max_top(a1) as usize;
        AppV { pending_bottom: false, top: t, mode: mode_with_origin_top(a1.mode, t), ..a1 }
    } else {
        a1
    };
    with_visible(a2)
}

pub open spec fn clamp_int(v: int, lo: int, hi: int) -> int {
    if v < lo {
        lo
    } else if v > hi {
        hi
    } else {
        v
    }
}

/// The cursor col on `row` for a remembered column.
pub open spec fn col_for(a: AppV, row: int) -> int {
    min_int(a.want_col as int, a.buf.spec_max_col(row))
}

/// Wheel scrolling moves the view and drags the cursor along.
pub open spec fn spec_scroll(a: AppV, delta: int) -> AppV {
    let top = clamp_int(a.top + delta, 0, spec_max_top(a));
    let high = top + content_rows(a.view_rows) - 1;
    let row = clamp_int(a.cursor.row as int, top, min_int(high, a.buf.lines@.len() - 1));
    with_hfollow(AppV { top: top as usize, cursor: Pos { row: row as usize, col: col_for(a, row) as usize }, ..a })
}

pub open spec fn spec_move_vertical(a: AppV, delta: int) -> AppV {
    let row = clamp_int(a.cursor.row + delta, 0, a.buf.lines@.len() - 1);
    with_visible(AppV { cursor: Pos { row: row as usize, col: col_for(a, row) as usize }, ..a })
}

pub open spec fn spec_goto(a: AppV, p: Pos) -> AppV {
    let c = a.buf.spec_clamp(p);
    with_visible(AppV { cursor: c, want_col: c.col, ..a })
}

impl App {
    /// Rows of content (the bottom row is the mode row).
    fn content_rows(&self) -> (n: usize)
        requires
            1 <= self.view_rows,
        ensures
            n == content_rows(self.view_rows),
            1 <= n <= self.view_rows,
    {
        if self.view_rows >= 2 {
            self.view_rows - 1
        } else {
            1
        }
    }

    fn max_top(&self) -> (t: usize)
        requires
            self.buf.wf(),
            1 <= self.view_rows,
        ensures
            t == spec_max_top(self@),
            t < self.buf.lines@.len(),
    {
        let rows = self.content_rows();
        let sr = match self.screen_rows {
            Some(n) => n,
            None => usize::MAX,
        };
        let anchor0 = if sr < rows {
            sr
        } else {
            rows
        };
        let anchor = if anchor0 < 1 {
            1
        } else {
            anchor0
        };
        let last = self.buf.last_row();
        if last >= anchor - 1 {
            last - (anchor - 1)
        } else {
            0
        }
    }

    /// Horizontal follow in display cells: the cursor's whole cell range
    /// stays inside [hoff, hoff + view_cols) whenever it fits there.
    fn ensure_visible_h(&mut self)
        requires
            old(self).wf(),
        ensures
            final(self).wf(),
            final(self)@ == with_hfollow(old(self)@),
            cursor_cw(old(self)@) <= old(self).view_cols ==> final(self).hoff <= cursor_x(old(self)@)
                && cursor_x(old(self)@) + cursor_cw(old(self)@) <= final(self).hoff + final(self).view_cols,
    {
        let line = self.buf.line(self.cursor.row);
        assert(row_len_ok(self.buf.row(self.cursor.row as int)));
        let x = line.width_before(self.cursor.col);
        let cw = line.cell_width(self.cursor.col);
        if x < self.hoff {
            self.hoff = x;
        }
        if x + cw > self.hoff + self.view_cols {
            self.hoff = x + cw - self.view_cols;
        }
    }

    fn ensure_visible(&mut self)
        requires
            old(self).wf(),
        ensures
            final(self).wf(),
            final(self)@ == with_visible(old(self)@),
            final(self).top <= final(self).cursor.row < final(self).top + content_rows(
                final(self).view_rows,
            ),
    {
        let rows = self.content_rows();
        let mt = self.max_top();
        if self.cursor.row < self.top {
            self.top = self.cursor.row;
        }
        if self.cursor.row >= self.top + rows {
            self.top = self.cursor.row + 1 - rows;
        }
        if self.top > mt {
            self.top = mt;
        }
        self.ensure_visible_h();
    }

    /// Called by the UI before each draw with the terminal size.
    pub fn set_size(&mut self, cols: usize, rows: usize)
        requires
            old(self).wf(),
            cols <= dim_max(),
            rows <= dim_max(),
        ensures
            final(self).wf(),
            final(self)@ == spec_set_size(old(self)@, cols, rows),
    {
        self.view_cols = if cols < 1 {
            1
        } else {
            cols
        };
        self.view_rows = if rows < 1 {
            1
        } else {
            rows
        };
        if self.pending_bottom {
            self.pending_bottom = false;
            self.top = self.max_top();
            let t = self.top;
            match &mut self.mode {
                Mode::Prompt { origin_top, .. } => {
                    *origin_top = t;
                },
                _ => {},
            }
        }
        self.ensure_visible();
    }

    /// Wheel scrolling moves the view and drags the cursor along.
    fn scroll(&mut self, delta: isize)
        requires
            old(self).wf(),
            -3 <= delta <= 3,
        ensures
            final(self).wf(),
            final(self)@ == spec_scroll(old(self)@, delta as int),
    {
        let mt = self.max_top();
        let t: isize = self.top as isize + delta;
        self.top = if t < 0 {
            0
        } else if t > mt as isize {
            mt
        } else {
            t as usize
        };
        let low = self.top;
        let high = self.top + self.content_rows() - 1;
        let lr = self.buf.last_row();
        let hi = if high < lr {
            high
        } else {
            lr
        };
        let row = if self.cursor.row < low {
            low
        } else if self.cursor.row > hi {
            hi
        } else {
            self.cursor.row
        };
        let mc = self.buf.max_col(row);
        self.cursor = Pos { row, col: if self.want_col < mc {
            self.want_col
        } else {
            mc
        } };
        self.ensure_visible_h();
    }

    fn move_vertical(&mut self, delta: isize)
        requires
            old(self).wf(),
            -dim_max() <= delta <= dim_max(),
        ensures
            final(self).wf(),
            final(self)@ == spec_move_vertical(old(self)@, delta as int),
    {
        let lr = self.buf.last_row();
        let r: isize = self.cursor.row as isize + delta;
        let row: usize = if r < 0 {
            0
        } else if r > lr as isize {
            lr
        } else {
            r as usize
        };
        let mc = self.buf.max_col(row);
        self.cursor = Pos { row, col: if self.want_col < mc {
            self.want_col
        } else {
            mc
        } };
        self.ensure_visible();
    }

    fn goto(&mut self, p: Pos)
        requires
            old(self).wf(),
        ensures
            final(self).wf(),
            final(self)@ == spec_goto(old(self)@, p),
    {
        self.cursor = self.buf.clamp(p);
        self.want_col = self.cursor.col;
        self.ensure_visible();
    }
}

/// Whether a buffer meets what the app needs of it (see `buf_ok`).
pub fn buffer_fits(b: &Buffer) -> (ok: bool)
    ensures
        ok == buf_ok(*b),
{
    if b.lines.len() == 0 || b.lines.len() > usize::MAX / 4 {
        return false;
    }
    let mut r: usize = 0;
    while r < b.lines.len()
        invariant
            r <= b.lines@.len(),
            forall|k: int| 0 <= k < r ==> row_len_ok(#[trigger] b.row(k)),
        decreases b.lines@.len() - r,
    {
        if b.lines[r].chars.len() > usize::MAX / 4 {
            assert(!row_len_ok(b.row(r as int)));
            return false;
        }
        r = r + 1;
    }
    true
}

pub open spec fn spec_new(buf: Buffer, start_search: bool, screen_rows: Option<usize>, clicks: (
    (u16, u16),
    u8,
    u64,
)) -> AppV {
    let cursor = Pos { row: (buf.lines@.len() - 1) as usize, col: 0 };
    AppV {
        buf,
        cursor,
        top: 0,
        hoff: 0,
        view_rows: 1,
        view_cols: 80,
        search: SearchV {
            pattern: seq![],
            direction: None,
            matches: seq![],
            current: None,
            smartcase: true,
        },
        patterns: spec_default_patterns(),
        theme: default_theme(),
        mode: if start_search {
            ModeV::Prompt {
                direction: Direction::Forward,
                input: (seq![], 0),
                origin: cursor,
                origin_top: 0,
            }
        } else {
            ModeV::Normal
        },
        sel: None,
        message: None,
        quit: false,
        want_col: 0,
        drag_origin: None,
        clicks,
        mouse_sel: false,
        saved_pattern: seq![],
        pending: None,
        pending_bottom: true,
        screen_rows,
    }
}

impl App {
    pub fn new(buf: Buffer, start_search: bool, screen_rows: Option<usize>) -> (a: Self)
        requires
            buf_ok(buf),
        ensures
            a.wf(),
            a@ == spec_new(buf, start_search, screen_rows, ((0u16, 0u16), 0u8, 0u64)),
    {
        let cursor = Pos { row: buf.last_row(), col: 0 };
        let mode = if start_search {
            Mode::Prompt {
                direction: Direction::Forward,
                input: LineEdit::default(),
                origin: cursor,
                origin_top: 0,
            }
        } else {
            Mode::Normal
        };
        let a = App {
            buf,
            cursor,
            top: 0,
            hoff: 0,
            view_rows: 1,
            view_cols: 80,
            search: Search::default(),
            patterns: Patterns::default(),
            theme: Theme::default(),
            mode,
            sel: None,
            message: None,
            quit: false,
            want_col: 0,
            drag_origin: None,
            clicks: ClickTracker::default(),
            mouse_sel: false,
            saved_pattern: String::new(),
            pending: None,
            pending_bottom: true,
            screen_rows,
        };
        assert(a@.search == spec_new(a.buf, start_search, screen_rows, ((0u16, 0u16), 0u8, 0u64)).search);
        a
    }

    /// Replace the active pattern set (copycat defaults + user config).
    pub fn set_patterns(&mut self, patterns: Patterns)
        requires
            old(self).wf(),
        ensures
            final(self).wf(),
            final(self)@ == (AppV { patterns: patterns@, ..old(self)@ }),
    {
        self.patterns = patterns;
    }

    /// Replace the active color theme (defaults + user config).
    pub fn set_theme(&mut self, theme: Theme)
        requires
            old(self).wf(),
        ensures
            final(self).wf(),
            final(self)@ == (AppV { theme, ..old(self)@ }),
    {
        self.theme = theme;
    }
}


// -------------------------------------------------------------- messages

pub open spec fn copied_msg(n: nat) -> Seq<char> {
    "copied "@ + spec_decimal(n) + " chars"@
}

pub open spec fn no_match_msg(what: Seq<char>) -> Seq<char> {
    "no match: "@ + what
}

pub open spec fn found_msg(name: Seq<char>, n: nat) -> Seq<char> {
    name + ": "@ + spec_decimal(n) + " matches"@
}

fn copied_message(text: &str) -> (m: String)
    ensures
        m@ == copied_msg(text@.len()),
{
    let n = chars_of(text).len();
    let mut out: Vec<char> = Vec::new();
    push_str(&mut out, "copied ");
    push_decimal(&mut out, n);
    push_str(&mut out, " chars");
    string_of(out.as_slice())
}

/// Note on the mode row that a copy of `text` went out but is large
/// enough that the terminal may truncate it.
pub open spec fn large_copy_msg(n: nat) -> Seq<char> {
    copied_msg(n) + " (large; terminal may truncate)"@
}

impl App {
    pub fn note_large_copy(&mut self, text: &str)
        requires
            old(self).wf(),
        ensures
            final(self).wf(),
            final(self)@ == (AppV { message: Some(large_copy_msg(text@.len())), ..old(self)@ }),
    {
        let mut out: Vec<char> = chars_of(copied_message(text).as_str());
        push_str(&mut out, " (large; terminal may truncate)");
        self.message = Some(string_of(out.as_slice()));
    }
}

fn no_match_message(what: &str) -> (m: String)
    ensures
        m@ == no_match_msg(what@),
{
    let mut out: Vec<char> = Vec::new();
    push_str(&mut out, "no match: ");
    push_str(&mut out, what);
    string_of(out.as_slice())
}

fn found_message(name: &str, n: usize) -> (m: String)
    ensures
        m@ == found_msg(name@, n as nat),
{
    let mut out: Vec<char> = Vec::new();
    push_str(&mut out, name);
    push_str(&mut out, ": ");
    push_decimal(&mut out, n);
    push_str(&mut out, " matches");
    string_of(out.as_slice())
}

// ------------------------------------------------------------- selection

pub open spec fn spec_selection_text(a: AppV) -> Option<Seq<char>> {
    match a.sel {
        None => None,
        Some((SelKind::Char, anchor)) => Some(a.buf.spec_slice(anchor, a.cursor)),
        Some((SelKind::Line, anchor)) => Some(
            a.buf.spec_slice_lines(anchor.row as int, a.cursor.row as int),
        ),
    }
}

/// Inclusive selected col range of `row`, if the selection covers it.
pub open spec fn spec_sel_range(a: AppV, row: usize) -> Option<(usize, usize)> {
    match a.sel {
        None => None,
        Some((kind, anchor)) => {
            let p = if crate::buffer::pos_le(anchor, a.cursor) {
                anchor
            } else {
                a.cursor
            };
            let q = if crate::buffer::pos_le(anchor, a.cursor) {
                a.cursor
            } else {
                anchor
            };
            if row < p.row || row > q.row {
                None
            } else {
                match kind {
                    SelKind::Line => Some((0, usize::MAX)),
                    SelKind::Char => Some(
                        (
                            if row == p.row {
                                p.col
                            } else {
                                0
                            },
                            if row == q.row {
                                q.col
                            } else {
                                usize::MAX
                            },
                        ),
                    ),
                }
            }
        },
    }
}

/// What `y` copies: the selection, else the match under the cursor.
pub open spec fn spec_yank_text(a: AppV) -> Option<Seq<char>> {
    match spec_selection_text(a) {
        Some(t) => Some(t),
        None => match crate::search::spec_match_at(a.search.matches, a.cursor) {
            Some(m) => Some(a.buf.spec_slice(m.start, m.end)),
            None => None,
        },
    }
}

/// Copy and exit (`exit`), or copy, report and drop the selection.
pub open spec fn spec_yank(a: AppV, exit: bool) -> (AppV, Option<Seq<char>>) {
    match spec_yank_text(a) {
        None => (a, None),
        Some(t) => (
            if exit {
                AppV { quit: true, ..a }
            } else {
                AppV { message: Some(copied_msg(t.len())), sel: None, ..a }
            },
            Some(t),
        ),
    }
}

/// Copy for a finished mouse gesture: the selection only, kept shown.
pub open spec fn spec_yank_keep(a: AppV) -> (AppV, Option<Seq<char>>) {
    match spec_selection_text(a) {
        None => (a, None),
        Some(t) => (AppV { message: Some(copied_msg(t.len())), ..a }, Some(t)),
    }
}

impl App {
    pub fn selection_text(&self) -> (t: Option<String>)
        requires
            self.wf(),
        ensures
            opt_str(t) == spec_selection_text(self@),
    {
        match self.sel {
            None => None,
            Some((SelKind::Char, anchor)) => Some(self.buf.slice_inclusive(anchor, self.cursor)),
            Some((SelKind::Line, anchor)) => Some(self.buf.slice_lines(anchor.row, self.cursor.row)),
        }
    }

    /// Inclusive selected col range for a row, if the selection covers it.
    pub fn sel_range(&self, row: usize) -> (r: Option<(usize, usize)>)
        ensures
            r == spec_sel_range(self@, row),
    {
        let (kind, anchor) = match self.sel {
            None => {
                return None;
            },
            Some(x) => x,
        };
        let (a, b) = if pos_leq(anchor, self.cursor) {
            (anchor, self.cursor)
        } else {
            (self.cursor, anchor)
        };
        if row < a.row || row > b.row {
            return None;
        }
        match kind {
            SelKind::Line => Some((0, usize::MAX)),
            SelKind::Char => {
                let s = if row == a.row {
                    a.col
                } else {
                    0
                };
                let e = if row == b.row {
                    b.col
                } else {
                    usize::MAX
                };
                Some((s, e))
            },
        }
    }

    fn yank_text(&self) -> (t: Option<String>)
        requires
            self.wf(),
        ensures
            opt_str(t) == spec_yank_text(self@),
    {
        match self.selection_text() {
            Some(t) => Some(t),
            None => match self.search.match_at(self.cursor) {
                Some(m) => {
                    proof {
                        let ms = self.search.matches@;
                        let k = choose|k: int|
                            0 <= k < ms.len() && ms[k].spec_covers(self.cursor) && forall|j: int|
                                0 <= j < k ==> !(#[trigger] ms[j]).spec_covers(self.cursor);
                        assert(ms[k] == m);
                    }
                    Some(self.buf.slice_inclusive(m.start, m.end))
                },
                None => None,
            },
        }
    }

    fn yank(&mut self, exit: bool) -> (e: Option<Effect>)
        requires
            old(self).wf(),
        ensures
            final(self).wf(),
            (final(self)@, effect_v(e)) == spec_yank(old(self)@, exit),
    {
        let text = match self.yank_text() {
            Some(t) => t,
            None => {
                return None;
            },
        };
        if exit {
            self.quit = true;
        } else {
            self.message = Some(copied_message(text.as_str()));
            self.sel = None;
        }
        Some(Effect::Copy(text))
    }

    /// Copy path for a finished mouse gesture: reports the same "copied
    /// N chars" as `y` but leaves the selection highlighted. None without
    /// a selection: there is no match-under-cursor fallback here.
    fn yank_keeping_selection(&mut self) -> (e: Option<Effect>)
        requires
            old(self).wf(),
        ensures
            final(self).wf(),
            (final(self)@, effect_v(e)) == spec_yank_keep(old(self)@),
    {
        let text = match self.selection_text() {
            Some(t) => t,
            None => {
                return None;
            },
        };
        self.message = Some(copied_message(text.as_str()));
        Some(Effect::Copy(text))
    }
}

// ---------------------------------------------------------------- search

/// n / N: continue the search along (or against) its direction.
pub open spec fn spec_jump(a: AppV, forward: bool) -> AppV {
    if a.search.pattern.len() == 0 {
        AppV { message: Some("no previous search"@), ..a }
    } else {
        match a.search.direction {
            None => AppV { message: Some(no_match_msg(a.search.pattern)), ..a },
            Some(d) => {
                let dir = if forward {
                    d
                } else {
                    spec_flipped(d)
                };
                let (s2, r) = spec_seek(a.search, a.cursor, dir, false);
                let a2 = AppV { search: s2, ..a };
                match r {
                    Some(m) => spec_goto(a2, m.start),
                    None => AppV { message: Some(no_match_msg(a.search.pattern)), ..a2 },
                }
            },
        }
    }
}

pub open spec fn spec_open_prompt(a: AppV, dir: Direction) -> AppV {
    AppV {
        saved_pattern: a.search.pattern,
        mode: ModeV::Prompt { direction: dir, input: (seq![], 0), origin: a.cursor, origin_top: a.top },
        ..a
    }
}

/// Search as the query is typed: run it and move to the nearest match
/// from the prompt's origin (inclusive), or back to the origin.
pub open spec fn spec_incremental(
    a: AppV,
    input: Seq<char>,
    dir: Direction,
    origin: Pos,
    origin_top: usize,
) -> AppV {
    let a1 = AppV { search: spec_run(a.search, a.buf, input, dir), ..a };
    if input.len() == 0 {
        AppV { cursor: origin, top: origin_top, ..a1 }
    } else {
        let (s2, r) = spec_seek(a1.search, origin, dir, true);
        let a2 = AppV { search: s2, ..a1 };
        match r {
            Some(m) => spec_goto(a2, m.start),
            None => AppV { cursor: origin, top: origin_top, ..a2 },
        }
    }
}

/// A predefined search, copycat style: backward from the cursor so `n`
/// walks up through older output and `N` back down.
pub open spec fn spec_activate(a: AppV, d: DefV) -> AppV {
    let a1 = AppV { search: spec_run(a.search, a.buf, d.2, Direction::Backward), ..a };
    let n = a1.search.matches.len();
    if n == 0 {
        AppV { message: Some(no_match_msg(d.1)), ..a1 }
    } else {
        let (s2, r) = spec_seek(a1.search, a1.cursor, Direction::Backward, true);
        let a2 = AppV { search: s2, ..a1 };
        let a3 = match r {
            Some(m) => spec_goto(a2, m.start),
            None => a2,
        };
        AppV { message: Some(found_msg(d.1, n)), ..a3 }
    }
}

pub open spec fn spec_menu(a: AppV, key: Key) -> AppV {
    match key.code {
        Code::Char(c) => if c == 'c' && key.mods.ctrl {
            AppV { quit: true, ..a }
        } else {
            let a1 = AppV { mode: ModeV::Normal, ..a };
            match key_pos(a.patterns, c) {
                Some(i) => spec_activate(a1, a.patterns[i]),
                None => AppV { message: Some("no pattern: "@ + seq![c]), ..a1 },
            }
        },
        Code::Esc => AppV { mode: ModeV::Normal, ..a },
        _ => a,
    }
}

/// The word/WORD text object around the cursor as a charwise selection.
pub open spec fn spec_text_object(a: AppV, around: bool, big: bool) -> AppV {
    let (s, e) = motion::spec_word_object(a.buf, a.cursor, around, big);
    with_visible(AppV { sel: Some((SelKind::Char, s)), cursor: e, want_col: e.col, ..a })
}

impl App {
    fn jump_match(&mut self, forward: bool)
        requires
            old(self).wf(),
        ensures
            final(self).wf(),
            final(self)@ == spec_jump(old(self)@, forward),
    {
        if self.search.pattern.as_str().is_empty() {
            self.message = Some("no previous search".to_owned());
            return;
        }
        let m = if forward {
            self.search.next(self.cursor)
        } else {
            self.search.prev(self.cursor)
        };
        match m {
            Some(m) => self.goto(m.start),
            None => self.message = Some(no_match_message(self.search.pattern.as_str())),
        }
    }

    fn open_prompt(&mut self, direction: Direction)
        requires
            old(self).wf(),
        ensures
            final(self).wf(),
            final(self)@ == spec_open_prompt(old(self)@, direction),
    {
        self.saved_pattern = self.search.pattern.clone();
        self.mode = Mode::Prompt {
            direction,
            input: LineEdit::default(),
            origin: self.cursor,
            origin_top: self.top,
        };
    }

    fn incremental(&mut self, input: &str, dir: Direction, origin: Pos, origin_top: usize)
        requires
            old(self).wf(),
            valid_pos(old(self).buf, origin),
            origin_top < old(self).buf.lines@.len(),
        ensures
            final(self).wf(),
            final(self)@ == spec_incremental(old(self)@, input@, dir, origin, origin_top),
    {
        self.search.run(&self.buf, input, dir);
        if input.is_empty() {
            self.cursor = origin;
            self.top = origin_top;
            return;
        }
        match self.search.seek(origin, dir, true) {
            Some(m) => self.goto(m.start),
            None => {
                self.cursor = origin;
                self.top = origin_top;
            },
        }
    }

    fn activate_pattern(&mut self, def: &PatternDef)
        requires
            old(self).wf(),
        ensures
            final(self).wf(),
            final(self)@ == spec_activate(old(self)@, def@),
    {
        self.search.run(&self.buf, def.regex.as_str(), Direction::Backward);
        let n = self.search.matches.len();
        if n == 0 {
            self.message = Some(no_match_message(def.name.as_str()));
            return;
        }
        match self.search.seek(self.cursor, Direction::Backward, true) {
            Some(m) => self.goto(m.start),
            None => {},
        }
        self.message = Some(found_message(def.name.as_str(), n));
    }

    fn handle_pattern_menu(&mut self, key: Key)
        requires
            old(self).wf(),
        ensures
            final(self).wf(),
            final(self)@ == spec_menu(old(self)@, key),
    {
        match key.code {
            Code::Char(c) => {
                if c == 'c' && key.mods.ctrl {
                    self.quit = true;
                    return;
                }
                self.mode = Mode::Normal;
                match self.patterns.by_key(c) {
                    Some(def) => {
                        let def = PatternDef {
                            key: def.key,
                            name: def.name.clone(),
                            regex: def.regex.clone(),
                        };
                        self.activate_pattern(&def);
                        assert(self@ == spec_menu(old(self)@, key));
                    },
                    None => {
                        let mut out: Vec<char> = Vec::new();
                        push_str(&mut out, "no pattern: ");
                        out.push(c);
                        assert(out@ == "no pattern: "@ + seq![c]);
                        self.message = Some(string_of(out.as_slice()));
                        assert(self@ == spec_menu(old(self)@, key));
                    },
                }
            },
            Code::Esc => self.mode = Mode::Normal,
            _ => {},
        }
    }

    /// Select the word/WORD text object around the cursor as a charwise
    /// selection. `around` = aw/aW (includes adjacent whitespace).
    fn apply_text_object(&mut self, around: bool, big: bool)
        requires
            old(self).wf(),
        ensures
            final(self).wf(),
            final(self)@ == spec_text_object(old(self)@, around, big),
    {
        let (start, end) = motion::word_object(&self.buf, self.cursor, around, big);
        self.sel = Some((SelKind::Char, start));
        self.cursor = end;
        self.want_col = end.col;
        self.ensure_visible();
    }
}


// ------------------------------------------------------------------ keys

pub open spec fn toggled(sel: Option<(SelKind, Pos)>, kind: SelKind, at: Pos) -> Option<(SelKind, Pos)> {
    match sel {
        Some((k, _)) => if k == kind {
            None
        } else {
            Some((kind, at))
        },
        None => Some((kind, at)),
    }
}

/// S: flip smartcase and rerun the current query under it.
pub open spec fn spec_toggle_smartcase(a: AppV) -> AppV {
    let sm = !a.search.smartcase;
    let s1 = SearchV { smartcase: sm, ..a.search };
    let dir = match a.search.direction {
        Some(d) => d,
        None => Direction::Forward,
    };
    let s2 = if a.search.pattern.len() > 0 {
        spec_run(s1, a.buf, a.search.pattern, dir)
    } else {
        s1
    };
    AppV {
        search: s2,
        message: Some(
            if sm {
                "smartcase: on"@
            } else {
                "smartcase: off"@
            },
        ),
        ..a
    }
}

pub open spec fn row_goto(a: AppV, col: int) -> AppV {
    spec_goto(a, Pos { row: a.cursor.row, col: col as usize })
}

/// $: the last char of the row, remembered as "end of line".
pub open spec fn spec_line_end(a: AppV) -> AppV {
    AppV { want_col: usize::MAX, ..row_goto(a, a.buf.spec_max_col(a.cursor.row as int)) }
}

/// A plain character key in Normal mode.
pub open spec fn spec_char_key(a: AppV, c: char, ctrl: bool, half: int, page: int) -> (AppV, Option<Seq<char>>) {
    if c == 'y' && !ctrl {
        spec_yank(a, false)
    } else {
        (
            if c == 'i' && !ctrl {
                AppV { pending: Some(Pending::TextObject { around: false }), ..a }
            } else if c == 'a' && !ctrl {
                AppV { pending: Some(Pending::TextObject { around: true }), ..a }
            } else if c == 'p' && !ctrl {
                AppV { mode: ModeV::PatternMenu, ..a }
            } else if (c == 'q' && !ctrl) || (c == 'c' && ctrl) {
                AppV { quit: true, ..a }
            } else if c == 'v' && !ctrl {
                AppV { sel: toggled(a.sel, SelKind::Char, a.cursor), ..a }
            } else if c == 'V' {
                AppV { sel: toggled(a.sel, SelKind::Line, a.cursor), ..a }
            } else if c == '/' {
                spec_open_prompt(a, Direction::Forward)
            } else if c == '?' {
                spec_open_prompt(a, Direction::Backward)
            } else if c == 'n' {
                spec_jump(a, true)
            } else if c == 'N' {
                spec_jump(a, false)
            } else if c == 'S' {
                spec_toggle_smartcase(a)
            } else if c == 'h' {
                row_goto(a, if a.cursor.col > 0 { a.cursor.col - 1 } else { 0 })
            } else if c == 'l' {
                row_goto(a, a.cursor.col + 1)
            } else if c == 'j' {
                spec_move_vertical(a, 1)
            } else if c == 'k' {
                spec_move_vertical(a, -1)
            } else if c == '0' {
                row_goto(a, 0)
            } else if c == '^' {
                row_goto(a, crate::buffer::non_blank_from(a.buf.row(a.cursor.row as int), 0))
            } else if c == '$' {
                spec_line_end(a)
            } else if c == 'w' && !ctrl {
                spec_goto(a, motion::spec_word_forward(a.buf, a.cursor))
            } else if c == 'b' && !ctrl {
                spec_goto(a, motion::spec_word_backward(a.buf, a.cursor))
            } else if c == 'e' && !ctrl {
                spec_goto(a, motion::spec_word_end(a.buf, a.cursor))
            } else if c == '{' {
                spec_goto(
                    a,
                    Pos {
                        row: motion::skip_rows_back(
                            a.buf.lines@,
                            motion::skip_rows_back(a.buf.lines@, a.cursor.row as int, true),
                            false,
                        ) as usize,
                        col: 0,
                    },
                )
            } else if c == '}' {
                spec_goto(
                    a,
                    Pos {
                        row: motion::skip_rows(
                            a.buf.lines@,
                            motion::skip_rows(a.buf.lines@, a.cursor.row as int, true),
                            false,
                        ) as usize,
                        col: 0,
                    },
                )
            } else if c == 'g' && !ctrl {
                spec_goto(a, Pos { row: 0, col: 0 })
            } else if c == 'G' {
                spec_goto(a, Pos { row: (a.buf.lines@.len() - 1) as usize, col: 0 })
            } else if c == 'f' && ctrl {
                spec_move_vertical(a, page)
            } else if c == 'b' && ctrl {
                spec_move_vertical(a, -page)
            } else if c == 'd' && ctrl {
                spec_move_vertical(a, half)
            } else if c == 'u' && ctrl {
                spec_move_vertical(a, -half)
            } else {
                a
            },
            None,
        )
    }
}

/// A key in Normal mode, vi style.
pub open spec fn spec_normal(a: AppV, key: Key) -> (AppV, Option<Seq<char>>) {
    let ctrl = key.mods.ctrl;
    let rows = content_rows(a.view_rows);
    let half = if rows / 2 < 1 {
        1
    } else {
        rows / 2
    };
    let page = rows;
    match a.pending {
        Some(Pending::TextObject { around }) => {
            let a1 = AppV { pending: None, ..a };
            (
                if key.code == Code::Char('w') {
                    spec_text_object(a1, around, false)
                } else if key.code == Code::Char('W') {
                    spec_text_object(a1, around, true)
                } else {
                    a1
                },
                None,
            )
        },
        None => match key.code {
            Code::Char(c) => if key.mods.alt {
                (
                    match key_pos(a.patterns, c) {
                        Some(i) => spec_activate(a, a.patterns[i]),
                        None => a,
                    },
                    None,
                )
            } else {
                spec_char_key(a, c, ctrl, half, page)
            },
            Code::Esc => (
                if a.sel is Some {
                    AppV { sel: None, ..a }
                } else {
                    AppV { quit: true, ..a }
                },
                None,
            ),
            Code::Enter => {
                let (b, e) = spec_yank(a, true);
                (
                    if e is None {
                        AppV { quit: true, ..b }
                    } else {
                        b
                    },
                    e,
                )
            },
            Code::Left => (row_goto(a, if a.cursor.col > 0 { a.cursor.col - 1 } else { 0 }), None),
            Code::Right => (row_goto(a, a.cursor.col + 1), None),
            Code::Down => (spec_move_vertical(a, 1), None),
            Code::Up => (spec_move_vertical(a, -1), None),
            Code::Home => (row_goto(a, 0), None),
            Code::End => (spec_line_end(a), None),
            Code::PageDown => (spec_move_vertical(a, page), None),
            Code::PageUp => (spec_move_vertical(a, -page), None),
            _ => (a, None),
        },
    }
}

/// A key at the search prompt.
pub open spec fn spec_prompt(a: AppV, key: Key) -> AppV {
    match a.mode {
        ModeV::Prompt { direction, input, origin, origin_top } => {
            let a0 = AppV { mode: ModeV::Normal, ..a };
            let back = match a.search.direction {
                Some(d) => d,
                None => direction,
            };
            let restore = AppV {
                cursor: origin,
                top: origin_top,
                search: spec_run(a.search, a.buf, a.saved_pattern, back),
                ..a0
            };
            if key.code == Code::Char('c') && key.mods.ctrl {
                AppV { quit: true, ..a0 }
            } else if key.code == Code::Esc {
                restore
            } else if key.code == Code::Enter {
                if input.0.len() == 0 {
                    if a.saved_pattern.len() == 0 {
                        a0
                    } else {
                        let a1 = AppV {
                            search: spec_run(a.search, a.buf, a.saved_pattern, direction),
                            ..a0
                        };
                        let (s2, r) = spec_seek(a1.search, origin, direction, false);
                        let a2 = AppV { search: s2, ..a1 };
                        match r {
                            Some(m) => spec_goto(a2, m.start),
                            None => AppV { message: Some(no_match_msg(a.saved_pattern)), ..a2 },
                        }
                    }
                } else if a.search.matches.len() == 0 {
                    AppV { message: Some(no_match_msg(input.0)), ..a0 }
                } else {
                    a0
                }
            } else if key.code == Code::Backspace && input.0.len() == 0 {
                restore
            } else {
                let (inp2, handled) = crate::lineedit::edit_key(input, key);
                let a1 = AppV {
                    mode: ModeV::Prompt { direction, input: inp2, origin, origin_top },
                    ..a
                };
                if handled {
                    spec_incremental(a1, inp2.0, direction, origin, origin_top)
                } else {
                    a1
                }
            }
        },
        _ => a,
    }
}

/// A key in any mode: the transient message clears first.
pub open spec fn spec_handle_key(a: AppV, key: Key) -> (AppV, Option<Seq<char>>) {
    let a0 = AppV { message: None, ..a };
    match a.mode {
        ModeV::Normal => spec_normal(a0, key),
        ModeV::Prompt { .. } => (spec_prompt(a0, key), None),
        ModeV::PatternMenu => (spec_menu(a0, key), None),
    }
}

impl App {
    fn toggle_smartcase(&mut self)
        requires
            old(self).wf(),
        ensures
            final(self).wf(),
            final(self)@ == spec_toggle_smartcase(old(self)@),
    {
        self.search.smartcase = !self.search.smartcase;
        let pattern = self.search.pattern.clone();
        let dir = match self.search.direction {
            Some(d) => d,
            None => Direction::Forward,
        };
        if !pattern.as_str().is_empty() {
            self.search.run(&self.buf, pattern.as_str(), dir);
        }
        self.message = Some(
            if self.search.smartcase {
                "smartcase: on".to_owned()
            } else {
                "smartcase: off".to_owned()
            },
        );
    }

    fn line_end(&mut self)
        requires
            old(self).wf(),
        ensures
            final(self).wf(),
            final(self)@ == spec_line_end(old(self)@),
    {
        let mc = self.buf.max_col(self.cursor.row);
        self.goto(Pos { row: self.cursor.row, col: mc });
        self.want_col = usize::MAX;
    }

    fn char_key(&mut self, c: char, ctrl: bool, half: isize, page: isize) -> (e: Option<Effect>)
        requires
            old(self).wf(),
            1 <= half <= page <= dim_max(),
        ensures
            final(self).wf(),
            (final(self)@, effect_v(e)) == spec_char_key(old(self)@, c, ctrl, half as int, page as int),
    {
        if c == 'y' && !ctrl {
            return self.yank(false);
        }
        if c == 'i' && !ctrl {
            self.pending = Some(Pending::TextObject { around: false });
        } else if c == 'a' && !ctrl {
            self.pending = Some(Pending::TextObject { around: true });
        } else if c == 'p' && !ctrl {
            self.mode = Mode::PatternMenu;
        } else if (c == 'q' && !ctrl) || (c == 'c' && ctrl) {
            self.quit = true;
        } else if c == 'v' && !ctrl {
            self.sel = match self.sel {
                Some((SelKind::Char, _)) => None,
                _ => Some((SelKind::Char, self.cursor)),
            };
        } else if c == 'V' {
            self.sel = match self.sel {
                Some((SelKind::Line, _)) => None,
                _ => Some((SelKind::Line, self.cursor)),
            };
        } else if c == '/' {
            self.open_prompt(Direction::Forward);
        } else if c == '?' {
            self.open_prompt(Direction::Backward);
        } else if c == 'n' {
            self.jump_match(true);
        } else if c == 'N' {
            self.jump_match(false);
        } else if c == 'S' {
            self.toggle_smartcase();
        } else if c == 'h' {
            let col = if self.cursor.col > 0 {
                self.cursor.col - 1
            } else {
                0
            };
            self.goto(Pos { row: self.cursor.row, col });
        } else if c == 'l' {
            self.goto(Pos { row: self.cursor.row, col: self.cursor.col + 1 });
        } else if c == 'j' {
            self.move_vertical(1);
        } else if c == 'k' {
            self.move_vertical(-1);
        } else if c == '0' {
            self.goto(Pos { row: self.cursor.row, col: 0 });
        } else if c == '^' {
            let col = self.buf.first_non_blank(self.cursor.row);
            self.goto(Pos { row: self.cursor.row, col });
        } else if c == '$' {
            self.line_end();
        } else if c == 'w' && !ctrl {
            let p = motion::word_forward(&self.buf, self.cursor);
            self.goto(p);
        } else if c == 'b' && !ctrl {
            let p = motion::word_backward(&self.buf, self.cursor);
            self.goto(p);
        } else if c == 'e' && !ctrl {
            let p = motion::word_end(&self.buf, self.cursor);
            self.goto(p);
        } else if c == '{' {
            let row = motion::para_backward(&self.buf, self.cursor.row);
            self.goto(Pos { row, col: 0 });
        } else if c == '}' {
            let row = motion::para_forward(&self.buf, self.cursor.row);
            self.goto(Pos { row, col: 0 });
        } else if c == 'g' && !ctrl {
            self.goto(Pos { row: 0, col: 0 });
        } else if c == 'G' {
            let row = self.buf.last_row();
            self.goto(Pos { row, col: 0 });
        } else if c == 'f' && ctrl {
            self.move_vertical(page);
        } else if c == 'b' && ctrl {
            self.move_vertical(-page);
        } else if c == 'd' && ctrl {
            self.move_vertical(half);
        } else if c == 'u' && ctrl {
            self.move_vertical(-half);
        }
        None
    }

    fn handle_normal(&mut self, key: Key) -> (e: Option<Effect>)
        requires
            old(self).wf(),
        ensures
            final(self).wf(),
            (final(self)@, effect_v(e)) == spec_normal(old(self)@, key),
    {
        let ctrl = key.mods.ctrl;
        let rows = self.content_rows();
        let half: isize = if rows / 2 < 1 {
            1
        } else {
            (rows / 2) as isize
        };
        let page: isize = rows as isize;
        // A pending `i`/`a` consumes the next key: `w`/`W` completes the
        // text object, anything else cancels it (vi-style).
        match self.pending {
            Some(Pending::TextObject { around }) => {
                self.pending = None;
                if key.code == Code::Char('w') {
                    self.apply_text_object(around, false);
                } else if key.code == Code::Char('W') {
                    self.apply_text_object(around, true);
                }
                return None;
            },
            None => {},
        }
        match key.code {
            Code::Char(c) => {
                if key.mods.alt {
                    match self.patterns.by_key(c) {
                        Some(def) => {
                            let def = PatternDef {
                                key: def.key,
                                name: def.name.clone(),
                                regex: def.regex.clone(),
                            };
                            self.activate_pattern(&def);
                        },
                        None => {},
                    }
                    return None;
                }
                self.char_key(c, ctrl, half, page)
            },
            Code::Esc => {
                if self.sel.is_some() {
                    self.sel = None;
                } else {
                    self.quit = true;
                }
                None
            },
            Code::Enter => {
                // Copy the selection or the match under the cursor and
                // exit; with nothing to copy, Enter still exits.
                let eff = self.yank(true);
                if eff.is_none() {
                    self.quit = true;
                }
                eff
            },
            Code::Left => {
                let col = if self.cursor.col > 0 {
                    self.cursor.col - 1
                } else {
                    0
                };
                self.goto(Pos { row: self.cursor.row, col });
                None
            },
            Code::Right => {
                self.goto(Pos { row: self.cursor.row, col: self.cursor.col + 1 });
                None
            },
            Code::Down => {
                self.move_vertical(1);
                None
            },
            Code::Up => {
                self.move_vertical(-1);
                None
            },
            Code::Home => {
                self.goto(Pos { row: self.cursor.row, col: 0 });
                None
            },
            Code::End => {
                self.line_end();
                None
            },
            Code::PageDown => {
                self.move_vertical(page);
                None
            },
            Code::PageUp => {
                self.move_vertical(-page);
                None
            },
            _ => None,
        }
    }

    /// Restore the view and the previous search (cancelled prompt).
    fn restore_origin(&mut self, direction: Direction, origin: Pos, origin_top: usize)
        requires
            old(self).wf(),
            valid_pos(old(self).buf, origin),
            origin_top < old(self).buf.lines@.len(),
        ensures
            final(self).wf(),
            final(self)@ == (AppV {
                cursor: origin,
                top: origin_top,
                search: spec_run(
                    old(self)@.search,
                    old(self).buf,
                    old(self)@.saved_pattern,
                    match old(self).search.direction {
                        Some(d) => d,
                        None => direction,
                    },
                ),
                ..old(self)@
            }),
    {
        self.cursor = origin;
        self.top = origin_top;
        let saved = self.saved_pattern.clone();
        let dir = match self.search.direction {
            Some(d) => d,
            None => direction,
        };
        self.search.run(&self.buf, saved.as_str(), dir);
    }

    fn handle_prompt(&mut self, key: Key)
        requires
            old(self).wf(),
            old(self).mode is Prompt,
        ensures
            final(self).wf(),
            final(self)@ == spec_prompt(old(self)@, key),
    {
        let mut m = Mode::Normal;
        std::mem::swap(&mut m, &mut self.mode);
        let (direction, mut input, origin, origin_top) = match m {
            Mode::Prompt { direction, input, origin, origin_top } => (
                direction,
                input,
                origin,
                origin_top,
            ),
            _ => {
                return;
            },
        };
        if key.code == Code::Char('c') && key.mods.ctrl {
            self.quit = true;
            return;
        }
        if key.code == Code::Esc || (key.code == Code::Backspace && input.is_empty()) {
            // Cancel: restore view and the previous search highlights;
            // Backspace on an empty prompt closes it, tmux-style.
            self.restore_origin(direction, origin, origin_top);
            return;
        }
        if key.code == Code::Enter {
            if input.is_empty() {
                // Repeat the previous search in this direction.
                let saved = self.saved_pattern.clone();
                if saved.as_str().is_empty() {
                    return;
                }
                self.search.run(&self.buf, saved.as_str(), direction);
                match self.search.seek(origin, direction, false) {
                    Some(m) => self.goto(m.start),
                    None => self.message = Some(no_match_message(saved.as_str())),
                }
            } else if self.search.matches.len() == 0 {
                let t = input.text();
                self.message = Some(no_match_message(t.as_str()));
            }
            return;
        }
        if !input.handle_key(key) {
            self.mode = Mode::Prompt { direction, input, origin, origin_top };
            return;
        }
        // Restore the prompt before jumping so the reserved bottom row
        // is accounted for while scrolling to the incremental hit.
        let query = input.text();
        self.mode = Mode::Prompt { direction, input, origin, origin_top };
        self.incremental(query.as_str(), direction, origin, origin_top);
    }

    pub fn handle_key(&mut self, key: Key) -> (e: Option<Effect>)
        requires
            old(self).wf(),
        ensures
            final(self).wf(),
            (final(self)@, effect_v(e)) == spec_handle_key(old(self)@, key),
    {
        self.message = None;
        match self.mode {
            Mode::Normal => self.handle_normal(key),
            Mode::Prompt { .. } => {
                self.handle_prompt(key);
                None
            },
            Mode::PatternMenu => {
                self.handle_pattern_menu(key);
                None
            },
        }
    }
}


// ----------------------------------------------------------------- mouse

/// The buffer position under screen cell (x, y), None on the mode row.
pub open spec fn spec_pos_at(a: AppV, x: u16, y: u16) -> Option<Pos> {
    if y >= content_rows(a.view_rows) {
        None
    } else {
        let row = min_int(a.top + y, a.buf.lines@.len() - 1);
        Some(
            Pos {
                row: row as usize,
                col: crate::buffer::col_scan(a.buf.row(row), a.hoff + x, 0) as usize,
            },
        )
    }
}

/// A left press with its click count: 1 moves the cursor and arms a
/// drag; 2 on a non-blank cell selects the WORD there; 3 selects the
/// whole logical line (soft-wrapped rows joined).
pub open spec fn spec_mouse_press(a: AppV, p: Pos, count: u8) -> AppV {
    let a1 = AppV { cursor: p, want_col: p.col, sel: None, mouse_sel: false, drag_origin: None, ..a };
    let line = a.buf.row(p.row as int);
    let on_word = p.col < line.len() && !spec_is_whitespace(line[p.col as int]);
    if count == 2 && on_word {
        AppV { mouse_sel: true, ..spec_text_object(a1, false, true) }
    } else if count == 3 {
        let first = a.buf.span_first(p.row as int);
        let last = a.buf.span_last(p.row as int);
        let a2 = AppV { sel: Some((SelKind::Line, Pos { row: first as usize, col: 0 })), ..a1 };
        AppV {
            mouse_sel: true,
            ..spec_goto(a2, Pos { row: last as usize, col: a.buf.spec_max_col(last) as usize })
        }
    } else {
        AppV { drag_origin: Some(p), ..a1 }
    }
}

/// The click count a left press at `ev`'s cell at `now_ms` gets: the
/// run continues on the same cell within the multi-click window.
pub open spec fn press_count(a: AppV, ev: Mouse, now_ms: u64) -> u8 {
    spec_next_count(a.clicks.1, a.clicks.0 == (ev.column, ev.row), spec_in_window(a.clicks.2, now_ms))
}

/// A mouse event at `now_ms` (milliseconds of a monotonic clock).
pub open spec fn spec_handle_mouse(a: AppV, ev: Mouse, now_ms: u64) -> (AppV, Option<Seq<char>>) {
    match ev.kind {
        MouseKind::ScrollUp => (spec_scroll(a, -3), None),
        MouseKind::ScrollDown => (spec_scroll(a, 3), None),
        MouseKind::Down(Button::Left) => {
            let count = press_count(a, ev, now_ms);
            let a1 = AppV { clicks: ((ev.column, ev.row), count, now_ms), ..a };
            (
                match spec_pos_at(a1, ev.column, ev.row) {
                    Some(p) => spec_mouse_press(a1, p, count),
                    None => a1,
                },
                None,
            )
        },
        MouseKind::Drag(Button::Left) => match a.drag_origin {
            Some(o) => {
                let a1 = AppV {
                    sel: if a.sel is None {
                        Some((SelKind::Char, o))
                    } else {
                        a.sel
                    },
                    mouse_sel: true,
                    ..a
                };
                (
                    match spec_pos_at(a1, ev.column, ev.row) {
                        Some(p) => with_visible(AppV { cursor: p, want_col: p.col, ..a1 }),
                        None => a1,
                    },
                    None,
                )
            },
            None => (a, None),
        },
        MouseKind::Up(Button::Left) => {
            let a1 = AppV { drag_origin: None, ..a };
            if a.mouse_sel {
                spec_yank_keep(AppV { mouse_sel: false, ..a1 })
            } else {
                (a1, None)
            }
        },
        _ => (a, None),
    }
}

impl App {
    fn pos_at(&self, x: u16, y: u16) -> (p: Option<Pos>)
        requires
            self.wf(),
        ensures
            p == spec_pos_at(self@, x, y),
            p matches Some(q) ==> valid_pos(self.buf, q),
    {
        let y = y as usize;
        if y >= self.content_rows() {
            return None;
        }
        let lr = self.buf.last_row();
        let r = self.top + y;
        let row = if r < lr {
            r
        } else {
            lr
        };
        assert(row_len_ok(self.buf.row(row as int)));
        let col = self.buf.line(row).col_at_x(self.hoff + x as usize);
        Some(Pos { row, col })
    }

    /// Left press dispatch by click count (see `spec_mouse_press`).
    pub fn mouse_press(&mut self, p: Pos, count: u8)
        requires
            old(self).wf(),
            valid_pos(old(self).buf, p),
        ensures
            final(self).wf(),
            final(self)@ == spec_mouse_press(old(self)@, p, count),
    {
        self.cursor = p;
        self.want_col = p.col;
        self.sel = None;
        self.mouse_sel = false;
        self.drag_origin = None;
        let line = self.buf.line(p.row);
        let on_word = p.col < line.chars.len() && !crate::text::is_whitespace(line.chars[p.col]);
        if count == 2 && on_word {
            self.apply_text_object(false, true);
            self.mouse_sel = true;
        } else if count == 3 {
            let (first, last) = self.buf.logical_span(p.row);
            self.sel = Some((SelKind::Line, Pos { row: first, col: 0 }));
            let mc = self.buf.max_col(last);
            self.goto(Pos { row: last, col: mc });
            self.mouse_sel = true;
        } else {
            self.drag_origin = Some(p);
        }
    }

    /// A mouse event at `now_ms` (milliseconds of a monotonic clock).
    pub fn handle_mouse(&mut self, ev: Mouse, now_ms: u64) -> (e: Option<Effect>)
        requires
            old(self).wf(),
        ensures
            final(self).wf(),
            (final(self)@, effect_v(e)) == spec_handle_mouse(old(self)@, ev, now_ms),
    {
        match ev.kind {
            MouseKind::ScrollUp => {
                self.scroll(-3);
                None
            },
            MouseKind::ScrollDown => {
                self.scroll(3);
                None
            },
            MouseKind::Down(Button::Left) => {
                let count = self.clicks.press(ev.column, ev.row, now_ms);
                match self.pos_at(ev.column, ev.row) {
                    Some(p) => self.mouse_press(p, count),
                    None => {},
                }
                None
            },
            MouseKind::Drag(Button::Left) => {
                match self.drag_origin {
                    Some(origin) => {
                        if self.sel.is_none() {
                            self.sel = Some((SelKind::Char, origin));
                        }
                        self.mouse_sel = true;
                        match self.pos_at(ev.column, ev.row) {
                            Some(p) => {
                                self.cursor = p;
                                self.want_col = p.col;
                                self.ensure_visible();
                            },
                            None => {},
                        }
                    },
                    None => {},
                }
                None
            },
            MouseKind::Up(Button::Left) => {
                self.drag_origin = None;
                if self.mouse_sel {
                    self.mouse_sel = false;
                    return self.yank_keeping_selection();
                }
                None
            },
            _ => None,
        }
    }
}


// ------------------------------------------------------------------ laws

/// Following the cursor brings it into view: after `with_visible` the
/// cursor's row is among the content rows, and its cells lie inside the
/// horizontal window whenever they fit in it.
pub proof fn law_follow_shows_cursor(a: AppV)
    requires
        a.buf.lines@.len() >= 1,
        a.cursor.row < a.buf.lines@.len(),
        a.top < a.buf.lines@.len(),
        a.view_rows >= 1,
        cursor_x(a) + cursor_cw(a) <= usize::MAX,
    ensures
        with_visible(a).top <= with_visible(a).cursor.row < with_visible(a).top + content_rows(a.view_rows),
        cursor_cw(a) <= a.view_cols ==> with_visible(a).hoff <= cursor_x(a) && cursor_x(a) + cursor_cw(a)
            <= with_visible(a).hoff + a.view_cols,
{
    let rows = content_rows(a.view_rows);
    let mt = spec_max_top(a);
    let t = follow_top(a.top as int, a.cursor.row as int, rows, mt);
    assert(0 <= t);
}

/// Cancelling the prompt (Esc, or Backspace on an empty query) puts the
/// view back where the prompt opened and leaves the prompt.
pub proof fn law_prompt_cancel_restores(a: AppV, key: Key)
    requires
        a.mode is Prompt,
        key.code == Code::Esc || (key.code == Code::Backspace && a.mode->Prompt_input.0.len() == 0),
        !(key.code == Code::Char('c') && key.mods.ctrl),
    ensures
        spec_prompt(a, key).cursor == a.mode->Prompt_origin,
        spec_prompt(a, key).top == a.mode->Prompt_origin_top,
        spec_prompt(a, key).mode is Normal,
        spec_prompt(a, key).search.pattern == a.saved_pattern,
{
}

/// Every key keeps the invariant and answers with at most one copy; a
/// copy only ever comes from Normal mode.
pub proof fn law_copy_only_in_normal_mode(a: AppV, key: Key)
    requires
        !(a.mode is Normal),
    ensures
        spec_handle_key(a, key).1 is None,
{
}

/// Vertical moves keep the wanted column, so a column survives a pass
/// over shorter lines: moving down and back up (or up and back down)
/// returns the cursor to where it was.
pub proof fn law_vertical_round_trip(a: AppV, d: int)
    requires
        a.cursor.row < a.buf.lines@.len(),
        0 <= a.cursor.row + d < a.buf.lines@.len(),
        a.cursor.col == a.want_col,
        a.want_col <= a.buf.spec_max_col(a.cursor.row as int),
    ensures
        spec_move_vertical(a, d).want_col == a.want_col,
        spec_move_vertical(a, d).cursor.row == a.cursor.row + d,
        spec_move_vertical(a, d).cursor.col == min_int(a.want_col as int, a.buf.spec_max_col(a.cursor.row + d)),
        spec_move_vertical(spec_move_vertical(a, d), -d).cursor == a.cursor,
{
    assert(a.buf.lines.len() == a.buf.lines@.len());
}

/// Releasing the left button copies only a selection the mouse made
/// (a drag, a double or a triple click), copies it as selected, and
/// leaves it shown; a plain click copies nothing.
pub proof fn law_mouse_release_copies_mouse_selection(a: AppV, ev: Mouse, now_ms: u64)
    requires
        ev.kind == MouseKind::Up(Button::Left),
    ensures
        spec_handle_mouse(a, ev, now_ms).0.sel == a.sel,
        spec_handle_mouse(a, ev, now_ms).0.drag_origin is None,
        !a.mouse_sel ==> spec_handle_mouse(a, ev, now_ms).1 is None,
        a.mouse_sel ==> spec_handle_mouse(a, ev, now_ms).1 == spec_selection_text(a),
{
}

/// ctrl+c exits from every mode. (A pending `i`/`a` text object takes
/// the next key first, and alt+key runs the pattern bound to the key.)
pub proof fn law_ctrl_c_exits(a: AppV, key: Key)
    requires
        key.code == Code::Char('c'),
        key.mods.ctrl,
        !key.mods.alt,
        a.pending is None,
    ensures
        spec_handle_key(a, key).0.quit,
        spec_handle_key(a, key).1 is None,
{
}

/// In copy mode Enter always ends the view: it copies the selection or
/// the match under the cursor and exits, or just exits with nothing to
/// copy.
pub proof fn law_enter_exits_copy_mode(a: AppV, key: Key)
    requires
        a.mode is Normal,
        a.pending is None,
        key.code == Code::Enter,
    ensures
        spec_handle_key(a, key).0.quit,
        spec_handle_key(a, key).1 == spec_yank_text(AppV { message: None, ..a }),
{
}

/// Esc in copy mode clears the selection first and exits only when
/// there is none.
pub proof fn law_esc_clears_selection_first(a: AppV, key: Key)
    requires
        a.mode is Normal,
        a.pending is None,
        key.code == Code::Esc,
    ensures
        a.sel is Some ==> spec_handle_key(a, key).0.sel is None && spec_handle_key(a, key).0.quit
            == a.quit,
        a.sel is None ==> spec_handle_key(a, key).0.quit,
        spec_handle_key(a, key).1 is None,
{
}
} // verus!
