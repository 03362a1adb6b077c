//! SGR-styled terminal text: escape sequences are decoded into per-char
//! styles; every other escape sequence is skipped, never rendered.
use vstd::prelude::*;
use crate::text::{
    chars_of, lemma_find_none, lemma_find_unique, parse_bounded, spec_parse_bounded, spec_split,
};

verus! {

#[derive(Debug, Clone, Copy, PartialEq, Eq, Structural)]
pub enum Color {
    Default,
    /// 0-15 from classic SGR (30-37/90-97), 0-255 from 38;5;N.
    Indexed(u8),
    /// 24-bit from 38;2;r;g;b.
    Rgb(u8, u8, u8),
}

impl Default for Color {
    fn default() -> (c: Self)
        ensures
            c == Color::Default,
    {
        Color::Default
    }
}

#[derive(Debug, Clone, Copy, PartialEq, Eq, Structural)]
pub struct Style {
    pub fg: Color,
    pub bg: Color,
    pub bold: bool,
    pub dim: bool,
    pub italic: bool,
    pub underline: bool,
    pub reverse: bool,
}

/// The unstyled style: default colors, no attributes.
pub open spec fn plain() -> Style {
    Style {
        fg: Color::Default,
        bg: Color::Default,
        bold: false,
        dim: false,
        italic: false,
        underline: false,
        reverse: false,
    }
}

impl Default for Style {
    fn default() -> (s: Self)
        ensures
            s == plain(),
    {
        Style {
            fg: Color::Default,
            bg: Color::Default,
            bold: false,
            dim: false,
            italic: false,
            underline: false,
            reverse: false,
        }
    }
}

pub struct StyledLine {
    pub chars: Vec<char>,
    /// Parallel to `chars`; empty means every char is default-styled.
    pub styles: Vec<Style>,
}

/// Where the decoder stands inside the input.
pub enum Mode {
    /// Ordinary text.
    Text,
    /// Just after ESC.
    Esc,
    /// Inside `ESC [`, collecting parameter chars.
    Csi(Vec<char>),
    /// Inside `ESC ]`, until BEL or ST.
    Osc,
    /// Inside an OSC, just after its ESC.
    OscEsc,
    /// After an intermediate byte, until the final byte.
    Skip,
}

pub ghost enum SpecMode {
    Text,
    Esc,
    Csi(Seq<char>),
    Osc,
    OscEsc,
    Skip,
}

impl View for Mode {
    type V = SpecMode;

    open spec fn view(&self) -> SpecMode {
        match self {
            Mode::Text => SpecMode::Text,
            Mode::Esc => SpecMode::Esc,
            Mode::Csi(p) => SpecMode::Csi(p@),
            Mode::Osc => SpecMode::Osc,
            Mode::OscEsc => SpecMode::OscEsc,
            Mode::Skip => SpecMode::Skip,
        }
    }
}

/// Decoder state: finished lines, the current line, the current style.
pub ghost struct DecodeState {
    pub lines: Seq<(Seq<char>, Seq<Style>)>,
    pub chars: Seq<char>,
    pub styles: Seq<Style>,
    pub style: Style,
    pub mode: SpecMode,
}

pub open spec fn all_plain(styles: Seq<Style>) -> bool {
    forall|i: int| 0 <= i < styles.len() ==> styles[i] == plain()
}

/// A finished line keeps its styles unless every one is the default.
pub open spec fn finished_line(chars: Seq<char>, styles: Seq<Style>) -> (Seq<char>, Seq<Style>) {
    if all_plain(styles) {
        (chars, seq![])
    } else {
        (chars, styles)
    }
}

pub open spec fn end_line(st: DecodeState) -> DecodeState {
    DecodeState {
        lines: st.lines.push(finished_line(st.chars, st.styles)),
        chars: seq![],
        styles: seq![],
        ..st
    }
}

pub open spec fn push_styled(st: DecodeState, c: char) -> DecodeState {
    DecodeState { chars: st.chars.push(c), styles: st.styles.push(st.style), ..st }
}

pub open spec fn in_range(c: char, lo: char, hi: char) -> bool {
    lo <= c && c <= hi
}

/// One char of ordinary text: ESC opens an escape, `\n` ends the line,
/// `\r` is dropped, a tab becomes 4 spaces carrying the current style.
pub open spec fn text_step(st: DecodeState, c: char) -> DecodeState {
    if c == '\x1b' {
        DecodeState { mode: SpecMode::Esc, ..st }
    } else if c == '\n' {
        end_line(st)
    } else if c == '\r' {
        st
    } else if c == '\t' {
        push_styled(push_styled(push_styled(push_styled(st, ' '), ' '), ' '), ' ')
    } else {
        push_styled(st, c)
    }
}

pub open spec fn step(st: DecodeState, c: char) -> DecodeState {
    match st.mode {
        SpecMode::Text => text_step(st, c),
        SpecMode::Esc => {
            if c == '[' {
                DecodeState { mode: SpecMode::Csi(seq![]), ..st }
            } else if c == ']' {
                DecodeState { mode: SpecMode::Osc, ..st }
            } else if in_range(c, '\x20', '\x2f') {
                DecodeState { mode: SpecMode::Skip, ..st }
            } else {
                DecodeState { mode: SpecMode::Text, ..st }
            }
        },
        SpecMode::Csi(params) => {
            if in_range(c, '\x40', '\x7e') {
                let style = if c == 'm' {
                    spec_sgr(st.style, params)
                } else {
                    st.style
                };
                DecodeState { style, mode: SpecMode::Text, ..st }
            } else {
                DecodeState { mode: SpecMode::Csi(params.push(c)), ..st }
            }
        },
        SpecMode::Osc => {
            if c == '\x07' {
                DecodeState { mode: SpecMode::Text, ..st }
            } else if c == '\x1b' {
                DecodeState { mode: SpecMode::OscEsc, ..st }
            } else {
                st
            }
        },
        SpecMode::OscEsc => {
            if c == '\\' {
                DecodeState { mode: SpecMode::Text, ..st }
            } else {
                text_step(DecodeState { mode: SpecMode::Text, ..st }, c)
            }
        },
        SpecMode::Skip => {
            if in_range(c, '\x30', '\x7e') {
                DecodeState { mode: SpecMode::Text, ..st }
            } else {
                st
            }
        },
    }
}

pub open spec fn initial() -> DecodeState {
    DecodeState {
        lines: seq![],
        chars: seq![],
        styles: seq![],
        style: plain(),
        mode: SpecMode::Text,
    }
}

/// The decoder state after reading all of `s`.
pub open spec fn decode(s: Seq<char>) -> DecodeState
    decreases s.len(),
{
    if s.len() == 0 {
        initial()
    } else {
        step(decode(s.drop_last()), s.last())
    }
}

/// The styled lines of `text`: a pending partial line is kept, but a
/// trailing newline adds no empty line.
pub open spec fn spec_parse(text: Seq<char>) -> Seq<(Seq<char>, Seq<Style>)> {
    let st = decode(text);
    if st.chars.len() > 0 {
        end_line(st).lines
    } else {
        st.lines
    }
}

// ---------------------------------------------------------------- SGR

pub open spec fn set_color(style: Style, fg: bool, c: Color) -> Style {
    if fg {
        Style { fg: c, ..style }
    } else {
        Style { bg: c, ..style }
    }
}

/// The parameter at `i` read as SGR code: an empty parameter is 0 (a
/// reset); anything that is not a `u16` is skipped.
pub open spec fn sgr_code(parts: Seq<Seq<char>>, i: int) -> Option<nat> {
    if parts[i].len() == 0 {
        Some(0)
    } else {
        spec_parse_bounded(parts[i], 0xffff)
    }
}

pub open spec fn part_u8(parts: Seq<Seq<char>>, i: int) -> Option<nat> {
    if 0 <= i < parts.len() {
        spec_parse_bounded(parts[i], 0xff)
    } else {
        None
    }
}

pub open spec fn part_is(parts: Seq<Seq<char>>, i: int, c: char) -> bool {
    0 <= i < parts.len() && parts[i] == seq![c]
}

/// Effect of one code on the style, with how many following parameters
/// it consumes (the `38;5;N` and `38;2;R;G;B` forms).
pub open spec fn sgr_one(style: Style, n: nat, parts: Seq<Seq<char>>, i: int) -> (Style, int) {
    if n == 0 {
        (plain(), 0)
    } else if n == 1 {
        (Style { bold: true, ..style }, 0)
    } else if n == 2 {
        (Style { dim: true, ..style }, 0)
    } else if n == 3 {
        (Style { italic: true, ..style }, 0)
    } else if n == 4 {
        (Style { underline: true, ..style }, 0)
    } else if n == 7 {
        (Style { reverse: true, ..style }, 0)
    } else if n == 22 {
        (Style { bold: false, dim: false, ..style }, 0)
    } else if n == 23 {
        (Style { italic: false, ..style }, 0)
    } else if n == 24 {
        (Style { underline: false, ..style }, 0)
    } else if n == 27 {
        (Style { reverse: false, ..style }, 0)
    } else if 30 <= n <= 37 {
        (Style { fg: Color::Indexed((n - 30) as u8), ..style }, 0)
    } else if 90 <= n <= 97 {
        (Style { fg: Color::Indexed((n - 90 + 8) as u8), ..style }, 0)
    } else if 40 <= n <= 47 {
        (Style { bg: Color::Indexed((n - 40) as u8), ..style }, 0)
    } else if 100 <= n <= 107 {
        (Style { bg: Color::Indexed((n - 100 + 8) as u8), ..style }, 0)
    } else if n == 39 {
        (Style { fg: Color::Default, ..style }, 0)
    } else if n == 49 {
        (Style { bg: Color::Default, ..style }, 0)
    } else if n == 38 || n == 48 {
        let fg = n == 38;
        if part_is(parts, i + 1, '5') {
            match part_u8(parts, i + 2) {
                Some(idx) => (set_color(style, fg, Color::Indexed(idx as u8)), 2),
                None => (style, 2),
            }
        } else if part_is(parts, i + 1, '2') {
            match (part_u8(parts, i + 2), part_u8(parts, i + 3), part_u8(parts, i + 4)) {
                (Some(r), Some(g), Some(b)) => (
                    set_color(style, fg, Color::Rgb(r as u8, g as u8, b as u8)),
                    4,
                ),
                _ => (style, 4),
            }
        } else {
            (style, 0)
        }
    } else {
        (style, 0)
    }
}

/// The extended color codes: `38` sets the foreground and `48` the
/// background, from a palette index (`;5;N`) or RGB (`;2;R;G;B`); the
/// other side of the pair and every attribute are left as they were.
pub proof fn law_extended_colors_pick_their_side(
    style: Style,
    n: nat,
    parts: Seq<Seq<char>>,
    i: int,
    v: nat,
    r: nat,
    g: nat,
    b: nat,
)
    requires
        n == 38 || n == 48,
        0 <= i,
    ensures
        i + 2 < parts.len() && parts[i + 1] == seq!['5'] && spec_parse_bounded(parts[i + 2], 0xff) == Some(v)
            ==> sgr_one(style, n, parts, i) == (if n == 38 {
            (Style { fg: Color::Indexed(v as u8), ..style }, 2int)
        } else {
            (Style { bg: Color::Indexed(v as u8), ..style }, 2int)
        }),
        i + 4 < parts.len() && parts[i + 1] == seq!['2'] && spec_parse_bounded(parts[i + 2], 0xff) == Some(r)
            && spec_parse_bounded(parts[i + 3], 0xff) == Some(g) && spec_parse_bounded(parts[i + 4], 0xff)
            == Some(b) ==> sgr_one(style, n, parts, i) == (if n == 38 {
            (Style { fg: Color::Rgb(r as u8, g as u8, b as u8), ..style }, 4int)
        } else {
            (Style { bg: Color::Rgb(r as u8, g as u8, b as u8), ..style }, 4int)
        }),
{
    if i + 1 < parts.len() && parts[i + 1] == seq!['2'] {
        assert(parts[i + 1][0] != seq!['5'][0]);
    }
}

/// The basic color codes: `30`-`37` and `90`-`97` set the foreground,
/// `40`-`47` and `100`-`107` the background, `39`/`49` reset one side.
pub proof fn law_basic_colors_pick_their_side(style: Style, n: nat, parts: Seq<Seq<char>>, i: int)
    ensures
        30 <= n <= 37 ==> sgr_one(style, n, parts, i) == (Style { fg: Color::Indexed((n - 30) as u8), ..style }, 0int),
        90 <= n <= 97 ==> sgr_one(style, n, parts, i) == (Style { fg: Color::Indexed((n - 82) as u8), ..style }, 0int),
        40 <= n <= 47 ==> sgr_one(style, n, parts, i) == (Style { bg: Color::Indexed((n - 40) as u8), ..style }, 0int),
        100 <= n <= 107 ==> sgr_one(style, n, parts, i) == (Style { bg: Color::Indexed((n - 92) as u8), ..style }, 0int),
        n == 39 ==> sgr_one(style, n, parts, i) == (Style { fg: Color::Default, ..style }, 0int),
        n == 49 ==> sgr_one(style, n, parts, i) == (Style { bg: Color::Default, ..style }, 0int),
{
}

/// The attribute codes: `0` resets everything, `1`/`2`/`3`/`4`/`7` turn
/// on bold, dim, italic, underline and reverse, and `22`/`23`/`24`/`27`
/// turn them off again (`22` clears both bold and dim); colors stay.
pub proof fn law_attribute_codes(style: Style, n: nat, parts: Seq<Seq<char>>, i: int)
    ensures
        n == 0 ==> sgr_one(style, n, parts, i) == (plain(), 0int),
        n == 1 ==> sgr_one(style, n, parts, i) == (Style { bold: true, ..style }, 0int),
        n == 2 ==> sgr_one(style, n, parts, i) == (Style { dim: true, ..style }, 0int),
        n == 3 ==> sgr_one(style, n, parts, i) == (Style { italic: true, ..style }, 0int),
        n == 4 ==> sgr_one(style, n, parts, i) == (Style { underline: true, ..style }, 0int),
        n == 7 ==> sgr_one(style, n, parts, i) == (Style { reverse: true, ..style }, 0int),
        n == 22 ==> sgr_one(style, n, parts, i) == (Style { bold: false, dim: false, ..style }, 0int),
        n == 23 ==> sgr_one(style, n, parts, i) == (Style { italic: false, ..style }, 0int),
        n == 24 ==> sgr_one(style, n, parts, i) == (Style { underline: false, ..style }, 0int),
        n == 27 ==> sgr_one(style, n, parts, i) == (Style { reverse: false, ..style }, 0int),
        plain() == (Style {
            fg: Color::Default,
            bg: Color::Default,
            bold: false,
            dim: false,
            italic: false,
            underline: false,
            reverse: false,
        }),
{
}

pub proof fn lemma_sgr_skip(style: Style, n: nat, parts: Seq<Seq<char>>, i: int)
    ensures
        sgr_one(style, n, parts, i).1 >= 0,
{
}

/// The style after applying the parameters from index `i` on.
pub open spec fn sgr_from(style: Style, parts: Seq<Seq<char>>, i: int) -> Style
    decreases parts.len() - i,
{
    if i < 0 || i >= parts.len() {
        style
    } else {
        match sgr_code(parts, i) {
            None => sgr_from(style, parts, i + 1),
            Some(n) => {
                let (s2, skip) = sgr_one(style, n, parts, i);
                proof {
                    lemma_sgr_skip(style, n, parts, i);
                }
                if i + 1 + skip >= parts.len() {
                    s2
                } else {
                    sgr_from(s2, parts, i + 1 + skip)
                }
            },
        }
    }
}

/// Apply a `;`-separated SGR parameter list. Unknown or unparsable
/// chunks (including colon sub-parameters like 38:5:N) are ignored.
pub open spec fn spec_sgr(style: Style, params: Seq<char>) -> Style {
    sgr_from(style, spec_split(params, ';'), 0)
}

/// `params` split at `;`, as char vectors.
fn split_params(params: &Vec<char>) -> (parts: Vec<Vec<char>>)
    ensures
        parts@.len() == spec_split(params@, ';').len(),
        forall|k: int| 0 <= k < parts@.len() ==> #[trigger] parts@[k]@ == spec_split(params@, ';')[k],
{
    let mut parts: Vec<Vec<char>> = Vec::new();
    let mut pos: usize = 0;
    let ghost done: Seq<Seq<char>> = seq![];
    assert(params@.skip(0) =~= params@);
    assert(done + spec_split(params@, ';') =~= spec_split(params@, ';'));
    loop
        invariant
            pos <= params@.len(),
            parts@.len() == done.len(),
            done + spec_split(params@.skip(pos as int), ';') == spec_split(params@, ';'),
            forall|k: int| 0 <= k < parts@.len() ==> #[trigger] parts@[k]@ == done[k],
        decreases params@.len() - pos,
    {
        let ghost rest = params@.skip(pos as int);
        assert(params@.subrange(pos as int, params@.len() as int) =~= rest);
        let mut piece: Vec<char> = Vec::new();
        let mut j = pos;
        while j < params.len() && params[j] != ';'
            invariant
                pos <= j <= params@.len(),
                piece@ =~= params@.subrange(pos as int, j as int),
                forall|t: int| pos <= t < j ==> params@[t] != ';',
            decreases params@.len() - j,
        {
            piece.push(params[j]);
            j = j + 1;
        }
        if j < params.len() {
            proof {
                lemma_find_unique(rest, ';', j - pos);
                assert(rest.take(j - pos) =~= piece@);
                assert(rest.skip(j - pos + 1) =~= params@.skip(j + 1));
                assert(done + spec_split(rest, ';') =~= done.push(piece@) + spec_split(
                    params@.skip(j + 1),
                    ';',
                ));
                done = done.push(piece@);
            }
            parts.push(piece);
            pos = j + 1;
        } else {
            proof {
                lemma_find_none(rest, ';');
                assert(rest =~= piece@);
                done = done.push(piece@);
                assert(done =~= spec_split(params@, ';'));
            }
            parts.push(piece);
            return parts;
        }
    }
}

fn parse_part_u8(parts: &Vec<Vec<char>>, i: usize) -> (r: Option<u8>)
    ensures
        match r {
            Some(v) => part_u8(parts@.map_values(|p: Vec<char>| p@), i as int) == Some(v as nat),
            None => part_u8(parts@.map_values(|p: Vec<char>| p@), i as int) is None,
        },
{
    if i < parts.len() {
        let p = &parts[i];
        assert(parts@.map_values(|p: Vec<char>| p@)[i as int] == p@);
        match parse_bounded(p.as_slice(), 0, p.len(), 0xff) {
            Some(v) => {
                assert(p@.subrange(0, p@.len() as int) =~= p@);
                Some(v as u8)
            },
            None => {
                assert(p@.subrange(0, p@.len() as int) =~= p@);
                None
            },
        }
    } else {
        None
    }
}

fn part_is_char(parts: &Vec<Vec<char>>, i: usize, c: char) -> (b: bool)
    ensures
        b == part_is(parts@.map_values(|p: Vec<char>| p@), i as int, c),
{
    if i < parts.len() {
        let p = &parts[i];
        assert(parts@.map_values(|p: Vec<char>| p@)[i as int] == p@);
        let b = p.len() == 1 && p[0] == c;
        assert(b ==> p@ =~= seq![c]);
        b
    } else {
        false
    }
}

fn set_color_exec(style: &mut Style, fg: bool, c: Color)
    ensures
        *final(style) == set_color(*old(style), fg, c),
{
    if fg {
        style.fg = c;
    } else {
        style.bg = c;
    }
}

/// Effect of one SGR code on `style`; returns how many following
/// parameters the code consumed.
fn apply_code(style: &mut Style, n: u64, parts: &Vec<Vec<char>>, i: usize) -> (skip: usize)
    requires
        n <= 0xffff,
        i < parts@.len(),
    ensures
        (*final(style), skip as int) == sgr_one(
            *old(style),
            n as nat,
            parts@.map_values(|p: Vec<char>| p@),
            i as int,
        ),
{
        let mut skip: usize = 0;
        if n == 0 {
            *style = Style::default();
        } else if n == 1 {
            style.bold = true;
        } else if n == 2 {
            style.dim = true;
        } else if n == 3 {
            style.italic = true;
        } else if n == 4 {
            style.underline = true;
        } else if n == 7 {
            style.reverse = true;
        } else if n == 22 {
            style.bold = false;
            style.dim = false;
        } else if n == 23 {
            style.italic = false;
        } else if n == 24 {
            style.underline = false;
        } else if n == 27 {
            style.reverse = false;
        } else if 30 <= n && n <= 37 {
            style.fg = Color::Indexed((n - 30) as u8);
        } else if 90 <= n && n <= 97 {
            style.fg = Color::Indexed((n - 90 + 8) as u8);
        } else if 40 <= n && n <= 47 {
            style.bg = Color::Indexed((n - 40) as u8);
        } else if 100 <= n && n <= 107 {
            style.bg = Color::Indexed((n - 100 + 8) as u8);
        } else if n == 39 {
            style.fg = Color::Default;
        } else if n == 49 {
            style.bg = Color::Default;
        } else if n == 38 || n == 48 {
            let fg = n == 38;
            let ghost pv = parts@.map_values(|p: Vec<char>| p@);
            let len = parts.len();
            let j2 = if i + 1 < len { i + 2 } else { len };
            let j3 = if j2 < len { j2 + 1 } else { len };
            let j4 = if j3 < len { j3 + 1 } else { len };
            assert(pv.len() == parts@.len());
            assert(part_u8(pv, j2 as int) == part_u8(pv, i + 2));
            assert(part_u8(pv, j3 as int) == part_u8(pv, i + 3));
            assert(part_u8(pv, j4 as int) == part_u8(pv, i + 4));
            if part_is_char(parts, i.saturating_add(1), '5') {
                if let Some(idx) = parse_part_u8(parts, j2) {
                    set_color_exec(style, fg, Color::Indexed(idx));
                }
                skip = 2;
            } else if part_is_char(parts, i.saturating_add(1), '2') {
                let r = parse_part_u8(parts, j2);
                let g = parse_part_u8(parts, j3);
                let b = parse_part_u8(parts, j4);
                if let (Some(r), Some(g), Some(b)) = (r, g, b) {
                    set_color_exec(style, fg, Color::Rgb(r, g, b));
                }
                skip = 4;
            }
        }
    skip
}

/// Apply a semicolon-separated SGR parameter list to `style`.
fn apply_sgr(style: &mut Style, params: &Vec<char>)
    ensures
        *final(style) == spec_sgr(*old(style), params@),
{
    let parts = split_params(params);
    let ghost pv = parts@.map_values(|p: Vec<char>| p@);
    assert(pv =~= spec_split(params@, ';'));
    let mut i: usize = 0;
    while i < parts.len()
        invariant
            pv == parts@.map_values(|p: Vec<char>| p@),
            sgr_from(*style, pv, i as int) == spec_sgr(*old(style), params@),
        decreases parts@.len() - i,
    {
        let p = &parts[i];
        assert(pv[i as int] == p@);
        let code: Option<u64> = if p.len() == 0 {
            Some(0)
        } else {
            let r = parse_bounded(p.as_slice(), 0, p.len(), 0xffff);
            assert(p@.subrange(0, p@.len() as int) =~= p@);
            r
        };
        assert(code matches Some(n) ==> sgr_code(pv, i as int) == Some(n as nat));
        assert(code is None ==> sgr_code(pv, i as int) is None);
        match code {
            None => {
                i = i + 1;
            },
            Some(n) => {
                let skip = apply_code(style, n, &parts, i);
                let next = i.saturating_add(1 + skip);
                i = if next > parts.len() {
                    parts.len()
                } else {
                    next
                };
            },
        }
    }
}

// ------------------------------------------------------------- decoder

fn all_default(styles: &Vec<Style>) -> (b: bool)
    ensures
        b == all_plain(styles@),
{
    let d = Style::default();
    let mut i: usize = 0;
    while i < styles.len()
        invariant
            i <= styles@.len(),
            d == plain(),
            forall|k: int| 0 <= k < i ==> styles@[k] == plain(),
        decreases styles@.len() - i,
    {
        if styles[i] != d {
            return false;
        }
        i = i + 1;
    }
    true
}

fn finish_line(out: &mut Vec<StyledLine>, chars: &mut Vec<char>, styles: &mut Vec<Style>)
    ensures
        final(out)@.len() == old(out)@.len() + 1,
        forall|k: int| 0 <= k < old(out)@.len() ==> #[trigger] final(out)@[k] == old(out)@[k],
        final(out)@.last().chars@ == finished_line(old(chars)@, old(styles)@).0,
        final(out)@.last().styles@ == finished_line(old(chars)@, old(styles)@).1,
        final(chars)@ == Seq::<char>::empty(),
        final(styles)@ == Seq::<Style>::empty(),
{
    let plain_line = all_default(styles);
    let mut line_styles: Vec<Style> = Vec::new();
    if !plain_line {
        std::mem::swap(&mut line_styles, styles);
    }
    styles.clear();
    let mut line_chars: Vec<char> = Vec::new();
    std::mem::swap(&mut line_chars, chars);
    out.push(StyledLine { chars: line_chars, styles: line_styles });
}

pub open spec fn lines_view(out: Seq<StyledLine>) -> Seq<(Seq<char>, Seq<Style>)> {
    out.map_values(|l: StyledLine| (l.chars@, l.styles@))
}

pub open spec fn state_of(
    out: Seq<StyledLine>,
    chars: Seq<char>,
    styles: Seq<Style>,
    style: Style,
    mode: SpecMode,
) -> DecodeState {
    DecodeState { lines: lines_view(out), chars, styles, style, mode }
}

fn push_c(chars: &mut Vec<char>, styles: &mut Vec<Style>, style: Style, c: char)
    ensures
        final(chars)@ == old(chars)@.push(c),
        final(styles)@ == old(styles)@.push(style),
{
    chars.push(c);
    styles.push(style);
}

/// Parse SGR-styled text into plain lines with per-char styles.
///
/// SGR state persists across newlines. Tabs expand to 4 spaced cells
/// carrying the current style, '\r' is dropped, and non-SGR escapes
/// (other CSI, OSC, charset selects) are skipped, never rendered.
/// A trailing '\n' does not produce a final empty line.
pub fn parse(text: &str) -> (out: Vec<StyledLine>)
    ensures
        lines_view(out@) == spec_parse(text@),
{
    let input = chars_of(text);
    let mut out: Vec<StyledLine> = Vec::new();
    let mut chars: Vec<char> = Vec::new();
    let mut styles: Vec<Style> = Vec::new();
    let mut style = Style::default();
    let mut mode = Mode::Text;
    let mut i: usize = 0;
    assert(input@.take(0) =~= Seq::<char>::empty());
    assert(lines_view(out@) =~= Seq::<(Seq<char>, Seq<Style>)>::empty());
    while i < input.len()
        invariant
            i <= input@.len(),
            input@ == text@,
            state_of(out@, chars@, styles@, style, mode@) == decode(input@.take(i as int)),
        decreases input@.len() - i,
    {
        let c = input[i];
        let ghost before = state_of(out@, chars@, styles@, style, mode@);
        assert(input@.take(i + 1).drop_last() =~= input@.take(i as int));
        let text_mode = match mode {
            Mode::Text => true,
            Mode::Esc => {
                mode = if c == '[' {
                    Mode::Csi(Vec::new())
                } else if c == ']' {
                    Mode::Osc
                } else if '\x20' <= c && c <= '\x2f' {
                    Mode::Skip
                } else {
                    Mode::Text
                };
                false
            },
            Mode::Csi(ref mut params) => {
                if '\x40' <= c && c <= '\x7e' {
                    if c == 'm' {
                        apply_sgr(&mut style, params);
                    }
                    mode = Mode::Text;
                } else {
                    params.push(c);
                }
                false
            },
            Mode::Osc => {
                if c == '\x07' {
                    mode = Mode::Text;
                } else if c == '\x1b' {
                    mode = Mode::OscEsc;
                }
                false
            },
            Mode::OscEsc => {
                if c == '\\' {
                    mode = Mode::Text;
                    false
                } else {
                    mode = Mode::Text;
                    true
                }
            },
            Mode::Skip => {
                if '\x30' <= c && c <= '\x7e' {
                    mode = Mode::Text;
                }
                false
            },
        };
        if text_mode {
            if c == '\x1b' {
                mode = Mode::Esc;
            } else if c == '\n' {
                proof {
                    assert(lines_view(out@).push(finished_line(chars@, styles@)).len() == out@.len() + 1);
                }
                let ghost pre_out = out@;
                let ghost pre_chars = chars@;
                let ghost pre_styles = styles@;
                finish_line(&mut out, &mut chars, &mut styles);
                assert(lines_view(out@) =~= lines_view(pre_out).push(finished_line(pre_chars, pre_styles)));
            } else if c == '\r' {
            } else if c == '\t' {
                push_c(&mut chars, &mut styles, style, ' ');
                push_c(&mut chars, &mut styles, style, ' ');
                push_c(&mut chars, &mut styles, style, ' ');
                push_c(&mut chars, &mut styles, style, ' ');
            } else {
                push_c(&mut chars, &mut styles, style, c);
            }
        }
        assert(state_of(out@, chars@, styles@, style, mode@) == step(before, c));
        i = i + 1;
    }
    assert(input@.take(i as int) =~= input@);
    if chars.len() > 0 {
        let ghost pre_out = out@;
        let ghost pre_chars = chars@;
        let ghost pre_styles = styles@;
        finish_line(&mut out, &mut chars, &mut styles);
        assert(lines_view(out@) =~= lines_view(pre_out).push(finished_line(pre_chars, pre_styles)));
    }
    out
}

} // verus!
