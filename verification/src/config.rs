//! Plugin configuration from `config.toml`, read with a minimal flat-TOML
//! extractor: one `key = value` per line, `#` comments, scanning stops at
//! the first `[table]` header. No arrays, no escapes.
use vstd::prelude::*;
use crate::ansi::Color;
use crate::buffer::extend_from;
use crate::text::{
    chars_of, find_char, line_bounds, parse_bounded, parse_i64, spec_byte_offset, spec_find,
    spec_lines, spec_parse_bounded, spec_parse_i64, spec_trim, string_of, trim_bounds, utf8_len,
};

verus! {

pub const DEFAULT_EXTRACT_HEIGHT: u8 = 40;

/// The double quote that delimits quoted values.
pub const QUOTE: char = '\u{22}';

/// The bracket that opens a `[table]` header.
pub const OPEN_BRACKET: char = '\u{5b}';

#[derive(Debug, Clone, Copy, PartialEq, Eq, Structural)]
pub struct Config {
    /// Extract popup height as a percentage of the screen, 1-100.
    pub extract_height: u8,
}

impl Default for Config {
    fn default() -> (c: Self)
        ensures
            c.extract_height == DEFAULT_EXTRACT_HEIGHT,
    {
        Config { extract_height: DEFAULT_EXTRACT_HEIGHT }
    }
}

/// Foreground/background color override for one themed UI element.
#[derive(Debug, Clone, Copy, PartialEq, Eq, Structural)]
pub struct ColorPair {
    pub fg: Color,
    pub bg: Color,
}

/// Colors for the themed UI chrome; matching config keys override them.
#[derive(Debug, Clone, Copy, PartialEq, Eq, Structural)]
pub struct Theme {
    // copy / search
    pub badge_copy: ColorPair,
    pub badge_search: ColorPair,
    pub match_: ColorPair,
    pub match_current: ColorPair,
    pub cursor: ColorPair,
    pub indicator: ColorPair,
    // extract
    pub badge_word: ColorPair,
    pub badge_line: ColorPair,
    pub extract_selected: ColorPair,
}

/// Black text on palette color `bg`.
pub open spec fn on(bg: u8) -> ColorPair {
    ColorPair { fg: Color::Indexed(0), bg: Color::Indexed(bg) }
}

/// The built-in theme (ANSI palette indices: dark_yellow=3, green=10,
/// yellow=11, blue=12, magenta=13, cyan=14, white=15).
pub open spec fn default_theme() -> Theme {
    Theme {
        badge_copy: on(14),
        badge_search: on(13),
        match_: on(3),
        match_current: on(11),
        cursor: on(14),
        indicator: on(11),
        badge_word: on(12),
        badge_line: on(10),
        extract_selected: on(15),
    }
}

fn on_bg(bg: u8) -> (p: ColorPair)
    ensures
        p == on(bg),
{
    ColorPair { fg: Color::Indexed(0), bg: Color::Indexed(bg) }
}

impl Default for Theme {
    fn default() -> (t: Self)
        ensures
            t == default_theme(),
    {
        Theme {
            badge_copy: on_bg(14),
            badge_search: on_bg(13),
            match_: on_bg(3),
            match_current: on_bg(11),
            cursor: on_bg(14),
            indicator: on_bg(11),
            badge_word: on_bg(12),
            badge_line: on_bg(10),
            extract_selected: on_bg(15),
        }
    }
}

// ------------------------------------------------------------ flat TOML

/// `split_once('=')`: the text before and after the first `=`.
pub open spec fn split_eq(line: Seq<char>) -> Option<(Seq<char>, Seq<char>)> {
    match spec_find(line, '=') {
        None => None,
        Some(i) => Some((line.take(i), line.skip(i + 1))),
    }
}

/// The text before the first `#` (all of it when there is none).
pub open spec fn before_hash(v: Seq<char>) -> Seq<char> {
    match spec_find(v, '#') {
        None => v,
        Some(i) => v.take(i),
    }
}

pub open spec fn is_table_header(line: Seq<char>) -> bool {
    line.len() > 0 && line[0] == OPEN_BRACKET
}

/// The raw value after `=` (already trimmed): a quoted value up to and
/// including its closing quote (None when it is not closed), else the
/// text before an inline comment, trimmed.
pub open spec fn raw_value(v: Seq<char>) -> Option<Seq<char>> {
    if v.len() > 0 && v[0] == QUOTE {
        match spec_find(v.drop_first(), QUOTE) {
            None => None,
            Some(e) => Some(v.take(e + 2)),
        }
    } else {
        Some(spec_trim(before_hash(v)))
    }
}

/// The raw value of `key` in the lines from `i` on: the first line whose
/// trimmed name is `key` decides; a table header ends the scan.
pub open spec fn value_from(lines: Seq<Seq<char>>, key: Seq<char>, i: int) -> Option<Seq<char>>
    decreases lines.len() - i,
{
    if i < 0 || i >= lines.len() {
        None
    } else {
        let line = spec_trim(lines[i]);
        if is_table_header(line) {
            None
        } else {
            match split_eq(line) {
                Some((k, v)) => if spec_trim(k) == key {
                    raw_value(spec_trim(v))
                } else {
                    value_from(lines, key, i + 1)
                },
                None => value_from(lines, key, i + 1),
            }
        }
    }
}

/// Raw trimmed value for a top-level key, inline comment stripped;
/// quoted values keep their quotes.
pub open spec fn spec_toml_value(toml: Seq<char>, key: Seq<char>) -> Option<Seq<char>> {
    value_from(spec_lines(toml), key, 0)
}

pub open spec fn spec_toml_int_field(toml: Seq<char>, key: Seq<char>) -> Option<int> {
    match spec_toml_value(toml, key) {
        None => None,
        Some(v) => spec_parse_i64(v),
    }
}

/// A value with its surrounding double quotes removed, when it has both.
pub open spec fn unquote(v: Seq<char>) -> Seq<char> {
    if v.len() >= 2 && v[0] == QUOTE && v.last() == QUOTE {
        v.subrange(1, v.len() - 1)
    } else {
        v
    }
}

pub open spec fn spec_toml_str_field(toml: Seq<char>, key: Seq<char>) -> Option<Seq<char>> {
    match spec_toml_value(toml, key) {
        None => None,
        Some(v) => Some(unquote(v)),
    }
}

/// The trimmed line `lines[i]` as bounds into `cs`.
fn trimmed_line(cs: &Vec<char>, bounds: &Vec<(usize, usize)>, i: usize) -> (r: (usize, usize))
    requires
        i < bounds@.len(),
        bounds_ok(cs@, bounds@),
    ensures
        r.0 <= r.1 <= cs@.len(),
        cs@.subrange(r.0 as int, r.1 as int) == spec_trim(spec_lines(cs@)[i as int]),
{
    let (lo, hi) = bounds[i];
    trim_bounds(cs.as_slice(), lo, hi)
}

pub open spec fn bounds_ok(cs: Seq<char>, bounds: Seq<(usize, usize)>) -> bool {
    crate::text::bounds_spell(cs, bounds, spec_lines(cs))
}

/// Chars `cs[lo..hi]` equal `want`.
fn eq_range(cs: &Vec<char>, lo: usize, hi: usize, want: &Vec<char>) -> (b: bool)
    requires
        lo <= hi <= cs@.len(),
    ensures
        b == (cs@.subrange(lo as int, hi as int) == want@),
{
    if hi - lo != want.len() {
        assert(cs@.subrange(lo as int, hi as int).len() != want@.len());
        return false;
    }
    let mut i: usize = 0;
    while i < want.len()
        invariant
            hi - lo == want@.len(),
            lo <= hi <= cs@.len(),
            i <= want@.len(),
            forall|k: int| 0 <= k < i ==> cs@[lo + k] == #[trigger] want@[k],
        decreases want@.len() - i,
    {
        if cs[lo + i] != want[i] {
            assert(cs@.subrange(lo as int, hi as int)[i as int] != want@[i as int]);
            return false;
        }
        i = i + 1;
    }
    assert(cs@.subrange(lo as int, hi as int) =~= want@);
    true
}

/// Chars `cs[lo..hi]` equal `lit`.
pub fn eq_lit(cs: &Vec<char>, lo: usize, hi: usize, lit: &str) -> (b: bool)
    requires
        lo <= hi <= cs@.len(),
    ensures
        b == (cs@.subrange(lo as int, hi as int) == lit@),
{
    let l = chars_of(lit);
    eq_range(cs, lo, hi, &l)
}

/// Bounds in `cs` of the raw value of `key` (see `spec_toml_value`).
fn toml_value_bounds(cs: &Vec<char>, key: &Vec<char>) -> (r: Option<(usize, usize)>)
    ensures
        match r {
            None => spec_toml_value(cs@, key@) is None,
            Some((lo, hi)) => lo <= hi <= cs@.len() && spec_toml_value(cs@, key@) == Some(
                cs@.subrange(lo as int, hi as int),
            ),
        },
{
    let bounds = line_bounds(cs.as_slice());
    let ghost lines = spec_lines(cs@);
    let mut i: usize = 0;
    while i < bounds.len()
        invariant
            bounds_ok(cs@, bounds@),
            lines == spec_lines(cs@),
            i <= bounds@.len(),
            value_from(lines, key@, 0) == value_from(lines, key@, i as int),
        decreases bounds@.len() - i,
    {
        let (lo, hi) = trimmed_line(cs, &bounds, i);
        let ghost line = cs@.subrange(lo as int, hi as int);
        if lo < hi && cs[lo] == OPEN_BRACKET {
            return None;
        }
        match find_char(cs.as_slice(), lo, hi, '=') {
            None => {},
            Some(e) => {
                let (klo, khi) = trim_bounds(cs.as_slice(), lo, lo + e);
                assert(line.take(e as int) =~= cs@.subrange(lo as int, (lo + e) as int));
                let same = eq_range(cs, klo, khi, key);
                if same {
                    let (vlo, vhi) = trim_bounds(cs.as_slice(), lo + e + 1, hi);
                    assert(line.skip(e + 1) =~= cs@.subrange((lo + e + 1) as int, hi as int));
                    let ghost v = cs@.subrange(vlo as int, vhi as int);
                    if vlo < vhi && cs[vlo] == QUOTE {
                        assert(v.drop_first() =~= cs@.subrange(vlo + 1, vhi as int));
                        match find_char(cs.as_slice(), vlo + 1, vhi, QUOTE) {
                            None => {
                                return None;
                            },
                            Some(q) => {
                                assert(v.take(q + 2) =~= cs@.subrange(vlo as int, vlo + q + 2));
                                return Some((vlo, vlo + q + 2));
                            },
                        }
                    }
                    let end = match find_char(cs.as_slice(), vlo, vhi, '#') {
                        None => vhi,
                        Some(h) => vlo + h,
                    };
                    assert(before_hash(v) =~= cs@.subrange(vlo as int, end as int));
                    let (tlo, thi) = trim_bounds(cs.as_slice(), vlo, end);
                    return Some((tlo, thi));
                }
            },
        }
        i = i + 1;
    }
    None
}

pub fn toml_int_field(toml: &str, key: &str) -> (r: Option<i64>)
    ensures
        match r {
            None => spec_toml_int_field(toml@, key@) is None,
            Some(v) => spec_toml_int_field(toml@, key@) == Some(v as int),
        },
{
    let cs = chars_of(toml);
    let k = chars_of(key);
    match toml_value_bounds(&cs, &k) {
        None => None,
        Some((lo, hi)) => parse_i64(cs.as_slice(), lo, hi),
    }
}

/// The chars `cs[lo..hi]` as a string.
fn string_of_range(cs: &Vec<char>, lo: usize, hi: usize) -> (s: String)
    requires
        lo <= hi <= cs@.len(),
    ensures
        s@ == cs@.subrange(lo as int, hi as int),
{
    let mut out: Vec<char> = Vec::new();
    extend_from(&mut out, cs, lo, hi);
    string_of(out.as_slice())
}

pub fn toml_str_field(toml: &str, key: &str) -> (r: Option<String>)
    ensures
        match r {
            None => spec_toml_str_field(toml@, key@) is None,
            Some(s) => spec_toml_str_field(toml@, key@) == Some(s@),
        },
{
    let cs = chars_of(toml);
    let k = chars_of(key);
    match toml_value_bounds(&cs, &k) {
        None => None,
        Some((lo, hi)) => {
            let ghost v = cs@.subrange(lo as int, hi as int);
            if hi - lo >= 2 && cs[lo] == QUOTE && cs[hi - 1] == QUOTE {
                assert(unquote(v) =~= cs@.subrange(lo + 1, hi - 1));
                Some(string_of_range(&cs, lo + 1, hi - 1))
            } else {
                Some(string_of_range(&cs, lo, hi))
            }
        },
    }
}

// ------------------------------------------------------- pattern keys

pub open spec fn pattern_prefix() -> Seq<char> {
    seq!['p', 'a', 't', 't', 'e', 'r', 'n', '_']
}

/// A `pattern_<k>` override value: a quoted value up to its closing
/// quote (or the end), else the text before an inline comment, trimmed.
pub open spec fn override_value(v: Seq<char>) -> Seq<char> {
    if v.len() > 0 && v[0] == QUOTE {
        match spec_find(v.drop_first(), QUOTE) {
            None => v.drop_first(),
            Some(e) => v.drop_first().take(e),
        }
    } else {
        spec_trim(before_hash(v))
    }
}

/// The `pattern_<k>` overrides in the lines from `i` on, in order.
pub open spec fn overrides_from(lines: Seq<Seq<char>>, i: int) -> Seq<(char, Seq<char>)>
    decreases lines.len() - i,
{
    if i < 0 || i >= lines.len() {
        seq![]
    } else {
        let line = spec_trim(lines[i]);
        if is_table_header(line) {
            seq![]
        } else {
            match split_eq(line) {
                Some((k, v)) => {
                    let name = spec_trim(k);
                    if name.len() == 9 && name.take(8) == pattern_prefix() {
                        seq![(name[8], override_value(spec_trim(v)))] + overrides_from(lines, i + 1)
                    } else {
                        overrides_from(lines, i + 1)
                    }
                },
                None => overrides_from(lines, i + 1),
            }
        }
    }
}

/// All `pattern_<k> = "regex"` overrides in document order, where `<k>`
/// is a single menu-key char; an empty value is kept (it disables `<k>`).
pub open spec fn spec_pattern_overrides(toml: Seq<char>) -> Seq<(char, Seq<char>)> {
    overrides_from(spec_lines(toml), 0)
}

pub open spec fn overrides_view(v: Seq<(char, String)>) -> Seq<(char, Seq<char>)> {
    v.map_values(|p: (char, String)| (p.0, p.1@))
}

pub fn pattern_overrides(toml: &str) -> (out: Vec<(char, String)>)
    ensures
        overrides_view(out@) == spec_pattern_overrides(toml@),
{
    let cs = chars_of(toml);
    let bounds = line_bounds(cs.as_slice());
    let ghost lines = spec_lines(cs@);
    let mut out: Vec<(char, String)> = Vec::new();
    let mut i: usize = 0;
    while i < bounds.len()
        invariant
            bounds_ok(cs@, bounds@),
            lines == spec_lines(cs@),
            cs@ == toml@,
            i <= bounds@.len(),
            overrides_view(out@) + overrides_from(lines, i as int) == overrides_from(lines, 0),
        decreases bounds@.len() - i,
    {
        let (lo, hi) = trimmed_line(&cs, &bounds, i);
        let ghost line = cs@.subrange(lo as int, hi as int);
        if lo < hi && cs[lo] == OPEN_BRACKET {
            assert(overrides_from(lines, i as int) =~= Seq::<(char, Seq<char>)>::empty());
            assert(overrides_from(lines, bounds@.len() as int) =~= Seq::<(char, Seq<char>)>::empty());
            i = bounds.len();
            continue;
        }
        match find_char(cs.as_slice(), lo, hi, '=') {
            None => {},
            Some(e) => {
                let (klo, khi) = trim_bounds(cs.as_slice(), lo, lo + e);
                assert(line.take(e as int) =~= cs@.subrange(lo as int, (lo + e) as int));
                let ghost name = cs@.subrange(klo as int, khi as int);
                if khi - klo == 9 && eq_lit(&cs, klo, klo + 8, "pattern_") {
                    proof {
                        reveal_strlit("pattern_");
                        assert(name.take(8) =~= cs@.subrange(klo as int, klo + 8));
                        assert("pattern_"@ =~= pattern_prefix());
                    }
                    let key = cs[klo + 8];
                    let (vlo, vhi) = trim_bounds(cs.as_slice(), lo + e + 1, hi);
                    assert(line.skip(e + 1) =~= cs@.subrange((lo + e + 1) as int, hi as int));
                    let ghost v = cs@.subrange(vlo as int, vhi as int);
                    let value = if vlo < vhi && cs[vlo] == QUOTE {
                        assert(v.drop_first() =~= cs@.subrange(vlo + 1, vhi as int));
                        match find_char(cs.as_slice(), vlo + 1, vhi, QUOTE) {
                            None => string_of_range(&cs, vlo + 1, vhi),
                            Some(q) => {
                                assert(v.drop_first().take(q as int) =~= cs@.subrange(
                                    vlo + 1,
                                    vlo + 1 + q,
                                ));
                                string_of_range(&cs, vlo + 1, vlo + 1 + q)
                            },
                        }
                    } else {
                        let end = match find_char(cs.as_slice(), vlo, vhi, '#') {
                            None => vhi,
                            Some(h) => vlo + h,
                        };
                        assert(before_hash(v) =~= cs@.subrange(vlo as int, end as int));
                        let (tlo, thi) = trim_bounds(cs.as_slice(), vlo, end);
                        string_of_range(&cs, tlo, thi)
                    };
                    let ghost before = out@;
                    out.push((key, value));
                    assert(overrides_view(out@) =~= overrides_view(before).push((key, value@)));
                } else {
                    proof {
                        reveal_strlit("pattern_");
                        if name.len() == 9 && name.take(8) == pattern_prefix() {
                            assert(name.take(8) =~= cs@.subrange(klo as int, klo + 8));
                            assert("pattern_"@ =~= pattern_prefix());
                        }
                    }
                }
            },
        }
        i = i + 1;
    }
    assert(overrides_from(lines, i as int) =~= Seq::<(char, Seq<char>)>::empty());
    assert(overrides_view(out@) =~= overrides_from(lines, 0));
    out
}


// ---------------------------------------------------------------- colors

/// Value of an ASCII hex digit.
pub open spec fn hex_val(c: char) -> Option<nat> {
    if '0' <= c && c <= '9' {
        Some((c as u32 - '0' as u32) as nat)
    } else if 'a' <= c && c <= 'f' {
        Some((c as u32 - 'a' as u32 + 10) as nat)
    } else if 'A' <= c && c <= 'F' {
        Some((c as u32 - 'A' as u32 + 10) as nat)
    } else {
        None
    }
}

/// `u8::from_str_radix` on two chars in base 16 (a leading `+` is
/// accepted there, so `+f` reads as 15).
pub open spec fn hex_byte(a: char, b: char) -> Option<nat> {
    if a == '+' {
        hex_val(b)
    } else {
        match (hex_val(a), hex_val(b)) {
            (Some(x), Some(y)) => Some(16 * x + y),
            _ => None,
        }
    }
}

/// `rrggbb` as a color. A six-byte value with a non-ASCII char has
/// fewer than six chars and reads as no color, as do other lengths.
pub open spec fn hex_color(hex: Seq<char>) -> Option<Color> {
    if hex.len() != 6 {
        None
    } else {
        match (hex_byte(hex[0], hex[1]), hex_byte(hex[2], hex[3]), hex_byte(hex[4], hex[5])) {
            (Some(r), Some(g), Some(b)) => Some(Color::Rgb(r as u8, g as u8, b as u8)),
            _ => None,
        }
    }
}

/// The palette index of a crossterm-style color name.
pub open spec fn spec_named_color(name: Seq<char>) -> Option<u8> {
    if name == "black"@ {
        Some(0)
    } else if name == "dark_red"@ {
        Some(1)
    } else if name == "dark_green"@ {
        Some(2)
    } else if name == "dark_yellow"@ {
        Some(3)
    } else if name == "dark_blue"@ {
        Some(4)
    } else if name == "dark_magenta"@ {
        Some(5)
    } else if name == "dark_cyan"@ {
        Some(6)
    } else if name == "grey"@ || name == "gray"@ {
        Some(7)
    } else if name == "dark_grey"@ || name == "dark_gray"@ {
        Some(8)
    } else if name == "red"@ {
        Some(9)
    } else if name == "green"@ {
        Some(10)
    } else if name == "yellow"@ {
        Some(11)
    } else if name == "blue"@ {
        Some(12)
    } else if name == "magenta"@ {
        Some(13)
    } else if name == "cyan"@ {
        Some(14)
    } else if name == "white"@ {
        Some(15)
    } else {
        None
    }
}

/// A config color value: `#rrggbb`, a 0-255 palette index, or a color
/// name; None on anything unrecognized.
pub open spec fn spec_parse_color(s: Seq<char>) -> Option<Color> {
    let t = spec_trim(s);
    if t.len() > 0 && t[0] == '#' {
        hex_color(t.drop_first())
    } else if t.len() > 0 && crate::text::spec_all_digits(t) {
        match spec_parse_bounded(t, 255) {
            Some(n) => Some(Color::Indexed(n as u8)),
            None => None,
        }
    } else {
        match spec_named_color(t) {
            Some(n) => Some(Color::Indexed(n)),
            None => None,
        }
    }
}

fn hex_digit(c: char) -> (r: Option<u8>)
    ensures
        match r {
            Some(v) => hex_val(c) == Some(v as nat),
            None => hex_val(c) is None,
        },
{
    if '0' <= c && c <= '9' {
        Some((c as u32 - '0' as u32) as u8)
    } else if 'a' <= c && c <= 'f' {
        Some((c as u32 - 'a' as u32 + 10) as u8)
    } else if 'A' <= c && c <= 'F' {
        Some((c as u32 - 'A' as u32 + 10) as u8)
    } else {
        None
    }
}

fn parse_hex_byte(a: char, b: char) -> (r: Option<u8>)
    ensures
        match r {
            Some(v) => hex_byte(a, b) == Some(v as nat),
            None => hex_byte(a, b) is None,
        },
{
    if a == '+' {
        return hex_digit(b);
    }
    match (hex_digit(a), hex_digit(b)) {
        (Some(x), Some(y)) => Some(16 * x + y),
        _ => None,
    }
}

fn named_color(cs: &Vec<char>, lo: usize, hi: usize) -> (r: Option<u8>)
    requires
        lo <= hi <= cs@.len(),
    ensures
        r == spec_named_color(cs@.subrange(lo as int, hi as int)),
{
    if eq_lit(cs, lo, hi, "black") {
        Some(0)
    } else if eq_lit(cs, lo, hi, "dark_red") {
        Some(1)
    } else if eq_lit(cs, lo, hi, "dark_green") {
        Some(2)
    } else if eq_lit(cs, lo, hi, "dark_yellow") {
        Some(3)
    } else if eq_lit(cs, lo, hi, "dark_blue") {
        Some(4)
    } else if eq_lit(cs, lo, hi, "dark_magenta") {
        Some(5)
    } else if eq_lit(cs, lo, hi, "dark_cyan") {
        Some(6)
    } else if eq_lit(cs, lo, hi, "grey") || eq_lit(cs, lo, hi, "gray") {
        Some(7)
    } else if eq_lit(cs, lo, hi, "dark_grey") || eq_lit(cs, lo, hi, "dark_gray") {
        Some(8)
    } else if eq_lit(cs, lo, hi, "red") {
        Some(9)
    } else if eq_lit(cs, lo, hi, "green") {
        Some(10)
    } else if eq_lit(cs, lo, hi, "yellow") {
        Some(11)
    } else if eq_lit(cs, lo, hi, "blue") {
        Some(12)
    } else if eq_lit(cs, lo, hi, "magenta") {
        Some(13)
    } else if eq_lit(cs, lo, hi, "cyan") {
        Some(14)
    } else if eq_lit(cs, lo, hi, "white") {
        Some(15)
    } else {
        None
    }
}

/// Parse a config color value: `#rrggbb`, a 0-255 palette index, or a
/// crossterm-style color name. None on anything unrecognized so the
/// caller keeps its default.
pub fn parse_color(s: &str) -> (r: Option<Color>)
    ensures
        r == spec_parse_color(s@),
{
    let cs = chars_of(s);
    let (lo, hi) = trim_bounds(cs.as_slice(), 0, cs.len());
    assert(cs@.subrange(0, cs@.len() as int) =~= cs@);
    let ghost t = cs@.subrange(lo as int, hi as int);
    if lo < hi && cs[lo] == '#' {
        if hi - lo - 1 != 6 {
            return None;
        }
        let r = parse_hex_byte(cs[lo + 1], cs[lo + 2]);
        let g = parse_hex_byte(cs[lo + 3], cs[lo + 4]);
        let b = parse_hex_byte(cs[lo + 5], cs[lo + 6]);
        return match (r, g, b) {
            (Some(r), Some(g), Some(b)) => Some(Color::Rgb(r, g, b)),
            _ => None,
        };
    }
    let mut all = lo < hi;
    let mut i = lo;
    while i < hi
        invariant
            lo <= i <= hi <= cs@.len(),
            all == (lo < hi && forall|k: int| lo <= k < i ==> crate::text::spec_is_ascii_digit(
                #[trigger] cs@[k],
            )),
        decreases hi - i,
    {
        all = all && '0' <= cs[i] && cs[i] <= '9';
        i = i + 1;
    }
    assert(all == (t.len() > 0 && crate::text::spec_all_digits(t))) by {
        if t.len() > 0 && crate::text::spec_all_digits(t) {
            assert forall|k: int| lo <= k < hi implies crate::text::spec_is_ascii_digit(
                cs@[k],
            ) by {
                assert(t[k - lo] == cs@[k]);
            }
        }
    }
    if all {
        return match parse_bounded(cs.as_slice(), lo, hi, 255) {
            Some(n) => Some(Color::Indexed(n as u8)),
            None => None,
        };
    }
    match named_color(&cs, lo, hi) {
        Some(n) => Some(Color::Indexed(n)),
        None => None,
    }
}



pub open spec fn spec_config_from(toml: Seq<char>) -> Config {
    let h = match spec_toml_int_field(toml, "extract_height"@) {
        Some(v) => v,
        None => DEFAULT_EXTRACT_HEIGHT as int,
    };
    Config { extract_height: (if h < 1 { 1 } else if h > 100 { 100 } else { h }) as u8 }
}

impl Config {
    pub fn from_toml(text: &str) -> (c: Self)
        ensures
            c == spec_config_from(text@),
    {
        let h: i64 = match toml_int_field(text, "extract_height") {
            Some(v) => v,
            None => DEFAULT_EXTRACT_HEIGHT as i64,
        };
        let c: i64 = if h < 1 {
            1
        } else if h > 100 {
            100
        } else {
            h
        };
        Config { extract_height: c as u8 }
    }
}

/// A color value under `key` when it is present and parses.
pub open spec fn color_field(toml: Seq<char>, key: Seq<char>) -> Option<Color> {
    match spec_toml_str_field(toml, key) {
        Some(v) => spec_parse_color(v),
        None => None,
    }
}

/// `pair` with the `fg`/`bg` overrides found under the two keys.
pub open spec fn pair_override(toml: Seq<char>, pair: ColorPair, fg: Seq<char>, bg: Seq<char>) -> ColorPair {
    ColorPair {
        fg: match color_field(toml, fg) {
            Some(c) => c,
            None => pair.fg,
        },
        bg: match color_field(toml, bg) {
            Some(c) => c,
            None => pair.bg,
        },
    }
}

/// The theme a config text selects: defaults, then `<item>_fg`/`<item>_bg`.
pub open spec fn spec_theme_from(toml: Seq<char>) -> Theme {
    let d = default_theme();
    Theme {
        badge_copy: pair_override(toml, d.badge_copy, "badge_copy_fg"@, "badge_copy_bg"@),
        badge_search: pair_override(toml, d.badge_search, "badge_search_fg"@, "badge_search_bg"@),
        match_: pair_override(toml, d.match_, "match_fg"@, "match_bg"@),
        match_current: pair_override(toml, d.match_current, "match_current_fg"@, "match_current_bg"@),
        cursor: pair_override(toml, d.cursor, "cursor_fg"@, "cursor_bg"@),
        indicator: pair_override(toml, d.indicator, "indicator_fg"@, "indicator_bg"@),
        badge_word: pair_override(toml, d.badge_word, "badge_word_fg"@, "badge_word_bg"@),
        badge_line: pair_override(toml, d.badge_line, "badge_line_fg"@, "badge_line_bg"@),
        extract_selected: pair_override(
            toml,
            d.extract_selected,
            "extract_selected_fg"@,
            "extract_selected_bg"@,
        ),
    }
}

/// Every themed color value present in `toml` parses to completion.

fn color_override(toml: &str, key: &str, dflt: Color) -> (c: Color)
    ensures
        c == (match color_field(toml@, key@) {
            Some(c) => c,
            None => dflt,
        }),
{
    match toml_str_field(toml, key) {
        Some(v) => match parse_color(v.as_str()) {
            Some(c) => c,
            None => dflt,
        },
        None => dflt,
    }
}


impl Theme {
    /// Start from the defaults, then apply any `<item>_fg`/`<item>_bg`
    /// overrides present in the flat config. Missing or unrecognized
    /// values keep the default.
    pub fn from_toml(toml: &str) -> (t: Self)
        ensures
            t == spec_theme_from(toml@),
    {
        let d = Theme::default();
        let pair = |p: ColorPair, fg: &str, bg: &str| -> (r: ColorPair)
            ensures
                r == pair_override(toml@, p, fg@, bg@),
            { ColorPair { fg: color_override(toml, fg, p.fg), bg: color_override(toml, bg, p.bg) } };
        Theme {
            badge_copy: pair(d.badge_copy, "badge_copy_fg", "badge_copy_bg"),
            badge_search: pair(d.badge_search, "badge_search_fg", "badge_search_bg"),
            match_: pair(d.match_, "match_fg", "match_bg"),
            match_current: pair(d.match_current, "match_current_fg", "match_current_bg"),
            cursor: pair(d.cursor, "cursor_fg", "cursor_bg"),
            indicator: pair(d.indicator, "indicator_fg", "indicator_bg"),
            badge_word: pair(d.badge_word, "badge_word_fg", "badge_word_bg"),
            badge_line: pair(d.badge_line, "badge_line_fg", "badge_line_bg"),
            extract_selected: pair(d.extract_selected, "extract_selected_fg", "extract_selected_bg"),
        }
    }
}

} // verus!
