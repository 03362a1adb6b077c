//! Command-line arguments and the opening-view check that compares the
//! source pane's visible screen with the buffer tail.
use vstd::prelude::*;
use crate::buffer::Buffer;
use crate::config::eq_lit;
use crate::text::{chars_of, line_bounds, parse_bounded, spec_lines, spec_parse_bounded, spec_trim_end, trim_end_len};

verus! {

/// The herdr server caps pane reads at ~1000 lines, so asking for more
/// only future-proofs against a raised cap.
pub const DEFAULT_LINES: usize = 1000;

#[derive(Debug, Clone, Copy, PartialEq, Eq, Structural)]
pub enum RunMode {
    Copy,
    Search,
    Extract,
}

#[derive(Debug, PartialEq, Eq)]
pub struct Cli {
    pub mode: RunMode,
    pub input: Option<String>,
    pub pane: Option<String>,
    pub lines: usize,
    /// Extract popup height percent; overrides the config file.
    pub height: Option<u8>,
}

/// Parsed arguments as plain values.
pub struct CliV {
    pub mode: RunMode,
    pub input: Option<Seq<char>>,
    pub pane: Option<Seq<char>>,
    pub lines: usize,
    pub height: Option<u8>,
}

impl View for Cli {
    type V = CliV;

    open spec fn view(&self) -> CliV {
        CliV {
            mode: self.mode,
            input: crate::app::opt_str(self.input),
            pane: crate::app::opt_str(self.pane),
            lines: self.lines,
            height: self.height,
        }
    }
}

pub open spec fn default_cli() -> CliV {
    CliV { mode: RunMode::Copy, input: None, pane: None, lines: DEFAULT_LINES, height: None }
}

pub open spec fn needs_value(name: Seq<char>) -> Seq<char> {
    name + " needs a value"@
}

/// The arguments from index `i` on, applied to `c`.
pub open spec fn parse_from(args: Seq<Seq<char>>, i: int, c: CliV) -> Result<CliV, Seq<char>>
    decreases args.len() - i,
{
    if i < 0 || i >= args.len() {
        Ok(c)
    } else {
        let a = args[i];
        let more = i + 1 < args.len();
        let v = args[i + 1];
        if a == "--mode"@ {
            if !more {
                Err(needs_value("--mode"@))
            } else if v == "copy"@ {
                parse_from(args, i + 2, CliV { mode: RunMode::Copy, ..c })
            } else if v == "search"@ {
                parse_from(args, i + 2, CliV { mode: RunMode::Search, ..c })
            } else if v == "extract"@ {
                parse_from(args, i + 2, CliV { mode: RunMode::Extract, ..c })
            } else {
                Err("unknown mode: "@ + v)
            }
        } else if a == "--input"@ {
            if !more {
                Err(needs_value("--input"@))
            } else {
                parse_from(args, i + 2, CliV { input: Some(v), ..c })
            }
        } else if a == "--pane"@ {
            if !more {
                Err(needs_value("--pane"@))
            } else {
                parse_from(args, i + 2, CliV { pane: Some(v), ..c })
            }
        } else if a == "--lines"@ {
            if !more {
                Err(needs_value("--lines"@))
            } else {
                match spec_parse_bounded(v, usize::MAX as nat) {
                    Some(n) => parse_from(args, i + 2, CliV { lines: n as usize, ..c }),
                    None => Err("--lines needs a number"@),
                }
            }
        } else if a == "--height"@ {
            if !more {
                Err(needs_value("--height"@))
            } else {
                match spec_parse_bounded(v, 255) {
                    None => Err("--height needs a number"@),
                    Some(p) => if p < 1 || p > 100 {
                        Err("--height must be 1-100"@)
                    } else {
                        parse_from(args, i + 2, CliV { height: Some(p as u8), ..c })
                    },
                }
            }
        } else {
            Err("unknown argument: "@ + a)
        }
    }
}

pub open spec fn args_view(args: Seq<String>) -> Seq<Seq<char>> {
    args.map_values(|s: String| s@)
}

fn message(a: &str, b: &str) -> (s: String)
    ensures
        s@ == a@ + b@,
{
    let mut out: Vec<char> = Vec::new();
    crate::text::push_str(&mut out, a);
    crate::text::push_str(&mut out, b);
    crate::text::string_of(out.as_slice())
}

pub fn parse_args(args: Vec<String>) -> (r: Result<Cli, String>)
    ensures
        match r {
            Ok(c) => parse_from(args_view(args@), 0, default_cli()) == Ok::<CliV, Seq<char>>(c@),
            Err(e) => parse_from(args_view(args@), 0, default_cli()) == Err::<CliV, Seq<char>>(e@),
        },
{
    let ghost av = args_view(args@);
    let mut cli = Cli { mode: RunMode::Copy, input: None, pane: None, lines: DEFAULT_LINES, height: None };
    let mut i: usize = 0;
    while i < args.len()
        invariant
            av == args_view(args@),
            i <= args@.len(),
            parse_from(av, 0, default_cli()) == parse_from(av, i as int, cli@),
        decreases args@.len() - i,
    {
        let a = chars_of(args[i].as_str());
        let n = a.len();
        assert(a@ == av[i as int]);
        let more = i + 1 < args.len();
        let ghost v = av[i + 1];
        if eq_lit(&a, 0, n, "--mode") {
            assert(a@.subrange(0, n as int) =~= a@);
            if !more {
                return Err(message("--mode", " needs a value"));
            }
            let v2 = chars_of(args[i + 1].as_str());
            let m = v2.len();
            assert(v2@.subrange(0, m as int) =~= v2@);
            if eq_lit(&v2, 0, m, "copy") {
                cli.mode = RunMode::Copy;
            } else if eq_lit(&v2, 0, m, "search") {
                cli.mode = RunMode::Search;
            } else if eq_lit(&v2, 0, m, "extract") {
                cli.mode = RunMode::Extract;
            } else {
                return Err(message("unknown mode: ", args[i + 1].as_str()));
            }
        } else if eq_lit(&a, 0, n, "--input") {
            assert(a@.subrange(0, n as int) =~= a@);
            if !more {
                return Err(message("--input", " needs a value"));
            }
            cli.input = Some(args[i + 1].clone());
        } else if eq_lit(&a, 0, n, "--pane") {
            assert(a@.subrange(0, n as int) =~= a@);
            if !more {
                return Err(message("--pane", " needs a value"));
            }
            cli.pane = Some(args[i + 1].clone());
        } else if eq_lit(&a, 0, n, "--lines") {
            assert(a@.subrange(0, n as int) =~= a@);
            if !more {
                return Err(message("--lines", " needs a value"));
            }
            let v2 = chars_of(args[i + 1].as_str());
            let m = v2.len();
            assert(v2@.subrange(0, m as int) =~= v2@);
            match parse_bounded(v2.as_slice(), 0, m, usize::MAX as u64) {
                Some(k) => cli.lines = k as usize,
                None => {
                    return Err("--lines needs a number".to_owned());
                },
            }
        } else if eq_lit(&a, 0, n, "--height") {
            assert(a@.subrange(0, n as int) =~= a@);
            if !more {
                return Err(message("--height", " needs a value"));
            }
            let v2 = chars_of(args[i + 1].as_str());
            let m = v2.len();
            assert(v2@.subrange(0, m as int) =~= v2@);
            match parse_bounded(v2.as_slice(), 0, m, 255) {
                None => {
                    return Err("--height needs a number".to_owned());
                },
                Some(p) => {
                    if p < 1 || p > 100 {
                        return Err("--height must be 1-100".to_owned());
                    }
                    cli.height = Some(p as u8);
                },
            }
        } else {
            assert(a@.subrange(0, n as int) =~= a@);
            return Err(message("unknown argument: ", args[i].as_str()));
        }
        i = i + 2;
    }
    Ok(cli)
}

/// Whether `a[alo..ahi]` and `b[blo..bhi]` agree once trailing
/// whitespace is dropped.
fn same_trimmed(a: &Vec<char>, alo: usize, ahi: usize, b: &Vec<char>, blo: usize, bhi: usize) -> (r: bool)
    requires
        alo <= ahi <= a@.len(),
        blo <= bhi <= b@.len(),
    ensures
        r == (spec_trim_end(a@.subrange(alo as int, ahi as int)) == spec_trim_end(
            b@.subrange(blo as int, bhi as int),
        )),
{
    let na = trim_end_len(a.as_slice(), alo, ahi);
    let nb = trim_end_len(b.as_slice(), blo, bhi);
    let ghost x = a@.subrange(alo as int, alo + na);
    let ghost y = b@.subrange(blo as int, blo + nb);
    let al = a.len();
    let bl = b.len();
    if na != nb {
        assert(x.len() != y.len());
        return false;
    }
    let mut k: usize = 0;
    while k < na
        invariant
            na == nb,
            k <= na,
            al == a@.len(),
            bl == b@.len(),
            spec_trim_end(a@.subrange(alo as int, ahi as int)) == x,
            spec_trim_end(b@.subrange(blo as int, bhi as int)) == y,
            alo + na <= a@.len(),
            blo + nb <= b@.len(),
            x == a@.subrange(alo as int, alo + na),
            y == b@.subrange(blo as int, blo + nb),
            forall|m: int| 0 <= m < k ==> x[m] == y[m],
        decreases na - k,
    {
        if a[alo + k] != b[blo + k] {
            assert(x[k as int] != y[k as int]);
            return false;
        }
        k = k + 1;
    }
    assert(x =~= y);
    true
}

/// Rows of the source pane's screen when the visible read equals the
/// buffer tail row by row (modulo trailing whitespace); None otherwise.
pub open spec fn spec_screen_rows(buf: Buffer, visible: Seq<char>) -> Option<usize> {
    let rows = spec_lines(visible);
    let n = rows.len();
    let len = buf.lines@.len();
    if n == 0 || n > len {
        None
    } else if forall|i: int|
        0 <= i < n ==> spec_trim_end(#[trigger] buf.row(len - n + i)) == spec_trim_end(rows[i]) {
        Some(n as usize)
    } else {
        None
    }
}

pub fn screen_rows(buf: &Buffer, visible: &str) -> (r: Option<usize>)
    ensures
        r == spec_screen_rows(*buf, visible@),
{
    let vs = chars_of(visible);
    let rows = line_bounds(vs.as_slice());
    let ghost lines = spec_lines(vs@);
    let n = rows.len();
    let len = buf.lines.len();
    if n == 0 || n > len {
        return None;
    }
    let start = len - n;
    let mut i: usize = 0;
    while i < n
        invariant
            crate::text::bounds_spell(vs@, rows@, lines),
            lines == spec_lines(visible@),
            vs@ == visible@,
            n == rows@.len(),
            len == buf.lines@.len(),
            start == len - n,
            i <= n,
            forall|k: int| 0 <= k < i ==> spec_trim_end(#[trigger] buf.row(len - n + k)) == spec_trim_end(lines[k]),
        decreases n - i,
    {
        let line = &buf.lines[start + i];
        let (lo, hi) = rows[i];
        if !same_trimmed(&line.chars, 0, line.chars.len(), &vs, lo, hi) {
            assert(line.chars@.subrange(0, line.chars@.len() as int) =~= buf.row((start + i) as int));
            return None;
        }
        assert(line.chars@.subrange(0, line.chars@.len() as int) =~= buf.row((start + i) as int));
        i = i + 1;
    }
    Some(n)
}

} // verus!

verus! {

/// Whether herdr's styled read holds anything but whitespace.
pub open spec fn spec_has_styled_rows(wrapped_ansi: Seq<char>) -> bool {
    crate::text::spec_trim(wrapped_ansi).len() > 0
}

pub fn has_styled_rows(wrapped_ansi: &str) -> (b: bool)
    ensures
        b == spec_has_styled_rows(wrapped_ansi@),
{
    let cs = chars_of(wrapped_ansi);
    let (lo, hi) = crate::text::trim_bounds(cs.as_slice(), 0, cs.len());
    assert(cs@.subrange(0, cs@.len() as int) =~= cs@);
    lo < hi
}

/// The buffer from herdr's pane reads: with no styled rows, the plain
/// logical text and no screen anchor; else the styled rows aligned by
/// the logical text, anchored where the visible screen matches its tail.
pub fn pane_buffer(unwrapped: &str, wrapped_ansi: &str, visible: &str) -> (r: (Buffer, Option<usize>))
    ensures
        r.0.wf(),
        !spec_has_styled_rows(wrapped_ansi@) ==> crate::buffer::rows_v(r.0.lines@)
            == crate::buffer::spec_finalize(crate::buffer::text_rows(unwrapped@)) && r.1 is None,
        spec_has_styled_rows(wrapped_ansi@) ==> crate::buffer::rows_v(r.0.lines@)
            == crate::buffer::spec_finalize(crate::buffer::read_rows(unwrapped@, wrapped_ansi@)) && r.1
            == spec_screen_rows(r.0, visible@),
{
    if !has_styled_rows(wrapped_ansi) {
        return (Buffer::from_text(unwrapped), None);
    }
    let buf = Buffer::from_reads(unwrapped, wrapped_ansi);
    let rows = screen_rows(&buf, visible);
    (buf, rows)
}

} // verus!
