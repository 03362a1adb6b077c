//! Character-level text helpers shared by the parsers and views: the
//! `str` operations the library relies on, restated over `Seq<char>`.
use vstd::prelude::*;

verus! {

/// The chars of a string slice, in order.
pub fn chars_of(s: &str) -> (out: Vec<char>)
    ensures
        out@ == s@,
{
    let mut out: Vec<char> = Vec::new();
    for c in it: s.chars()
        invariant
            out@ == it.seq().take(it.index() as int),
            it.seq() == s@,
    {
        out.push(c);
    }
    out
}

/// A string holding exactly the given chars (`FromIterator<&char>` of std).
#[verifier::external_body]
pub(crate) fn string_of(cs: &[char]) -> (s: String)
    ensures
        s@ == cs@,
{
    cs.iter().collect()
}

/// Unicode White_Space, exactly the set `char::is_whitespace` accepts.
pub open spec fn spec_is_whitespace(c: char) -> bool {
    ||| ('\t' <= c && c <= '\r')
    ||| c == ' '
    ||| c == '\u{85}'
    ||| c == '\u{A0}'
    ||| c == '\u{1680}'
    ||| ('\u{2000}' <= c && c <= '\u{200A}')
    ||| c == '\u{2028}'
    ||| c == '\u{2029}'
    ||| c == '\u{202F}'
    ||| c == '\u{205F}'
    ||| c == '\u{3000}'
}

pub fn is_whitespace(c: char) -> (b: bool)
    ensures
        b == spec_is_whitespace(c),
{
    ('\t' <= c && c <= '\r') || c == ' ' || c == '\u{85}' || c == '\u{A0}' || c == '\u{1680}'
        || ('\u{2000}' <= c && c <= '\u{200A}') || c == '\u{2028}' || c == '\u{2029}'
        || c == '\u{202F}' || c == '\u{205F}' || c == '\u{3000}'
}

pub open spec fn spec_is_ascii_digit(c: char) -> bool {
    '0' <= c && c <= '9'
}

pub open spec fn spec_to_ascii_lowercase(c: char) -> char {
    if 'A' <= c && c <= 'Z' {
        ((c as u32) + 32) as char
    } else {
        c
    }
}

pub fn to_ascii_lowercase(c: char) -> (r: char)
    ensures
        r == spec_to_ascii_lowercase(c),
{
    if 'A' <= c && c <= 'Z' {
        let b: u8 = (c as u8) + 32;
        b as char
    } else {
        c
    }
}

/// Everything but a trailing run of whitespace (`str::trim_end`).
pub open spec fn spec_trim_end(s: Seq<char>) -> Seq<char>
    decreases s.len(),
{
    if s.len() > 0 && spec_is_whitespace(s.last()) {
        spec_trim_end(s.drop_last())
    } else {
        s
    }
}

/// Everything but a leading run of whitespace (`str::trim_start`).
pub open spec fn spec_trim_start(s: Seq<char>) -> Seq<char>
    decreases s.len(),
{
    if s.len() > 0 && spec_is_whitespace(s[0]) {
        spec_trim_start(s.drop_first())
    } else {
        s
    }
}

/// `str::trim`: whitespace removed from both ends.
pub open spec fn spec_trim(s: Seq<char>) -> Seq<char> {
    spec_trim_start(spec_trim_end(s))
}

pub proof fn lemma_trim_end_is_prefix(s: Seq<char>)
    ensures
        spec_trim_end(s).len() <= s.len(),
        spec_trim_end(s) =~= s.take(spec_trim_end(s).len() as int),
    decreases s.len(),
{
    if s.len() > 0 && spec_is_whitespace(s.last()) {
        lemma_trim_end_is_prefix(s.drop_last());
    }
}

pub proof fn lemma_trim_start_is_suffix(s: Seq<char>)
    ensures
        spec_trim_start(s).len() <= s.len(),
        spec_trim_start(s) =~= s.skip(s.len() - spec_trim_start(s).len()),
    decreases s.len(),
{
    if s.len() > 0 && spec_is_whitespace(s[0]) {
        lemma_trim_start_is_suffix(s.drop_first());
    }
}

/// Length of `s[lo..hi]` once its trailing whitespace is dropped.
pub fn trim_end_len(s: &[char], lo: usize, hi: usize) -> (n: usize)
    requires
        lo <= hi <= s@.len(),
    ensures
        n <= hi - lo,
        spec_trim_end(s@.subrange(lo as int, hi as int)) =~= s@.subrange(lo as int, lo + n),
{
    let mut e = hi;
    while e > lo && is_whitespace(s[e - 1])
        invariant
            lo <= e <= hi <= s@.len(),
            spec_trim_end(s@.subrange(lo as int, hi as int)) =~= spec_trim_end(
                s@.subrange(lo as int, e as int),
            ),
        decreases e,
    {
        assert(s@.subrange(lo as int, e as int).drop_last() =~= s@.subrange(
            lo as int,
            e - 1,
        ));
        e = e - 1;
    }
    e - lo
}

/// Number of leading whitespace chars of `s[lo..hi]`.
pub fn trim_start_skip(s: &[char], lo: usize, hi: usize) -> (n: usize)
    requires
        lo <= hi <= s@.len(),
    ensures
        n <= hi - lo,
        spec_trim_start(s@.subrange(lo as int, hi as int)) =~= s@.subrange(lo + n, hi as int),
{
    let mut b = lo;
    while b < hi && is_whitespace(s[b])
        invariant
            lo <= b <= hi <= s@.len(),
            spec_trim_start(s@.subrange(lo as int, hi as int)) =~= spec_trim_start(
                s@.subrange(b as int, hi as int),
            ),
        decreases hi - b,
    {
        assert(s@.subrange(b as int, hi as int).drop_first() =~= s@.subrange(
            b + 1,
            hi as int,
        ));
        b = b + 1;
    }
    b - lo
}

/// `str::trim` over `s[lo..hi]`, as the bounds of what remains.
pub fn trim_bounds(s: &[char], lo: usize, hi: usize) -> (r: (usize, usize))
    requires
        lo <= hi <= s@.len(),
    ensures
        lo <= r.0 <= r.1 <= hi,
        spec_trim(s@.subrange(lo as int, hi as int)) =~= s@.subrange(r.0 as int, r.1 as int),
{
    let n = trim_end_len(s, lo, hi);
    let e = lo + n;
    let k = trim_start_skip(s, lo, e);
    (lo + k, e)
}

/// Index of the first occurrence of `c` in `s`.
pub open spec fn spec_find(s: Seq<char>, c: char) -> Option<int>
    decreases s.len(),
{
    if s.len() == 0 {
        None
    } else if s[0] == c {
        Some(0)
    } else {
        match spec_find(s.drop_first(), c) {
            Some(i) => Some(i + 1),
            None => None,
        }
    }
}

pub proof fn lemma_find_props(s: Seq<char>, c: char)
    ensures
        spec_find(s, c) matches Some(i) ==> 0 <= i < s.len() && s[i] == c && forall|j: int|
            0 <= j < i ==> s[j] != c,
        spec_find(s, c) is None ==> forall|j: int| 0 <= j < s.len() ==> s[j] != c,
    decreases s.len(),
{
    if s.len() > 0 && s[0] != c {
        lemma_find_props(s.drop_first(), c);
        assert forall|j: int| 1 <= j < s.len() implies s[j] == s.drop_first()[j - 1] by {}
    }
}

/// The first index `i` in `lo..hi` with `s[i] == c`, characterised by
/// its defining property.
pub proof fn lemma_find_unique(s: Seq<char>, c: char, i: int)
    requires
        0 <= i < s.len(),
        s[i] == c,
        forall|j: int| 0 <= j < i ==> s[j] != c,
    ensures
        spec_find(s, c) == Some(i),
{
    lemma_find_props(s, c);
}

pub proof fn lemma_find_none(s: Seq<char>, c: char)
    requires
        forall|j: int| 0 <= j < s.len() ==> s[j] != c,
    ensures
        spec_find(s, c) is None,
{
    lemma_find_props(s, c);
}

/// First index of `c` in `s[lo..hi]`, relative to `lo`.
pub fn find_char(s: &[char], lo: usize, hi: usize, c: char) -> (r: Option<usize>)
    requires
        lo <= hi <= s@.len(),
    ensures
        match r {
            Some(i) => spec_find(s@.subrange(lo as int, hi as int), c) == Some(i as int),
            None => spec_find(s@.subrange(lo as int, hi as int), c) is None,
        },
        r matches Some(i) ==> lo + i < hi,
{
    let mut i = lo;
    while i < hi
        invariant
            lo <= i <= hi <= s@.len(),
            forall|j: int| lo <= j < i ==> s@[j] != c,
        decreases hi - i,
    {
        if s[i] == c {
            proof {
                lemma_find_unique(s@.subrange(lo as int, hi as int), c, i - lo);
            }
            return Some(i - lo);
        }
        i = i + 1;
    }
    proof {
        lemma_find_none(s@.subrange(lo as int, hi as int), c);
    }
    None
}

/// `str::split(sep)`: the pieces between separators (at least one).
pub open spec fn spec_split(s: Seq<char>, sep: char) -> Seq<Seq<char>>
    decreases s.len(),
{
    match spec_find(s, sep) {
        None => seq![s],
        Some(i) => {
            if 0 <= i < s.len() {
                seq![s.take(i)] + spec_split(s.skip(i + 1), sep)
            } else {
                seq![s]
            }
        },
    }
}

/// A line of `str::lines`: a trailing `\r` is dropped with its `\n`.
pub open spec fn spec_strip_cr(s: Seq<char>) -> Seq<char> {
    if s.len() > 0 && s.last() == '\r' {
        s.drop_last()
    } else {
        s
    }
}

/// `str::lines`: split at `\n` (dropping the `\r` of a `\r\n`); a final
/// line ending adds no empty line and an empty text has no lines.
pub open spec fn spec_lines(s: Seq<char>) -> Seq<Seq<char>>
    decreases s.len(),
{
    if s.len() == 0 {
        seq![]
    } else {
        match spec_find(s, '\n') {
            None => seq![s],
            Some(i) => {
                if 0 <= i < s.len() {
                    seq![spec_strip_cr(s.take(i))] + spec_lines(s.skip(i + 1))
                } else {
                    seq![s]
                }
            },
        }
    }
}

/// Each `(lo, hi)` of `bounds` selects, from `s`, the matching element
/// of `pieces`.
pub open spec fn bounds_spell(s: Seq<char>, bounds: Seq<(usize, usize)>, pieces: Seq<Seq<char>>) -> bool {
    &&& bounds.len() == pieces.len()
    &&& forall|k: int|
        0 <= k < bounds.len() ==> {
            &&& #[trigger] bounds[k].0 <= bounds[k].1 <= s.len()
            &&& s.subrange(bounds[k].0 as int, bounds[k].1 as int) == pieces[k]
        }
}

/// Bounds of each line of `s` as `str::lines` yields them.
#[verifier::spinoff_prover]
pub fn line_bounds(s: &[char]) -> (out: Vec<(usize, usize)>)
    ensures
        bounds_spell(s@, out@, spec_lines(s@)),
{
    let mut out: Vec<(usize, usize)> = Vec::new();
    let mut pos: usize = 0;
    let ghost done: Seq<Seq<char>> = seq![];
    assert(s@.skip(0) =~= s@);
    assert(done + spec_lines(s@) =~= spec_lines(s@));
    while pos < s.len()
        invariant
            pos <= s@.len(),
            done + spec_lines(s@.skip(pos as int)) == spec_lines(s@),
            bounds_spell(s@, out@, done),
        decreases s@.len() - pos,
    {
        let rest = Ghost(s@.skip(pos as int));
        assert(s@.subrange(pos as int, s@.len() as int) =~= rest@);
        match find_char(s, pos, s.len(), '\n') {
            None => {
                proof {
                    assert(spec_lines(rest@) == seq![rest@]);
                    done = done.push(rest@);
                }
                out.push((pos, s.len()));
                pos = s.len();
                assert(s@.skip(pos as int) =~= Seq::<char>::empty());
                assert(done + spec_lines(s@.skip(pos as int)) =~= done);
            },
            Some(i) => {
                let e = pos + i;
                let end = if e > pos && s[e - 1] == '\r' {
                    e - 1
                } else {
                    e
                };
                proof {
                    let line = spec_strip_cr(rest@.take(i as int));
                    assert(rest@.take(i as int) =~= s@.subrange(pos as int, e as int));
                    assert(s@.subrange(pos as int, end as int) =~= line);
                    assert(rest@.skip(i + 1) =~= s@.skip(e + 1));
                    assert(spec_lines(rest@) == seq![line] + spec_lines(rest@.skip(i + 1)));
                    assert(done + spec_lines(rest@) =~= done.push(line) + spec_lines(
                        s@.skip(e + 1),
                    ));
                    done = done.push(line);
                }
                out.push((pos, end));
                pos = e + 1;
            },
        }
    }
    proof {
        assert(s@.skip(pos as int) =~= Seq::<char>::empty());
        assert(done =~= spec_lines(s@));
        assert(bounds_spell(s@, out@, done));
    }
    out
}

/// Bytes of `c` in UTF-8 (`char::len_utf8`).
pub open spec fn spec_utf8_len(c: char) -> nat {
    if (c as u32) < 0x80 {
        1
    } else if (c as u32) < 0x800 {
        2
    } else if (c as u32) < 0x10000 {
        3
    } else {
        4
    }
}

/// Byte offset of char index `k` in the UTF-8 encoding of `s`.
pub open spec fn spec_byte_offset(s: Seq<char>, k: int) -> nat
    decreases k,
{
    if k <= 0 || s.len() == 0 {
        0
    } else if k > s.len() {
        spec_byte_offset(s, s.len() as int)
    } else {
        spec_byte_offset(s, k - 1) + spec_utf8_len(s[k - 1])
    }
}

pub fn utf8_len(c: char) -> (n: usize)
    ensures
        n == spec_utf8_len(c),
{
    let u = c as u32;
    if u < 0x80 {
        1
    } else if u < 0x800 {
        2
    } else if u < 0x10000 {
        3
    } else {
        4
    }
}

pub proof fn lemma_byte_offset_strict(s: Seq<char>, a: int, b: int)
    requires
        0 <= a < b <= s.len(),
    ensures
        spec_byte_offset(s, a) < spec_byte_offset(s, b),
    decreases b - a,
{
    if a + 1 < b {
        lemma_byte_offset_strict(s, a, b - 1);
    }
}

pub proof fn lemma_byte_offset_mono(s: Seq<char>, a: int, b: int)
    requires
        0 <= a <= b <= s.len(),
    ensures
        spec_byte_offset(s, a) <= spec_byte_offset(s, b),
{
    if a < b {
        lemma_byte_offset_strict(s, a, b);
    }
}

} // verus!

verus! {

pub open spec fn spec_digit_value(c: char) -> nat {
    ((c as u32) - ('0' as u32)) as nat
}

pub open spec fn spec_all_digits(s: Seq<char>) -> bool {
    forall|i: int| 0 <= i < s.len() ==> spec_is_ascii_digit(#[trigger] s[i])
}

/// Value of a run of decimal digits.
pub open spec fn spec_digits_value(s: Seq<char>) -> nat
    decreases s.len(),
{
    if s.len() == 0 {
        0
    } else {
        10 * spec_digits_value(s.drop_last()) + spec_digit_value(s.last())
    }
}

/// Magnitude accepted by `from_str` for an unsigned integer: an optional
/// `+`, then at least one ASCII digit and nothing else.
pub open spec fn spec_parse_unsigned(s: Seq<char>) -> Option<nat> {
    let body = if s.len() > 0 && s[0] == '+' {
        s.drop_first()
    } else {
        s
    };
    if body.len() == 0 || !spec_all_digits(body) {
        None
    } else {
        Some(spec_digits_value(body))
    }
}

/// `str::parse::<uN>()` with `max == uN::MAX`.
pub open spec fn spec_parse_bounded(s: Seq<char>, max: nat) -> Option<nat> {
    match spec_parse_unsigned(s) {
        Some(v) => if v <= max {
            Some(v)
        } else {
            None
        },
        None => None,
    }
}

/// `str::parse::<i64>()`: an optional sign, then decimal digits in range.
pub open spec fn spec_parse_i64(s: Seq<char>) -> Option<int> {
    if s.len() > 0 && s[0] == '-' {
        let body = s.drop_first();
        if body.len() == 0 || !spec_all_digits(body) {
            None
        } else if spec_digits_value(body) <= 0x8000_0000_0000_0000 {
            Some(-(spec_digits_value(body) as int))
        } else {
            None
        }
    } else {
        match spec_parse_bounded(s, 0x7fff_ffff_ffff_ffff) {
            Some(v) => Some(v as int),
            None => None,
        }
    }
}

/// Value of the digits `s[lo..hi]` when it is at most `max`.
fn digits_up_to(s: &[char], lo: usize, hi: usize, max: u64) -> (r: Option<u64>)
    requires
        lo < hi <= s@.len(),
    ensures
        match r {
            Some(v) => spec_all_digits(s@.subrange(lo as int, hi as int)) && v
                == spec_digits_value(s@.subrange(lo as int, hi as int)) && v <= max,
            None => !spec_all_digits(s@.subrange(lo as int, hi as int)) || spec_digits_value(
                s@.subrange(lo as int, hi as int),
            ) > max,
        },
{
    let ghost body = s@.subrange(lo as int, hi as int);
    let mut v: u64 = 0;
    let mut i = lo;
    let mut over = false;
    while i < hi
        invariant
            lo <= i <= hi <= s@.len(),
            body == s@.subrange(lo as int, hi as int),
            spec_all_digits(s@.subrange(lo as int, i as int)),
            !over ==> v == spec_digits_value(s@.subrange(lo as int, i as int)) && v <= max,
            over ==> spec_digits_value(s@.subrange(lo as int, i as int)) > max,
        decreases hi - i,
    {
        let c = s[i];
        if !('0' <= c && c <= '9') {
            assert(body[i - lo] == c);
            return None;
        }
        let d = (c as u32 - '0' as u32) as u64;
        proof {
            assert(s@.subrange(lo as int, i + 1).drop_last() =~= s@.subrange(lo as int, i as int));
            assert(s@.subrange(lo as int, i + 1).last() == c);
        }
        if !over {
            if d > max || v > (max - d) / 10 {
                over = true;
                assert(10 * v + d > max) by (nonlinear_arith)
                    requires
                        d > max || v > (max - d) / 10,
                        d <= 9,
                ;
            } else {
                assert(10 * v + d <= max) by (nonlinear_arith)
                    requires
                        d <= max,
                        v <= (max - d) / 10,
                        d <= 9,
                ;
                v = 10 * v + d;
            }
        }
        i = i + 1;
    }
    assert(s@.subrange(lo as int, hi as int) == body);
    if over {
        None
    } else {
        Some(v)
    }
}

/// `str::parse` of an unsigned integer type whose `MAX` is `max`, on
/// `s[lo..hi]`.
pub fn parse_bounded(s: &[char], lo: usize, hi: usize, max: u64) -> (r: Option<u64>)
    requires
        lo <= hi <= s@.len(),
    ensures
        match r {
            Some(v) => spec_parse_bounded(s@.subrange(lo as int, hi as int), max as nat) == Some(
                v as nat,
            ),
            None => spec_parse_bounded(s@.subrange(lo as int, hi as int), max as nat) is None,
        },
{
    let ghost full = s@.subrange(lo as int, hi as int);
    let start = if lo < hi && s[lo] == '+' {
        lo + 1
    } else {
        lo
    };
    assert(start > lo ==> full.drop_first() =~= s@.subrange(start as int, hi as int));
    assert(start == lo ==> full =~= s@.subrange(start as int, hi as int));
    if start >= hi {
        return None;
    }
    digits_up_to(s, start, hi, max)
}

/// `str::parse::<i64>()` on `s[lo..hi]`.
pub fn parse_i64(s: &[char], lo: usize, hi: usize) -> (r: Option<i64>)
    requires
        lo <= hi <= s@.len(),
    ensures
        match r {
            Some(v) => spec_parse_i64(s@.subrange(lo as int, hi as int)) == Some(v as int),
            None => spec_parse_i64(s@.subrange(lo as int, hi as int)) is None,
        },
{
    let ghost full = s@.subrange(lo as int, hi as int);
    if lo < hi && s[lo] == '-' {
        assert(full.drop_first() =~= s@.subrange(lo + 1, hi as int));
        if lo + 1 >= hi {
            return None;
        }
        match digits_up_to(s, lo + 1, hi, 0x8000_0000_0000_0000) {
            Some(m) => {
                if m == 0x8000_0000_0000_0000 {
                    Some(i64::MIN)
                } else {
                    Some(-(m as i64))
                }
            },
            None => None,
        }
    } else {
        match parse_bounded(s, lo, hi, 0x7fff_ffff_ffff_ffff) {
            Some(v) => Some(v as i64),
            None => None,
        }
    }
}

/// Decimal digits of `n` (`usize::to_string`).
pub open spec fn spec_decimal(n: nat) -> Seq<char>
    decreases n,
{
    if n < 10 {
        seq![(('0' as u32) + n) as char]
    } else {
        spec_decimal(n / 10) + seq![(('0' as u32) + (n % 10)) as char]
    }
}

/// Appends the decimal digits of `n` to `out`.
pub fn push_decimal(out: &mut Vec<char>, n: usize)
    ensures
        final(out)@ == old(out)@ + spec_decimal(n as nat),
    decreases n,
{
    if n >= 10 {
        push_decimal(out, n / 10);
    }
    let d: u8 = (n % 10) as u8;
    let c = (48u8 + d) as char;
    assert(c == (('0' as u32) + (n % 10) as nat) as char);
    out.push(c);
    proof {
        if n >= 10 {
            assert(final(out)@ =~= old(out)@ + spec_decimal(n as nat));
        } else {
            assert(final(out)@ =~= old(out)@ + spec_decimal(n as nat));
        }
    }
}

/// Appends the chars of `s` to `out`.
pub fn push_str(out: &mut Vec<char>, s: &str)
    ensures
        final(out)@ == old(out)@ + s@,
{
    let cs = chars_of(s);
    let mut i: usize = 0;
    let ghost base = out@;
    while i < cs.len()
        invariant
            i <= cs@.len(),
            cs@ == s@,
            out@ == base + cs@.take(i as int),
        decreases cs@.len() - i,
    {
        out.push(cs[i]);
        i = i + 1;
        assert(out@ =~= base + cs@.take(i as int));
    }
    assert(cs@.take(i as int) =~= s@);
}

} // verus!
