//! Predefined searches in the spirit of tmux-copycat, with user
//! overrides from the config file.
use vstd::prelude::*;
use crate::config::{pattern_overrides, spec_pattern_overrides, overrides_view};
use crate::text::push_str;

verus! {

/// A predefined search, or a user pattern from config. Activated from
/// the pattern menu (`p` then the key) or directly with alt+key.
#[derive(Debug, Clone)]
pub struct PatternDef {
    pub key: char,
    pub name: String,
    pub regex: String,
}

/// A pattern as plain values: (key, name, regex).
pub type DefV = (char, Seq<char>, Seq<char>);

impl View for PatternDef {
    type V = DefV;

    open spec fn view(&self) -> DefV {
        (self.key, self.name@, self.regex@)
    }
}

pub open spec fn defs_view(v: Seq<PatternDef>) -> Seq<DefV> {
    v.map_values(|d: PatternDef| d@)
}

/// The copycat-style defaults, in menu order. Each name begins with its
/// selection key so the menu can render "[u]rl" from "url".
pub open spec fn spec_default_patterns() -> Seq<DefV> {
    seq![
        ('u', "url"@, "(https?|ftp|git|ssh|file)://[^\\s\"'<>()\\[\\]]+"@),
        ('f', "file"@, "[\\w.~-]*(/[\\w.#$%&+=@~-]+)+(:\\d+(:\\d+)?)?"@),
        ('g', "git-sha"@, "\\b[0-9a-f]{7,40}\\b"@),
        ('i', "ip"@, "\\b\\d{1,3}(\\.\\d{1,3}){3}\\b"@),
        ('d', "digits"@, "\\b\\d+\\b"@),
        ('q', "quoted"@, "\"[^\"]+\"|'[^']+'"@),
    ]
}

fn def(key: char, name: &str, regex: &str) -> (d: PatternDef)
    ensures
        d@ == (key, name@, regex@),
{
    PatternDef { key, name: name.to_owned(), regex: regex.to_owned() }
}

pub fn default_patterns() -> (v: Vec<PatternDef>)
    ensures
        defs_view(v@) == spec_default_patterns(),
{
    let mut v: Vec<PatternDef> = Vec::new();
    // Paths need at least one slash; a :line[:col] suffix from compiler
    // or grep output is included in the match. The IPv4 form is loose:
    // octets are not range-checked.
    v.push(def('u', "url", "(https?|ftp|git|ssh|file)://[^\\s\"'<>()\\[\\]]+"));
    v.push(def('f', "file", "[\\w.~-]*(/[\\w.#$%&+=@~-]+)+(:\\d+(:\\d+)?)?"));
    v.push(def('g', "git-sha", "\\b[0-9a-f]{7,40}\\b"));
    v.push(def('i', "ip", "\\b\\d{1,3}(\\.\\d{1,3}){3}\\b"));
    v.push(def('d', "digits", "\\b\\d+\\b"));
    v.push(def('q', "quoted", "\"[^\"]+\"|'[^']+'"));
    assert(defs_view(v@) =~= spec_default_patterns());
    v
}

/// Index of the first pattern with key `k`.
pub open spec fn key_pos(defs: Seq<DefV>, k: char) -> Option<int>
    decreases defs.len(),
{
    if defs.len() == 0 {
        None
    } else if defs[0].0 == k {
        Some(0)
    } else {
        match key_pos(defs.drop_first(), k) {
            Some(i) => Some(i + 1),
            None => None,
        }
    }
}

pub proof fn lemma_key_pos(defs: Seq<DefV>, k: char)
    ensures
        key_pos(defs, k) matches Some(i) ==> 0 <= i < defs.len() && defs[i].0 == k && forall|j: int|
            0 <= j < i ==> (#[trigger] defs[j]).0 != k,
        key_pos(defs, k) is None ==> forall|j: int| 0 <= j < defs.len() ==> (#[trigger] defs[j]).0 != k,
    decreases defs.len(),
{
    if defs.len() > 0 && defs[0].0 != k {
        lemma_key_pos(defs.drop_first(), k);
        assert forall|j: int| 1 <= j < defs.len() implies defs[j] == defs.drop_first()[j - 1] by {}
    }
}

proof fn lemma_key_pos_at(defs: Seq<DefV>, k: char, i: int)
    requires
        0 <= i < defs.len(),
        defs[i].0 == k,
        forall|j: int| 0 <= j < i ==> (#[trigger] defs[j]).0 != k,
    ensures
        key_pos(defs, k) == Some(i),
{
    lemma_key_pos(defs, k);
}

/// `defs` without the patterns keyed `k` (`Vec::retain`).
pub open spec fn drop_key(defs: Seq<DefV>, k: char) -> Seq<DefV>
    decreases defs.len(),
{
    if defs.len() == 0 {
        seq![]
    } else if defs.last().0 == k {
        drop_key(defs.drop_last(), k)
    } else {
        drop_key(defs.drop_last(), k).push(defs.last())
    }
}

/// One override: an empty regex disables the key; else it replaces the
/// regex of the first pattern with that key (keeping its name) or adds a
/// pattern named by its key.
pub open spec fn apply_override(defs: Seq<DefV>, o: (char, Seq<char>)) -> Seq<DefV> {
    if o.1.len() == 0 {
        drop_key(defs, o.0)
    } else {
        match key_pos(defs, o.0) {
            Some(i) => defs.update(i, (defs[i].0, defs[i].1, o.1)),
            None => defs.push((o.0, seq![o.0], o.1)),
        }
    }
}

pub open spec fn apply_overrides(defs: Seq<DefV>, os: Seq<(char, Seq<char>)>) -> Seq<DefV>
    decreases os.len(),
{
    if os.len() == 0 {
        defs
    } else {
        apply_override(apply_overrides(defs, os.drop_last()), os.last())
    }
}

/// The active pattern set: copycat defaults with user overrides applied.
#[derive(Debug, Clone)]
pub struct Patterns {
    defs: Vec<PatternDef>,
}

impl View for Patterns {
    type V = Seq<DefV>;

    closed spec fn view(&self) -> Seq<DefV> {
        defs_view(self.defs@)
    }
}

impl Default for Patterns {
    fn default() -> (p: Self)
        ensures
            p@ == spec_default_patterns(),
    {
        Patterns { defs: default_patterns() }
    }
}

/// `[k]` followed by the name, less a leading copy of the key.
pub open spec fn menu_item(d: DefV) -> Seq<char> {
    let suffix = if d.1.len() > 0 && d.1[0] == d.0 {
        d.1.drop_first()
    } else {
        d.1
    };
    seq![' ', '[', d.0, ']'] + suffix
}

pub open spec fn menu_items(defs: Seq<DefV>) -> Seq<char>
    decreases defs.len(),
{
    if defs.len() == 0 {
        seq![]
    } else {
        menu_items(defs.drop_last()) + menu_item(defs.last())
    }
}

fn find_key(defs: &Vec<PatternDef>, k: char) -> (r: Option<usize>)
    ensures
        match r {
            Some(i) => key_pos(defs_view(defs@), k) == Some(i as int),
            None => key_pos(defs_view(defs@), k) is None,
        },
        r matches Some(i) ==> i < defs@.len(),
{
    let ghost dv = defs_view(defs@);
    let mut i: usize = 0;
    while i < defs.len()
        invariant
            dv == defs_view(defs@),
            i <= defs@.len(),
            forall|j: int| 0 <= j < i ==> (#[trigger] dv[j]).0 != k,
        decreases defs@.len() - i,
    {
        if defs[i].key == k {
            proof {
                lemma_key_pos_at(dv, k, i as int);
            }
            return Some(i);
        }
        i = i + 1;
    }
    proof {
        lemma_key_pos(dv, k);
        if key_pos(dv, k) is Some {
            let w = key_pos(dv, k)->0;
            assert(dv[w].0 == k);
        }
    }
    None
}

/// Appends a pattern named by its key.
fn push_new(defs: &mut Vec<PatternDef>, key: char, regex: &String)
    ensures
        defs_view(final(defs)@) == defs_view(old(defs)@).push((key, seq![key], regex@)),
{
    let kv: Vec<char> = vec![key];
    let name = crate::text::string_of(kv.as_slice());
    assert(kv@ =~= seq![key]);
    let nd = PatternDef { key, name, regex: regex.clone() };
    defs.push(nd);
    assert(defs_view(defs@) =~= defs_view(old(defs)@).push((key, seq![key], regex@)));
}

/// A copy of `d`, field by field.
fn copy_def(d: &PatternDef) -> (r: PatternDef)
    ensures
        r@ == d@,
{
    PatternDef { key: d.key, name: d.name.clone(), regex: d.regex.clone() }
}

impl Patterns {
    /// Apply flat-TOML `pattern_<k>` overrides to the defaults: a regex
    /// value replaces an existing key's regex (its name is kept) or adds
    /// a new pattern named by its key; an empty value disables that key.
    pub fn from_config(toml: &str) -> (p: Self)
        ensures
            p@ == apply_overrides(spec_default_patterns(), spec_pattern_overrides(toml@)),
    {
        let mut defs = default_patterns();
        let os = pattern_overrides(toml);
        let ghost ov = overrides_view(os@);
        let mut n: usize = 0;
        while n < os.len()
            invariant
                n <= os@.len(),
                ov == overrides_view(os@),
                defs_view(defs@) == apply_overrides(spec_default_patterns(), ov.take(n as int)),
            decreases os@.len() - n,
        {
            let key = os[n].0;
            let regex = &os[n].1;
            let ghost before = defs_view(defs@);
            assert(ov.take(n + 1).drop_last() =~= ov.take(n as int));
            assert(ov.take(n + 1).last() == (key, regex@));
            if regex.as_str().is_empty() {
                assert(regex@.len() == 0);
                let mut kept: Vec<PatternDef> = Vec::new();
                let mut i: usize = 0;
                while i < defs.len()
                    invariant
                        i <= defs@.len(),
                        before == defs_view(defs@),
                        defs_view(kept@) == drop_key(before.take(i as int), key),
                    decreases defs@.len() - i,
                {
                    assert(before.take(i + 1).drop_last() =~= before.take(i as int));
                    if defs[i].key != key {
                        kept.push(copy_def(&defs[i]));
                    }
                    assert(defs_view(kept@) =~= drop_key(before.take(i + 1), key));
                    i = i + 1;
                }
                assert(before.take(defs@.len() as int) =~= before);
                defs = kept;
            } else {
                match find_key(&defs, key) {
                    Some(i) => {
                        let mut d = copy_def(&defs[i]);
                        d.regex = regex.clone();
                        defs.set(i, d);
                        assert(defs_view(defs@) =~= before.update(
                            i as int,
                            (before[i as int].0, before[i as int].1, regex@),
                        ));
                    },
                    None => {
                        push_new(&mut defs, key, regex);
                        assert(defs_view(defs@) =~= before.push((key, seq![key], regex@)));
                    },
                }
            }
            n = n + 1;
        }
        assert(ov.take(os@.len() as int) =~= ov);
        Patterns { defs }
    }

    /// The first pattern with key `key`.
    pub fn by_key(&self, key: char) -> (r: Option<&PatternDef>)
        ensures
            match r {
                None => key_pos(self@, key) is None,
                Some(d) => key_pos(self@, key) matches Some(i) && d@ == self@[i],
            },
    {
        match find_key(&self.defs, key) {
            Some(i) => Some(&self.defs[i]),
            None => None,
        }
    }

    /// One-line menu for the bottom row, e.g. "pattern: [u]rl [f]ile ...".
    /// A default name begins with its key, stripped so it is not shown
    /// twice; user patterns render as just "[k]".
    pub fn menu_line(&self) -> (s: String)
        ensures
            s@ == "pattern:"@ + menu_items(self@),
    {
        let mut out: Vec<char> = Vec::new();
        push_str(&mut out, "pattern:");
        let ghost dv = self@;
        let mut i: usize = 0;
        while i < self.defs.len()
            invariant
                dv == defs_view(self.defs@),
                i <= self.defs@.len(),
                out@ == "pattern:"@ + menu_items(dv.take(i as int)),
            decreases self.defs@.len() - i,
        {
            let d = &self.defs[i];
            let ghost base = out@;
            out.push(' ');
            out.push('[');
            out.push(d.key);
            out.push(']');
            let name = crate::text::chars_of(d.name.as_str());
            let start: usize = if name.len() > 0 && name[0] == d.key {
                1
            } else {
                0
            };
            crate::buffer::extend_from(&mut out, &name, start, name.len());
            assert(dv.take(i + 1).drop_last() =~= dv.take(i as int));
            assert(dv[i as int] == d@);
            assert(out@ =~= base + menu_item(d@));
            i = i + 1;
        }
        assert(dv.take(self.defs@.len() as int) =~= dv);
        crate::text::string_of(out.as_slice())
    }
}


proof fn lemma_drop_key(defs: Seq<DefV>, k: char)
    ensures
        forall|i: int| 0 <= i < drop_key(defs, k).len() ==> (#[trigger] drop_key(defs, k)[i]).0 != k,
    decreases defs.len(),
{
    if defs.len() > 0 {
        lemma_drop_key(defs.drop_last(), k);
        let d = drop_key(defs.drop_last(), k);
        if defs.last().0 != k {
            assert forall|i: int| 0 <= i < d.push(defs.last()).len() implies (#[trigger] d.push(defs.last())[i]).0 != k by {
                if i < d.len() {
                    assert(d.push(defs.last())[i] == d[i]);
                }
            }
        }
    }
}

/// An empty regex for a key disables it: no pattern with that key is
/// left.
pub proof fn law_empty_override_disables(defs: Seq<DefV>, k: char)
    ensures
        key_pos(apply_override(defs, (k, Seq::<char>::empty())), k) is None,
{
    lemma_drop_key(defs, k);
    let r = drop_key(defs, k);
    lemma_key_pos(r, k);
    if key_pos(r, k) is Some {
        let i = key_pos(r, k)->0;
        assert(r[i].0 == k);
    }
}

/// A non-empty regex for a key that is present replaces that pattern's
/// regex and keeps its name; for a new key it adds a pattern named by
/// the key, which is then the one found under it.
pub proof fn law_override_replaces_or_adds(defs: Seq<DefV>, k: char, regex: Seq<char>)
    requires
        regex.len() > 0,
    ensures
        key_pos(defs, k) matches Some(i) ==> key_pos(apply_override(defs, (k, regex)), k) == Some(i)
            && apply_override(defs, (k, regex))[i] == (k, defs[i].1, regex),
        key_pos(defs, k) is None ==> key_pos(apply_override(defs, (k, regex)), k) == Some(defs.len() as int)
            && apply_override(defs, (k, regex)).last() == (k, seq![k], regex),
{
    lemma_key_pos(defs, k);
    let r = apply_override(defs, (k, regex));
    match key_pos(defs, k) {
        Some(i) => {
            assert forall|j: int| 0 <= j < i implies (#[trigger] r[j]).0 != k by {
                assert(r[j] == defs[j]);
            }
            lemma_key_pos_at(r, k, i);
        },
        None => {
            assert forall|j: int| 0 <= j < defs.len() implies (#[trigger] r[j]).0 != k by {
                assert(r[j] == defs[j]);
            }
            lemma_key_pos_at(r, k, defs.len() as int);
        },
    }
}
} // verus!
