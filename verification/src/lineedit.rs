//! Single-line input with a movable cursor, shared by the search prompt
//! and the extract query. Positions are char indices (a wide char is one
//! position), matching the buffer's `Pos.col` convention.
use vstd::prelude::*;
use crate::keys::{Code, Key};
use crate::text::{is_whitespace, spec_is_whitespace, string_of};

verus! {

#[derive(Debug)]
pub struct LineEdit {
    chars: Vec<char>,
    /// Insertion point in [0, chars.len()].
    cursor: usize,
}

/// Start of the whitespace run that ends at `i`.
pub open spec fn back_over_space(s: Seq<char>, i: int) -> int
    decreases i,
{
    if 0 < i <= s.len() && spec_is_whitespace(s[i - 1]) {
        back_over_space(s, i - 1)
    } else {
        i
    }
}

/// Start of the non-whitespace run that ends at `i`.
pub open spec fn back_over_word(s: Seq<char>, i: int) -> int
    decreases i,
{
    if 0 < i <= s.len() && !spec_is_whitespace(s[i - 1]) {
        back_over_word(s, i - 1)
    } else {
        i
    }
}

/// End of the whitespace run that starts at `i`.
pub open spec fn over_space(s: Seq<char>, i: int) -> int
    decreases s.len() - i,
{
    if 0 <= i < s.len() && spec_is_whitespace(s[i]) {
        over_space(s, i + 1)
    } else {
        i
    }
}

/// End of the non-whitespace run that starts at `i`.
pub open spec fn over_word(s: Seq<char>, i: int) -> int
    decreases s.len() - i,
{
    if 0 <= i < s.len() && !spec_is_whitespace(s[i]) {
        over_word(s, i + 1)
    } else {
        i
    }
}

/// Where Ctrl+Left and Ctrl-W take the cursor: back over whitespace,
/// then over the word before it.
pub open spec fn word_left_of(s: Seq<char>, i: int) -> int {
    back_over_word(s, back_over_space(s, i))
}

/// Where Ctrl+Right takes the cursor: over whitespace, then the word.
pub open spec fn word_right_of(s: Seq<char>, i: int) -> int {
    over_word(s, over_space(s, i))
}

proof fn lemma_back_le(s: Seq<char>, i: int)
    requires
        0 <= i <= s.len(),
    ensures
        0 <= back_over_space(s, i) <= i,
        0 <= back_over_word(s, i) <= i,
        0 <= word_left_of(s, i) <= i,
    decreases i,
{
    if i > 0 {
        lemma_back_le(s, i - 1);
    }
    if 0 <= back_over_space(s, i) <= i {
        lemma_back_le_word(s, back_over_space(s, i));
    }
}

proof fn lemma_back_le_word(s: Seq<char>, i: int)
    requires
        0 <= i <= s.len(),
    ensures
        0 <= back_over_word(s, i) <= i,
    decreases i,
{
    if i > 0 {
        lemma_back_le_word(s, i - 1);
    }
}

proof fn lemma_over_le(s: Seq<char>, i: int)
    requires
        0 <= i <= s.len(),
    ensures
        i <= over_space(s, i) <= s.len(),
        i <= over_word(s, i) <= s.len(),
    decreases s.len() - i,
{
    if i < s.len() {
        lemma_over_le(s, i + 1);
    }
}

impl LineEdit {
    /// The cursor stays within the text (at most one past its end).
    pub closed spec fn wf(self) -> bool {
        self.cursor <= self.chars@.len()
    }

    pub closed spec fn chars_v(self) -> Seq<char> {
        self.chars@
    }

    pub closed spec fn cursor_v(self) -> int {
        self.cursor as int
    }

    /// The editor's contents and cursor as plain values.
    pub open spec fn state(self) -> (Seq<char>, int) {
        (self.chars_v(), self.cursor_v())
    }

    pub fn new() -> (le: LineEdit)
        ensures
            le.wf(),
            le.chars_v() == Seq::<char>::empty(),
            le.cursor_v() == 0,
    {
        LineEdit { chars: Vec::new(), cursor: 0 }
    }

    pub fn text(&self) -> (s: String)
        ensures
            s@ == self.chars_v(),
    {
        string_of(self.chars.as_slice())
    }

    pub fn is_empty(&self) -> (b: bool)
        ensures
            b == (self.chars_v().len() == 0),
    {
        self.chars.len() == 0
    }

    pub fn cursor(&self) -> (c: usize)
        requires
            self.wf(),
        ensures
            c == self.cursor_v(),
            c <= self.chars_v().len(),
    {
        self.cursor
    }

    /// Text before the cursor.
    pub fn before_text(&self) -> (s: String)
        requires
            self.wf(),
        ensures
            s@ == self.chars_v().take(self.cursor_v()),
    {
        let mut out: Vec<char> = Vec::new();
        crate::buffer::extend_from(&mut out, &self.chars, 0, self.cursor);
        assert(out@ =~= self.chars@.take(self.cursor as int));
        string_of(out.as_slice())
    }

    /// The char under the cursor; None when the cursor is at the end.
    pub fn under(&self) -> (c: Option<char>)
        requires
            self.wf(),
        ensures
            c == (if self.cursor_v() < self.chars_v().len() {
                Some(self.chars_v()[self.cursor_v()])
            } else {
                None
            }),
    {
        if self.cursor < self.chars.len() {
            Some(self.chars[self.cursor])
        } else {
            None
        }
    }

    /// Text after the char under the cursor.
    pub fn after_text(&self) -> (s: String)
        requires
            self.wf(),
        ensures
            s@ == (if self.cursor_v() < self.chars_v().len() {
                self.chars_v().skip(self.cursor_v() + 1)
            } else {
                Seq::<char>::empty()
            }),
    {
        let mut out: Vec<char> = Vec::new();
        if self.cursor < self.chars.len() {
            crate::buffer::extend_from(&mut out, &self.chars, self.cursor + 1, self.chars.len());
            assert(out@ =~= self.chars@.skip(self.cursor + 1));
        }
        string_of(out.as_slice())
    }

    pub fn insert(&mut self, c: char)
        requires
            old(self).wf(),
        ensures
            final(self).wf(),
            final(self).chars_v() == old(self).chars_v().insert(old(self).cursor_v(), c),
            final(self).cursor_v() == old(self).cursor_v() + 1,
    {
        self.chars.insert(self.cursor, c);
        assert(self.chars.len() == self.chars@.len());
        self.cursor = self.cursor + 1;
    }

    pub fn backspace(&mut self)
        requires
            old(self).wf(),
        ensures
            final(self).wf(),
            old(self).cursor_v() > 0 ==> final(self).chars_v() == old(self).chars_v().remove(
                old(self).cursor_v() - 1,
            ) && final(self).cursor_v() == old(self).cursor_v() - 1,
            old(self).cursor_v() == 0 ==> final(self).state() == old(self).state(),
    {
        if self.cursor > 0 {
            self.cursor = self.cursor - 1;
            let _ = self.chars.remove(self.cursor);
        }
    }

    pub fn delete(&mut self)
        requires
            old(self).wf(),
        ensures
            final(self).wf(),
            old(self).cursor_v() < old(self).chars_v().len() ==> final(self).chars_v() == old(
                self,
            ).chars_v().remove(old(self).cursor_v()),
            old(self).cursor_v() >= old(self).chars_v().len() ==> final(self).chars_v() == old(
                self,
            ).chars_v(),
            final(self).cursor_v() == old(self).cursor_v(),
    {
        if self.cursor < self.chars.len() {
            let _ = self.chars.remove(self.cursor);
        }
    }

    pub fn left(&mut self)
        requires
            old(self).wf(),
        ensures
            final(self).wf(),
            final(self).chars_v() == old(self).chars_v(),
            final(self).cursor_v() == (if old(self).cursor_v() > 0 {
                old(self).cursor_v() - 1
            } else {
                0
            }),
    {
        if self.cursor > 0 {
            self.cursor = self.cursor - 1;
        }
    }

    pub fn right(&mut self)
        requires
            old(self).wf(),
        ensures
            final(self).wf(),
            final(self).chars_v() == old(self).chars_v(),
            final(self).cursor_v() == (if old(self).cursor_v() < old(self).chars_v().len() {
                old(self).cursor_v() + 1
            } else {
                old(self).chars_v().len() as int
            }),
    {
        if self.cursor < self.chars.len() {
            self.cursor = self.cursor + 1;
        }
    }

    fn word_left_index(&self) -> (i: usize)
        requires
            self.wf(),
        ensures
            i == word_left_of(self.chars_v(), self.cursor_v()),
    {
        let mut i = self.cursor;
        while i > 0 && is_whitespace(self.chars[i - 1])
            invariant
                i <= self.cursor <= self.chars@.len(),
                back_over_space(self.chars@, self.cursor as int) == back_over_space(
                    self.chars@,
                    i as int,
                ),
            decreases i,
        {
            i = i - 1;
        }
        let ghost mid = i;
        while i > 0 && !is_whitespace(self.chars[i - 1])
            invariant
                i <= mid <= self.chars@.len(),
                back_over_word(self.chars@, mid as int) == back_over_word(self.chars@, i as int),
            decreases i,
        {
            i = i - 1;
        }
        i
    }

    /// Move to the start of the current or previous word (Ctrl+Left):
    /// whitespace-only boundaries, matching `delete_word_back`.
    fn word_left(&mut self)
        requires
            old(self).wf(),
        ensures
            final(self).wf(),
            final(self).chars_v() == old(self).chars_v(),
            final(self).cursor_v() == word_left_of(old(self).chars_v(), old(self).cursor_v()),
    {
        proof {
            lemma_back_le(self.chars@, self.cursor as int);
        }
        self.cursor = self.word_left_index();
    }

    /// Move past the end of the current or next word (Ctrl+Right).
    fn word_right(&mut self)
        requires
            old(self).wf(),
        ensures
            final(self).wf(),
            final(self).chars_v() == old(self).chars_v(),
            final(self).cursor_v() == word_right_of(old(self).chars_v(), old(self).cursor_v()),
    {
        let len = self.chars.len();
        let mut i = self.cursor;
        while i < len && is_whitespace(self.chars[i])
            invariant
                i <= len,
                len == self.chars@.len(),
                over_space(self.chars@, old(self).cursor_v()) == over_space(self.chars@, i as int),
                self.chars@ == old(self).chars_v(),
                self.cursor == old(self).cursor_v(),
            decreases len - i,
        {
            i = i + 1;
        }
        let ghost mid = i;
        while i < len && !is_whitespace(self.chars[i])
            invariant
                mid <= i <= len,
                len == self.chars@.len(),
                over_word(self.chars@, mid as int) == over_word(self.chars@, i as int),
            decreases len - i,
        {
            i = i + 1;
        }
        self.cursor = i;
    }

    pub fn home(&mut self)
        requires
            old(self).wf(),
        ensures
            final(self).wf(),
            final(self).chars_v() == old(self).chars_v(),
            final(self).cursor_v() == 0,
    {
        self.cursor = 0;
    }

    pub fn end(&mut self)
        requires
            old(self).wf(),
        ensures
            final(self).wf(),
            final(self).chars_v() == old(self).chars_v(),
            final(self).cursor_v() == old(self).chars_v().len(),
    {
        self.cursor = self.chars.len();
    }

    pub fn clear(&mut self)
        requires
            old(self).wf(),
        ensures
            final(self).wf(),
            final(self).chars_v() == Seq::<char>::empty(),
            final(self).cursor_v() == 0,
    {
        self.cursor = 0;
        self.chars.clear();
    }

    /// Kill from the cursor to the end of the line (readline Ctrl-K).
    fn kill_to_end(&mut self)
        requires
            old(self).wf(),
        ensures
            final(self).wf(),
            final(self).chars_v() == old(self).chars_v().take(old(self).cursor_v()),
            final(self).cursor_v() == old(self).cursor_v(),
    {
        self.chars.truncate(self.cursor);
    }

    /// Delete the word before the cursor, unix-word-rubout style (Ctrl-W):
    /// whitespace right before the cursor, then the word before that.
    fn delete_word_back(&mut self)
        requires
            old(self).wf(),
        ensures
            final(self).wf(),
            final(self).chars_v() == old(self).chars_v().take(
                word_left_of(old(self).chars_v(), old(self).cursor_v()),
            ) + old(self).chars_v().skip(old(self).cursor_v()),
            final(self).cursor_v() == word_left_of(old(self).chars_v(), old(self).cursor_v()),
    {
        proof {
            lemma_back_le(self.chars@, self.cursor as int);
        }
        let i = self.word_left_index();
        let end = self.cursor;
        self.cursor = i;
        let mut n = end - i;
        while n > 0
            invariant
                self.cursor == i,
                i + n <= self.chars@.len(),
                self.chars@ == old(self).chars_v().take(i as int) + old(self).chars_v().subrange(
                    end - n,
                    old(self).chars_v().len() as int,
                ),
                end == old(self).cursor_v(),
                end <= old(self).chars_v().len(),
                n <= end - i,
            decreases n,
        {
            let _ = self.chars.remove(i);
            n = n - 1;
            assert(self.chars@ =~= old(self).chars_v().take(i as int) + old(
                self,
            ).chars_v().subrange(end - n, old(self).chars_v().len() as int));
        }
        assert(old(self).chars_v().subrange(end as int, old(self).chars_v().len() as int)
            =~= old(self).chars_v().skip(end as int));
    }

    /// Apply an editing or movement key; false when the key is not an
    /// editing key so the caller can run its own bindings.
    pub fn handle_key(&mut self, key: Key) -> (handled: bool)
        requires
            old(self).wf(),
        ensures
            final(self).wf(),
            (final(self).state(), handled) == edit_key(old(self).state(), key),
    {
        let ctrl = key.mods.ctrl;
        match key.code {
            Code::Char('u') if ctrl => self.clear(),
            Code::Char('a') if ctrl => self.home(),
            Code::Char('e') if ctrl => self.end(),
            Code::Char('b') if ctrl => self.left(),
            Code::Char('f') if ctrl => self.right(),
            Code::Char('d') if ctrl => self.delete(),
            Code::Char('h') if ctrl => self.backspace(),
            Code::Char('w') if ctrl => self.delete_word_back(),
            Code::Char('k') if ctrl => self.kill_to_end(),
            Code::Char(c) if !ctrl => self.insert(c),
            Code::Backspace => self.backspace(),
            Code::Delete => self.delete(),
            Code::Left if ctrl => self.word_left(),
            Code::Right if ctrl => self.word_right(),
            Code::Left => self.left(),
            Code::Right => self.right(),
            Code::Home => self.home(),
            Code::End => self.end(),
            _ => {
                return false;
            },
        }
        true
    }
}

impl Default for LineEdit {
    fn default() -> (le: LineEdit)
        ensures
            le.wf(),
            le.chars_v() == Seq::<char>::empty(),
            le.cursor_v() == 0,
    {
        LineEdit::new()
    }
}

pub open spec fn sp_backspace(s: (Seq<char>, int)) -> (Seq<char>, int) {
    if s.1 > 0 {
        (s.0.remove(s.1 - 1), s.1 - 1)
    } else {
        s
    }
}

pub open spec fn sp_delete(s: (Seq<char>, int)) -> (Seq<char>, int) {
    if s.1 < s.0.len() {
        (s.0.remove(s.1), s.1)
    } else {
        s
    }
}

/// What an editing key does to (text, cursor), and whether it was one.
pub open spec fn edit_key(s: (Seq<char>, int), key: Key) -> ((Seq<char>, int), bool) {
    let (t, c) = s;
    let ctrl = key.mods.ctrl;
    match key.code {
        Code::Char(ch) => {
            if ctrl {
                if ch == 'u' {
                    ((seq![], 0), true)
                } else if ch == 'a' {
                    ((t, 0), true)
                } else if ch == 'e' {
                    ((t, t.len() as int), true)
                } else if ch == 'b' {
                    ((t, if c > 0 { c - 1 } else { 0 }), true)
                } else if ch == 'f' {
                    ((t, if c < t.len() { c + 1 } else { t.len() as int }), true)
                } else if ch == 'd' {
                    (sp_delete(s), true)
                } else if ch == 'h' {
                    (sp_backspace(s), true)
                } else if ch == 'w' {
                    ((t.take(word_left_of(t, c)) + t.skip(c), word_left_of(t, c)), true)
                } else if ch == 'k' {
                    ((t.take(c), c), true)
                } else {
                    (s, false)
                }
            } else {
                ((t.insert(c, ch), c + 1), true)
            }
        },
        Code::Backspace => (sp_backspace(s), true),
        Code::Delete => (sp_delete(s), true),
        Code::Left => if ctrl {
            ((t, word_left_of(t, c)), true)
        } else {
            ((t, if c > 0 { c - 1 } else { 0 }), true)
        },
        Code::Right => if ctrl {
            ((t, word_right_of(t, c)), true)
        } else {
            ((t, if c < t.len() { c + 1 } else { t.len() as int }), true)
        },
        Code::Home => ((t, 0), true),
        Code::End => ((t, t.len() as int), true),
        _ => (s, false),
    }
}


/// Typing a char and then deleting it with Backspace gives back the
/// text and the cursor it started from.
pub proof fn law_insert_then_backspace(s: (Seq<char>, int), ch: char)
    requires
        0 <= s.1 <= s.0.len(),
    ensures
        sp_backspace((s.0.insert(s.1, ch), s.1 + 1)) == s,
{
    assert(s.0.insert(s.1, ch).remove(s.1) =~= s.0);
}

/// The text splits at the cursor into what is before it, the char under
/// it (when there is one) and what is after it.
pub proof fn law_cursor_partitions_text(s: (Seq<char>, int))
    requires
        0 <= s.1 <= s.0.len(),
    ensures
        s.1 < s.0.len() ==> s.0 == s.0.take(s.1) + seq![s.0[s.1]] + s.0.skip(s.1 + 1),
        s.1 == s.0.len() ==> s.0 == s.0.take(s.1),
{
    if s.1 < s.0.len() {
        assert(s.0 =~= s.0.take(s.1) + seq![s.0[s.1]] + s.0.skip(s.1 + 1));
    } else {
        assert(s.0 =~= s.0.take(s.1));
    }
}

/// Every editing key keeps the cursor within the text.
pub proof fn law_edit_keeps_cursor_in_text(s: (Seq<char>, int), key: Key)
    requires
        0 <= s.1 <= s.0.len(),
    ensures
        0 <= edit_key(s, key).0.1 <= edit_key(s, key).0.0.len(),
{
    let (t, c) = s;
    lemma_back_le(t, c);
    lemma_over_le(t, c);
    if 0 <= over_space(t, c) <= t.len() {
        lemma_over_le(t, over_space(t, c));
    }
    if c > 0 {
        lemma_back_le(t, c - 1);
    }
}
} // verus!
