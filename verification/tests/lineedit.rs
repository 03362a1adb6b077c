use herdr_copy_search::keys::{Code, Key, Mods};
use herdr_copy_search::lineedit::LineEdit;

fn edit(text: &str) -> LineEdit {
    let mut le = LineEdit::default();
    for c in text.chars() {
        le.insert(c);
    }
    le
}

fn key(code: Code) -> Key {
    Key::new(code, Mods::none())
}

fn ctrl(c: char) -> Key {
    Key::new(Code::Char(c), Mods::control())
}

fn ctrl_key(code: Code) -> Key {
    Key::new(code, Mods::control())
}

#[test]
fn insert_appends_at_the_end() {
    let le = edit("abc");
    assert_eq!(le.text(), "abc");
    assert_eq!(le.cursor(), 3);
    assert_eq!(le.under(), None);
}

#[test]
fn left_then_insert_edits_the_middle() {
    let mut le = edit("ac");
    le.left();
    le.insert('b');
    assert_eq!(le.text(), "abc");
    assert_eq!(le.cursor(), 2);
    assert_eq!(le.under(), Some('c'));
}

#[test]
fn backspace_removes_before_cursor_only() {
    let mut le = edit("abc");
    le.home();
    le.backspace();
    assert_eq!(le.text(), "abc", "backspace at start is a no-op");
    le.end();
    le.backspace();
    assert_eq!(le.text(), "ab");
}

#[test]
fn delete_removes_under_cursor() {
    let mut le = edit("abc");
    le.home();
    le.delete();
    assert_eq!(le.text(), "bc");
    le.end();
    le.delete();
    assert_eq!(le.text(), "bc", "delete at end is a no-op");
}

#[test]
fn movement_clamps_at_both_ends() {
    let mut le = edit("ab");
    le.right();
    assert_eq!(le.cursor(), 2);
    le.home();
    le.left();
    assert_eq!(le.cursor(), 0);
}

#[test]
fn split_accessors_partition_the_text() {
    let mut le = edit("abcd");
    le.left();
    le.left();
    assert_eq!(le.before_text(), "ab");
    assert_eq!(le.under(), Some('c'));
    assert_eq!(le.after_text(), "d");
}

#[test]
fn handle_key_maps_editing_keys() {
    let mut le = edit("ac");
    assert!(le.handle_key(key(Code::Left)));
    assert!(le.handle_key(key(Code::Char('b'))));
    assert_eq!(le.text(), "abc");
    assert!(le.handle_key(key(Code::Home)));
    assert!(le.handle_key(key(Code::Delete)));
    assert_eq!(le.text(), "bc");
    assert!(le.handle_key(ctrl('e')));
    assert_eq!(le.cursor(), 2);
    assert!(le.handle_key(ctrl('a')));
    assert_eq!(le.cursor(), 0);
    assert!(le.handle_key(ctrl('u')));
    assert!(le.is_empty());
}

#[test]
fn ctrl_w_deletes_word_back() {
    let mut le = edit("foo bar");
    assert!(le.handle_key(ctrl('w')));
    assert_eq!(le.text(), "foo ");
    assert!(le.handle_key(ctrl('w')));
    assert_eq!(le.text(), "");
    let mut le = edit("alpha beta");
    le.left();
    le.left();
    le.left();
    le.left();
    assert!(le.handle_key(ctrl('w')));
    assert_eq!(le.text(), "beta");
}

#[test]
fn ctrl_k_kills_to_end() {
    let mut le = edit("abcd");
    le.home();
    le.right();
    le.right();
    assert!(le.handle_key(ctrl('k')));
    assert_eq!(le.text(), "ab");
    assert_eq!(le.cursor(), 2);
}

#[test]
fn ctrl_b_and_f_move_by_char() {
    let mut le = edit("ab");
    assert!(le.handle_key(ctrl('b')));
    assert_eq!(le.cursor(), 1);
    assert!(le.handle_key(ctrl('f')));
    assert_eq!(le.cursor(), 2);
}

#[test]
fn ctrl_left_and_right_jump_by_word() {
    let mut le = edit("foo.bar baz");
    assert_eq!(le.cursor(), 11);
    assert!(le.handle_key(ctrl_key(Code::Left)));
    assert_eq!(le.cursor(), 8, "left lands at the start of 'baz'");
    assert!(le.handle_key(ctrl_key(Code::Left)));
    assert_eq!(le.cursor(), 0, "left skips the space and all of 'foo.bar'");
    assert!(le.handle_key(ctrl_key(Code::Right)));
    assert_eq!(le.cursor(), 7, "right lands just past 'foo.bar'");
    assert!(le.handle_key(ctrl_key(Code::Right)));
    assert_eq!(le.cursor(), 11, "right skips the space and all of 'baz'");
}

#[test]
fn word_jump_clamps_and_crosses_edge_whitespace() {
    let mut le = edit("  hi  ");
    assert!(le.handle_key(ctrl_key(Code::Left)));
    assert_eq!(le.cursor(), 2, "left from the end reaches the start of 'hi'");
    assert!(le.handle_key(ctrl_key(Code::Left)));
    assert_eq!(le.cursor(), 0, "another left clamps at the start");
    assert!(le.handle_key(ctrl_key(Code::Right)));
    assert_eq!(le.cursor(), 4, "right from the start reaches the end of 'hi'");
    assert!(le.handle_key(ctrl_key(Code::Right)));
    assert_eq!(le.cursor(), 6, "another right clamps at the end");
}

#[test]
fn ctrl_d_deletes_forward_and_ctrl_h_backspaces() {
    let mut le = edit("abc");
    le.home();
    assert!(le.handle_key(ctrl('d')));
    assert_eq!(le.text(), "bc");
    le.end();
    assert!(le.handle_key(ctrl('h')));
    assert_eq!(le.text(), "b");
}

#[test]
fn handle_key_rejects_non_editing_keys() {
    let mut le = edit("a");
    assert!(!le.handle_key(key(Code::Enter)));
    assert!(!le.handle_key(key(Code::Esc)));
    assert!(!le.handle_key(ctrl('t')));
    assert_eq!(le.text(), "a");
}

#[test]
fn insert_then_backspace_restores_the_text() {
    let mut le = edit("abd");
    le.left();
    let before = (le.text(), le.cursor());
    le.insert('c');
    assert_eq!(le.text(), "abcd");
    le.backspace();
    assert_eq!((le.text(), le.cursor()), before);
}

#[test]
fn kill_and_clear_edit_the_whole_line() {
    let mut le = edit("hello world");
    le.home();
    assert!(le.handle_key(ctrl_key(Code::Right)));
    assert_eq!(le.cursor(), 5);
    assert!(le.handle_key(ctrl('k')));
    assert_eq!(le.text(), "hello");
    assert!(le.handle_key(ctrl('w')));
    assert_eq!(le.text(), "");
    let mut le = edit("x");
    le.clear();
    assert!(le.is_empty());
    assert_eq!(le.cursor(), 0);
}
