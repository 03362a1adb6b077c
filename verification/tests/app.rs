use herdr_copy_search::app::{App, Effect, Mode, SelKind};
use herdr_copy_search::buffer::{Buffer, Pos};
use herdr_copy_search::keys::{Button, Code, Key, Mods, Mouse, MouseKind};
use herdr_copy_search::patterns::Patterns;

fn key(c: char) -> Key {
    Key::new(Code::Char(c), Mods::none())
}

fn ctrl(c: char) -> Key {
    Key::new(Code::Char(c), Mods::control())
}

fn code(c: Code) -> Key {
    Key::new(c, Mods::none())
}

fn alt(c: char) -> Key {
    Key::new(Code::Char(c), Mods::alt())
}

fn app(text: &str) -> App {
    let mut a = App::new(Buffer::from_text(text), false, None);
    a.set_size(80, 11); // 10 content rows + status
    a
}

fn mouse(kind: MouseKind, col: u16, row: u16) -> Mouse {
    Mouse {
        kind,
        column: col,
        row,
    }
}

fn down(col: u16, row: u16) -> Mouse {
    mouse(MouseKind::Down(Button::Left), col, row)
}

fn drag_to(col: u16, row: u16) -> Mouse {
    mouse(MouseKind::Drag(Button::Left), col, row)
}

fn up(col: u16, row: u16) -> Mouse {
    mouse(MouseKind::Up(Button::Left), col, row)
}

fn lines30() -> String {
    (0..30).map(|i| format!("l{i}\n")).collect::<String>()
}

#[test]
fn starts_at_bottom() {
    let a = app("one\ntwo\nthree");
    assert_eq!(a.cursor, Pos { row: 2, col: 0 });
}

#[test]
fn incremental_search_jumps_and_esc_restores() {
    let mut a = app("alpha\nbeta\ngamma");
    a.handle_key(key('/'));
    a.handle_key(key('b'));
    a.handle_key(key('e'));
    assert_eq!(a.cursor, Pos { row: 1, col: 0 });
    a.handle_key(code(Code::Esc));
    assert_eq!(a.cursor, Pos { row: 2, col: 0 });
    assert!(matches!(a.mode, Mode::Normal));
}

#[test]
fn commit_search_then_n_wraps() {
    let mut a = app("foo\nbar\nfoo\nbaz");
    a.handle_key(key('/'));
    a.handle_key(key('f'));
    a.handle_key(key('o'));
    a.handle_key(key('o'));
    a.handle_key(code(Code::Enter));
    assert_eq!(a.cursor.row, 0);
    a.handle_key(key('n'));
    assert_eq!(a.cursor.row, 2);
    a.handle_key(key('n'));
    assert_eq!(a.cursor.row, 0);
}

#[test]
fn charwise_selection_yank() {
    let mut a = app("hello world");
    a.handle_key(key('g'));
    a.handle_key(key('v'));
    for _ in 0..4 {
        a.handle_key(key('l'));
    }
    let eff = a.handle_key(key('y'));
    assert_eq!(eff, Some(Effect::Copy("hello".into())));
    assert!(a.sel.is_none());
    assert!(!a.quit);
}

#[test]
fn linewise_selection_enter_yanks_and_quits() {
    let mut a = app("one\ntwo\nthree");
    a.handle_key(key('g'));
    a.handle_key(key('V'));
    a.handle_key(key('j'));
    let eff = a.handle_key(code(Code::Enter));
    assert_eq!(eff, Some(Effect::Copy("one\ntwo\n".into())));
    assert!(a.quit);
}

#[test]
fn yank_without_selection_copies_match_under_cursor() {
    let mut a = app("foo bar");
    a.handle_key(key('/'));
    a.handle_key(key('b'));
    a.handle_key(key('a'));
    a.handle_key(key('r'));
    a.handle_key(code(Code::Enter));
    let eff = a.handle_key(key('y'));
    assert_eq!(eff, Some(Effect::Copy("bar".into())));
}

#[test]
fn yank_match_across_soft_wrap_joins_rows() {
    let mut a = App::new(Buffer::from_reads("foobar\nend", "foo\nbar\nend"), false, None);
    a.set_size(80, 11);
    a.handle_key(key('/'));
    for c in "oobar".chars() {
        a.handle_key(key(c));
    }
    a.handle_key(code(Code::Enter));
    let eff = a.handle_key(key('y'));
    assert_eq!(eff, Some(Effect::Copy("oobar".into())));
}

#[test]
fn enter_without_selection_or_match_quits() {
    let mut a = app("text");
    let eff = a.handle_key(code(Code::Enter));
    assert!(eff.is_none());
    assert!(a.quit);
}

#[test]
fn enter_on_match_without_selection_copies_and_quits() {
    let mut a = app("foo bar");
    a.handle_key(key('/'));
    a.handle_key(key('b'));
    a.handle_key(key('a'));
    a.handle_key(key('r'));
    a.handle_key(code(Code::Enter));
    let eff = a.handle_key(code(Code::Enter));
    assert_eq!(eff, Some(Effect::Copy("bar".into())));
    assert!(a.quit);
}

#[test]
fn question_mark_searches_backward() {
    let mut a = app("foo\nmid\nfoo\nend");
    a.handle_key(key('G'));
    a.handle_key(key('?'));
    a.handle_key(key('f'));
    a.handle_key(key('o'));
    a.handle_key(key('o'));
    assert_eq!(a.cursor.row, 2);
    a.handle_key(code(Code::Enter));
    a.handle_key(key('n'));
    assert_eq!(a.cursor.row, 0);
}

#[test]
fn prompt_left_arrow_edits_mid_query() {
    let mut a = app("alpha\nbeta\ngamma");
    a.handle_key(key('/'));
    for c in "bta".chars() {
        a.handle_key(key(c));
    }
    assert_eq!(a.cursor.row, 2);
    let left = code(Code::Left);
    a.handle_key(left);
    a.handle_key(left);
    a.handle_key(key('e'));
    assert_eq!(a.cursor, Pos { row: 1, col: 0 });
    let Mode::Prompt { input, .. } = &a.mode else {
        panic!("prompt should stay open");
    };
    assert_eq!(input.text(), "beta");
}

#[test]
fn prompt_home_and_delete_edit_the_query() {
    let mut a = app("xfoo\nfoo");
    a.handle_key(key('/'));
    for c in "xfoo".chars() {
        a.handle_key(key(c));
    }
    a.handle_key(code(Code::Home));
    a.handle_key(code(Code::Delete));
    assert_eq!(a.search.pattern, "foo");
    assert_eq!(a.search.matches.len(), 2);
}

#[test]
fn pattern_menu_selects_url_search() {
    let mut a = app("visit https://x.dev now\nplain tail");
    a.handle_key(key('p'));
    assert!(matches!(a.mode, Mode::PatternMenu));
    a.handle_key(key('u'));
    assert!(matches!(a.mode, Mode::Normal));
    assert_eq!(a.cursor, Pos { row: 0, col: 6 });
    assert_eq!(a.search.matches.len(), 1);
}

#[test]
fn pattern_menu_esc_cancels_and_unknown_key_reports() {
    let mut a = app("text");
    a.handle_key(key('p'));
    a.handle_key(code(Code::Esc));
    assert!(matches!(a.mode, Mode::Normal));
    assert!(!a.quit);
    a.handle_key(key('p'));
    a.handle_key(key('z'));
    assert_eq!(a.message.as_deref(), Some("no pattern: z"));
}

#[test]
fn ctrl_c_quits_from_normal() {
    let mut a = app("text");
    a.handle_key(ctrl('c'));
    assert!(a.quit);
}

#[test]
fn ctrl_c_quits_from_prompt() {
    let mut a = app("text");
    a.handle_key(key('/'));
    assert!(matches!(a.mode, Mode::Prompt { .. }));
    a.handle_key(ctrl('c'));
    assert!(a.quit);
}

#[test]
fn ctrl_c_quits_from_pattern_menu() {
    let mut a = app("text");
    a.handle_key(key('p'));
    assert!(matches!(a.mode, Mode::PatternMenu));
    a.handle_key(ctrl('c'));
    assert!(a.quit);
}

#[test]
fn alt_key_activates_pattern_backward_and_n_walks_up() {
    let mut a = app("num 1\nnum 2\nnum 3");
    a.handle_key(alt('d'));
    assert_eq!(a.cursor, Pos { row: 1, col: 4 });
    a.handle_key(key('n'));
    assert_eq!(a.cursor, Pos { row: 0, col: 4 });
    a.handle_key(key('N'));
    assert_eq!(a.cursor, Pos { row: 1, col: 4 });
}

#[test]
fn text_object_inner_word_selects_word() {
    let mut a = app("foo bar baz");
    a.handle_key(key('g'));
    for _ in 0..5 {
        a.handle_key(key('l'));
    }
    a.handle_key(key('i'));
    a.handle_key(key('w'));
    let eff = a.handle_key(key('y'));
    assert_eq!(eff, Some(Effect::Copy("bar".into())));
}

#[test]
fn text_object_after_v_redefines_the_selection() {
    let mut a = app("foo bar baz");
    a.handle_key(key('g'));
    for _ in 0..5 {
        a.handle_key(key('l'));
    }
    a.handle_key(key('v'));
    a.handle_key(key('i'));
    a.handle_key(key('w'));
    let eff = a.handle_key(key('y'));
    assert_eq!(eff, Some(Effect::Copy("bar".into())));
}

#[test]
fn text_object_a_word_includes_trailing_space() {
    let mut a = app("foo bar baz");
    a.handle_key(key('g'));
    for _ in 0..5 {
        a.handle_key(key('l'));
    }
    a.handle_key(key('a'));
    a.handle_key(key('w'));
    let eff = a.handle_key(key('y'));
    assert_eq!(eff, Some(Effect::Copy("bar ".into())));
}

#[test]
fn text_object_inner_big_word_spans_punct() {
    let mut a = app("foo bar.baz qux");
    a.handle_key(key('g'));
    for _ in 0..5 {
        a.handle_key(key('l'));
    }
    a.handle_key(key('i'));
    a.handle_key(key('W'));
    let eff = a.handle_key(key('y'));
    assert_eq!(eff, Some(Effect::Copy("bar.baz".into())));
}

#[test]
fn incomplete_text_object_is_cancelled() {
    let mut a = app("foo bar baz");
    a.handle_key(key('i'));
    a.handle_key(key('z'));
    assert!(a.sel.is_none());
    assert!(!a.quit);
}

#[test]
fn smartcase_toggle_reruns_search_case_sensitively() {
    let mut a = app("Foo\nfoo\nFOO");
    a.handle_key(key('/'));
    for c in "foo".chars() {
        a.handle_key(key(c));
    }
    a.handle_key(code(Code::Enter));
    assert_eq!(a.search.matches.len(), 3);
    a.handle_key(key('S'));
    assert!(!a.search.smartcase);
    assert_eq!(a.search.matches.len(), 1);
    a.handle_key(key('S'));
    assert!(a.search.smartcase);
    assert_eq!(a.search.matches.len(), 3);
}

#[test]
fn custom_pattern_activates_via_alt_key() {
    let mut a = app("id 42\nid abc\nid 7");
    a.set_patterns(Patterns::from_config("pattern_z = \"id \\d+\"\n"));
    a.handle_key(alt('z'));
    assert_eq!(a.cursor, Pos { row: 2, col: 0 });
    assert_eq!(a.search.matches.len(), 2);
}

#[test]
fn view_reserves_the_mode_row() {
    let mut a = App::new(Buffer::from_text(&lines30()), false, None);
    a.set_size(80, 10);
    assert_eq!(a.view_rows, 10);
    assert_eq!(a.top, 21, "bottom row is the persistent mode row");
}

#[test]
fn screen_rows_anchor_the_opening_view() {
    let mut a = App::new(Buffer::from_text(&lines30()), false, Some(4));
    a.set_size(80, 10);
    assert_eq!(a.top, 26);
    assert_eq!(a.cursor.row, 29);
    let wheel = |kind| Mouse {
        kind,
        column: 0,
        row: 0,
    };
    let t: u64 = 1_000;
    a.handle_mouse(wheel(MouseKind::ScrollDown), t);
    assert_eq!(a.top, 26);
    a.handle_mouse(wheel(MouseKind::ScrollUp), t);
    assert_eq!(a.top, 23, "scrolling up into history is free");
}

#[test]
fn double_click_selects_the_word_under_the_cursor() {
    let mut a = app("visit https://x.dev now");
    let t: u64 = 1_000;
    a.handle_mouse(down(8, 0), t);
    a.handle_mouse(up(8, 0), t);
    a.handle_mouse(down(8, 0), t);
    assert_eq!(a.sel, Some((SelKind::Char, Pos { row: 0, col: 6 })));
    assert_eq!(a.cursor, Pos { row: 0, col: 18 });
    assert_eq!(a.selection_text().as_deref(), Some("https://x.dev"));
}

#[test]
fn double_click_on_whitespace_is_a_plain_click() {
    let mut a = app("foo bar");
    let t: u64 = 1_000;
    a.handle_mouse(down(3, 0), t);
    a.handle_mouse(up(3, 0), t);
    a.handle_mouse(down(3, 0), t);
    assert!(a.sel.is_none(), "no lone-space selection");
    assert_eq!(a.cursor, Pos { row: 0, col: 3 });
}

#[test]
fn triple_click_selects_the_soft_wrapped_logical_line() {
    let mut a = App::new(
        Buffer::from_reads("abcdefghijkl\nend", "abcd\nefgh\nijkl\nend"),
        false,
        None,
    );
    a.set_size(80, 11);
    let t: u64 = 1_000;
    for _ in 0..2 {
        a.handle_mouse(down(1, 1), t);
        a.handle_mouse(up(1, 1), t);
    }
    a.handle_mouse(down(1, 1), t);
    assert_eq!(a.sel, Some((SelKind::Line, Pos { row: 0, col: 0 })));
    assert_eq!(a.cursor, Pos { row: 2, col: 3 });
    assert_eq!(a.selection_text().as_deref(), Some("abcdefghijkl\n"));
}

#[test]
fn mouse_click_release_copies_nothing() {
    let mut a = app("hello world");
    let t: u64 = 1_000;
    assert_eq!(a.handle_mouse(down(6, 0), t), None);
    assert_eq!(a.cursor, Pos { row: 0, col: 6 });
    assert_eq!(a.handle_mouse(up(6, 0), t), None);
    assert!(a.sel.is_none());
}

#[test]
fn mouse_drag_release_copies_the_selection() {
    let mut a = app("hello world");
    let t: u64 = 1_000;
    a.handle_mouse(down(0, 0), t);
    a.handle_mouse(drag_to(4, 0), t);
    let eff = a.handle_mouse(up(4, 0), t);
    assert_eq!(eff, Some(Effect::Copy("hello".into())));
    assert_eq!(a.message.as_deref(), Some("copied 5 chars"));
    assert_eq!(
        a.sel,
        Some((SelKind::Char, Pos { row: 0, col: 0 })),
        "the selection stays highlighted after a mouse copy"
    );
    assert!(!a.quit, "mouse copy stays in copy mode");
}

#[test]
fn double_click_release_copies_the_word() {
    let mut a = app("visit https://x.dev now");
    let t: u64 = 1_000;
    a.handle_mouse(down(8, 0), t);
    assert_eq!(a.handle_mouse(up(8, 0), t), None, "first release is a click");
    a.handle_mouse(down(8, 0), t);
    let eff = a.handle_mouse(up(8, 0), t);
    assert_eq!(eff, Some(Effect::Copy("https://x.dev".into())));
    assert_eq!(a.message.as_deref(), Some("copied 13 chars"));
    assert_eq!(
        a.sel,
        Some((SelKind::Char, Pos { row: 0, col: 6 })),
        "the word stays highlighted"
    );
    assert!(!a.quit);
}

#[test]
fn double_click_on_whitespace_release_copies_nothing() {
    let mut a = app("foo bar");
    let t: u64 = 1_000;
    a.handle_mouse(down(3, 0), t);
    a.handle_mouse(up(3, 0), t);
    a.handle_mouse(down(3, 0), t);
    assert_eq!(a.handle_mouse(up(3, 0), t), None);
    assert!(a.sel.is_none());
}

#[test]
fn triple_click_release_copies_the_logical_line() {
    let mut a = App::new(
        Buffer::from_reads("abcdefghijkl\nend", "abcd\nefgh\nijkl\nend"),
        false,
        None,
    );
    a.set_size(80, 11);
    let t: u64 = 1_000;
    for _ in 0..2 {
        a.handle_mouse(down(1, 1), t);
        a.handle_mouse(up(1, 1), t);
    }
    a.handle_mouse(down(1, 1), t);
    let eff = a.handle_mouse(up(1, 1), t);
    assert_eq!(eff, Some(Effect::Copy("abcdefghijkl\n".into())));
    assert_eq!(a.message.as_deref(), Some("copied 13 chars"));
    assert_eq!(
        a.sel,
        Some((SelKind::Line, Pos { row: 0, col: 0 })),
        "the line stays highlighted"
    );
}

#[test]
fn fourth_click_repeats_the_line_copy() {
    let mut a = app("one line");
    let t: u64 = 1_000;
    for _ in 0..3 {
        a.handle_mouse(down(2, 0), t);
        a.handle_mouse(up(2, 0), t);
    }
    a.handle_mouse(down(2, 0), t);
    assert_eq!(a.sel, Some((SelKind::Line, Pos { row: 0, col: 0 })));
    assert_eq!(
        a.handle_mouse(up(2, 0), t),
        Some(Effect::Copy("one line\n".into()))
    );
}

#[test]
fn full_screen_capture_fills_the_view() {
    let mut a = App::new(Buffer::from_text(&lines30()), false, Some(10));
    a.set_size(80, 10);
    assert_eq!(a.top, 21, "anchor clamps to the content rows");
}

#[test]
fn search_hits_stay_above_the_mode_row() {
    let mut a = App::new(Buffer::from_text(&lines30()), false, None);
    a.set_size(80, 10);
    a.handle_key(key('/'));
    for c in "l29".chars() {
        a.handle_key(key(c));
    }
    assert_eq!(a.cursor.row, 29);
    assert_eq!(a.top, 21);
}

#[test]
fn horizontal_scroll_follows_cursor() {
    let long = "x".repeat(100);
    let mut a = app(&long);
    a.handle_key(key('$'));
    assert_eq!(a.hoff, 20);
    a.handle_key(key('0'));
    assert_eq!(a.hoff, 0);
}

#[test]
fn horizontal_scroll_keeps_wide_cursor_fully_visible() {
    let wide = "\u{4e2d}".repeat(50);
    let mut a = app(&wide);
    a.handle_key(key('$'));
    assert_eq!(a.hoff, 20);
}

#[test]
fn want_col_is_kept_across_short_lines() {
    let mut a = app("longline\nab\nlongline");
    a.handle_key(key('g'));
    a.handle_key(key('$'));
    a.handle_key(key('j'));
    assert_eq!(a.cursor.col, 1);
    a.handle_key(key('j'));
    assert_eq!(a.cursor.col, 7);
}

#[test]
fn search_mode_starts_with_an_open_prompt() {
    let mut a = App::new(Buffer::from_text("abc\nabd"), true, None);
    a.set_size(80, 11);
    assert!(matches!(a.mode, Mode::Prompt { .. }));
    a.handle_key(key('a'));
    a.handle_key(key('b'));
    a.handle_key(key('d'));
    assert_eq!(a.cursor, Pos { row: 1, col: 0 });
}

#[test]
fn n_without_a_search_reports_it() {
    let mut a = app("abc");
    a.handle_key(key('n'));
    assert_eq!(a.message.as_deref(), Some("no previous search"));
    a.handle_key(key('/'));
    a.handle_key(key('z'));
    a.handle_key(code(Code::Enter));
    assert_eq!(a.message.as_deref(), Some("no match: z"));
}

#[test]
fn paragraph_and_line_motions_move_the_cursor() {
    let mut a = app("a b\n\n  c d\ne");
    a.handle_key(key('g'));
    a.handle_key(key('}'));
    assert_eq!(a.cursor, Pos { row: 1, col: 0 });
    a.handle_key(key('j'));
    a.handle_key(key('^'));
    assert_eq!(a.cursor, Pos { row: 2, col: 2 });
    a.handle_key(key('w'));
    assert_eq!(a.cursor, Pos { row: 2, col: 4 });
    a.handle_key(key('b'));
    assert_eq!(a.cursor, Pos { row: 2, col: 2 });
    a.handle_key(key('{'));
    assert_eq!(a.cursor, Pos { row: 1, col: 0 });
    a.handle_key(key('G'));
    assert_eq!(a.cursor, Pos { row: 3, col: 0 });
}

#[test]
fn esc_clears_the_selection_before_quitting() {
    let mut a = app("abc");
    a.handle_key(key('v'));
    assert!(a.sel.is_some());
    a.handle_key(code(Code::Esc));
    assert!(a.sel.is_none());
    assert!(!a.quit);
    a.handle_key(code(Code::Esc));
    assert!(a.quit);
}

#[test]
fn selection_range_covers_the_rows_between_anchor_and_cursor() {
    let mut a = app("one\ntwo\nthree");
    a.handle_key(key('g'));
    a.handle_key(key('l'));
    a.handle_key(key('v'));
    a.handle_key(key('j'));
    assert_eq!(a.sel_range(0), Some((1, usize::MAX)));
    assert_eq!(a.sel_range(1), Some((0, 1)));
    assert_eq!(a.sel_range(2), None);
}

#[test]
fn pending_text_object_takes_the_next_key_even_ctrl_c() {
    let mut a = app("foo bar");
    a.handle_key(key('i'));
    a.handle_key(ctrl('c'));
    assert!(!a.quit, "ctrl+c cancels the pending text object");
    a.handle_key(ctrl('c'));
    assert!(a.quit);
}

#[test]
fn ctrl_c_quits_the_extract_picker_with_a_query() {
    let mut x = herdr_copy_search::extract::ExtractApp::new("alpha beta", 40, 0);
    x.handle_key(key('a'));
    assert_eq!(x.handle_key(ctrl('c')), None);
    assert!(x.quit);
}

#[test]
fn large_copy_note_counts_chars() {
    let mut a = app("foo");
    a.note_large_copy("h\u{e9}llo");
    assert_eq!(
        a.message.as_deref(),
        Some("copied 5 chars (large; terminal may truncate)")
    );
}

#[test]
fn second_press_after_the_window_is_a_plain_click() {
    let mut a = app("visit https://x.dev now");
    a.handle_mouse(down(8, 0), 1_000);
    a.handle_mouse(up(8, 0), 1_000);
    a.handle_mouse(down(8, 0), 1_400);
    assert_eq!(a.sel, None, "400 ms later the run starts over");
    a.handle_mouse(up(8, 0), 1_400);
    a.handle_mouse(down(8, 0), 1_799);
    assert!(a.sel.is_some(), "399 ms later it is a double click");
}
