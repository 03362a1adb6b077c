use herdr_copy_search::app::App;
use herdr_copy_search::buffer::Buffer;
use herdr_copy_search::extract::ExtractApp;
use herdr_copy_search::keys::{Code, Key, Mods};
use herdr_copy_search::screen::{
    backdrop_row, badge_pair, granularity_badge, indicator_cell, input_prefix, list_row,
    mode_row_part, text_width, view_row, RowPart,
};

fn key(c: char) -> Key {
    Key::new(Code::Char(c), Mods::none())
}

fn app(text: &str, cols: usize, rows: usize) -> App {
    let mut a = App::new(Buffer::from_text(text), false, None);
    a.set_size(cols, rows);
    a
}

fn joined<K>(spans: Vec<(K, String)>) -> String {
    spans.into_iter().map(|(_, s)| s).collect()
}

#[test]
fn view_row_clips_to_the_viewport_width() {
    let a = app("hello world", 5, 3);
    assert_eq!(joined(view_row(&a, 0)), "hello");
}

#[test]
fn view_row_past_the_buffer_is_empty() {
    let a = app("a\nb", 80, 11);
    assert_eq!(joined(view_row(&a, 0)), "a");
    assert_eq!(joined(view_row(&a, 1)), "b");
    assert!(view_row(&a, 5).is_empty());
}

#[test]
fn indicator_cell_sits_flush_right_with_a_pad() {
    let a = app("one\ntwo\nthree", 80, 11);
    assert_eq!(indicator_cell(&a), Some((74, " [3/3]".to_string())));
}

#[test]
fn indicator_cell_is_cut_on_a_narrow_screen() {
    let a = app("one\ntwo\nthree", 4, 11);
    // Cut below 3 cells: "[3" fits, the pad makes it 3 wide.
    assert_eq!(indicator_cell(&a), Some((1, " [3".to_string())));
}

#[test]
fn mode_row_part_follows_the_mode() {
    let mut a = app("foo bar", 80, 11);
    match mode_row_part(&a, 20) {
        RowPart::Dim(h) => assert!(!h.is_empty() && text_width(&h) < 20),
        _ => panic!("idle row shows the hint"),
    }
    a.handle_key(key('n'));
    match mode_row_part(&a, 80) {
        RowPart::Text(t) => assert_eq!(t, "no previous search"),
        _ => panic!("message row"),
    }
    a.handle_key(key('/'));
    a.handle_key(key('b'));
    match mode_row_part(&a, 80) {
        RowPart::Edit(spans) => assert_eq!(
            spans,
            vec![(false, "/b".to_string()), (true, " ".to_string())]
        ),
        _ => panic!("prompt row"),
    }
    assert_eq!(badge_pair(&a), a.theme.badge_search);
}

#[test]
fn backward_prompt_uses_question_mark() {
    let mut a = app("foo", 80, 11);
    a.handle_key(key('?'));
    match mode_row_part(&a, 80) {
        RowPart::Edit(spans) => assert_eq!(spans[0].1, "?"),
        _ => panic!("prompt row"),
    }
}

#[test]
fn text_width_counts_wide_chars_twice() {
    assert_eq!(text_width("\u{4e2d}a"), 3);
    assert_eq!(text_width(""), 0);
}

#[test]
fn list_row_puts_the_selection_at_the_bottom() {
    let mut x = ExtractApp::new("alpha beta gamma", 40, 0);
    x.set_size(80, 30);
    assert_eq!(x.view_rows, 9);
    let bottom = list_row(&x, 8).expect("best match on the bottom row");
    assert!(bottom.1, "bottom row is selected");
    assert_eq!(bottom.0, x.candidates()[x.filtered[0]]);
    let above = list_row(&x, 7).expect("second entry above it");
    assert!(!above.1);
    assert_eq!(list_row(&x, 0), None, "rows past the list are empty");
}

#[test]
fn backdrop_row_shows_the_tail_of_the_source() {
    let buf = Buffer::from_text("l1\nl2\nl3");
    let mut x = ExtractApp::new("l1 l2 l3", 40, buf.lines.len());
    x.set_size(80, 30);
    // 17 content rows over 3 source rows: the tail starts at row 0.
    assert_eq!(joined(backdrop_row(&x, &buf, 0)), "l1");
    assert_eq!(joined(backdrop_row(&x, &buf, 2)), "l3");
    assert!(backdrop_row(&x, &buf, 3).is_empty());
}

#[test]
fn input_prefix_counts_the_matches() {
    let x = ExtractApp::new("alpha beta", 40, 0);
    assert_eq!(input_prefix(&x), format!(" {}> ", x.filtered.len()));
    assert_eq!(granularity_badge(&x).0, "[word]");
}
