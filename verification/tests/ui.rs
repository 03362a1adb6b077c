use herdr_copy_search::ansi;
use herdr_copy_search::app::{App, Mode};
use herdr_copy_search::buffer::Buffer;
use herdr_copy_search::keys::{Code, Key, Mods};
use herdr_copy_search::lineedit::LineEdit;
use herdr_copy_search::ui::{
    buffer_row_spans, clip_spans, extract_hint, indicator, line_edit_spans, mode_badge, mode_hint,
    mode_row_message, row_spans, separator_rule, truncate_to_width, Hl, SpanAttrs,
};

fn key(c: char) -> Key {
    Key::new(Code::Char(c), Mods::none())
}

fn code(c: Code) -> Key {
    Key::new(c, Mods::none())
}

fn app(text: &str) -> App {
    let mut a = App::new(Buffer::from_text(text), false, None);
    a.set_size(80, 11);
    a
}

fn searched(text: &str, pat: &str) -> App {
    let mut a = app(text);
    a.handle_key(key('/'));
    for c in pat.chars() {
        a.handle_key(key(c));
    }
    a.handle_key(code(Code::Enter));
    a
}

/// Project styled spans down to their highlight class.
fn hls(spans: Vec<(SpanAttrs, String)>) -> Vec<(Hl, String)> {
    spans.into_iter().map(|(a, s)| (a.hl, s)).collect()
}

#[test]
fn mode_hint_normal_lists_core_keys() {
    let a = app("hello");
    let h = mode_hint(&a).expect("hint in normal mode");
    assert!(h.contains("search"), "hint mentions search: {h}");
    assert!(h.contains("copy"), "hint mentions copy: {h}");
    assert!(h.contains("quit"), "hint mentions quit: {h}");
}

#[test]
fn mode_hint_switches_when_selecting() {
    let mut a = app("hello world");
    let normal = mode_hint(&a).unwrap();
    a.handle_key(key('v'));
    let selecting = mode_hint(&a).expect("hint while selecting");
    assert_ne!(normal, selecting);
    assert!(selecting.contains("copy"));
}

#[test]
fn mode_hint_hidden_in_prompt_and_menu() {
    let mut a = app("hello");
    a.handle_key(key('/'));
    assert_eq!(mode_hint(&a), None, "prompt shows the query, not a hint");
    a.handle_key(code(Code::Esc));
    a.handle_key(key('p'));
    assert_eq!(mode_hint(&a), None, "pattern menu is its own hint");
}

#[test]
fn mode_hint_truncates_to_row_width() {
    let a = app("hello");
    let hint = mode_hint(&a).expect("hint in normal mode");
    assert!(hint.chars().count() > 20, "full hint is wide: {hint}");
    let clipped = truncate_to_width(hint.clone(), 20);
    assert!(clipped.chars().count() < 20, "clip fits the row: {clipped:?}");
    assert!(clipped.chars().count() < hint.chars().count(), "clip is shorter");
    assert!(hint.starts_with(&clipped), "clip is a prefix of the hint");
    assert!(!clipped.is_empty(), "some hint survives at width 20");
}

#[test]
fn spans_mark_current_match_and_other_matches() {
    let a = searched("foo bar foo", "foo");
    assert_eq!(
        hls(row_spans(&a, 0)),
        vec![
            (Hl::Cursor, "f".into()),
            (Hl::CurrentMatch, "oo".into()),
            (Hl::Plain, " bar ".into()),
            (Hl::Match, "foo".into()),
        ]
    );
}

#[test]
fn selection_wins_over_match_but_not_cursor() {
    let mut a = searched("foo bar foo", "bar");
    a.handle_key(key('v'));
    for _ in 0..2 {
        a.handle_key(key('l'));
    }
    assert_eq!(
        hls(row_spans(&a, 0)),
        vec![
            (Hl::Plain, "foo ".into()),
            (Hl::Sel, "ba".into()),
            (Hl::Cursor, "r".into()),
            (Hl::Plain, " foo".into()),
        ]
    );
}

#[test]
fn cursor_on_empty_line_gets_virtual_cell() {
    let mut a = app("foo\n\nbar");
    a.handle_key(key('g'));
    a.handle_key(key('j'));
    assert_eq!(hls(row_spans(&a, 1)), vec![(Hl::Cursor, " ".into())]);
}

fn styled_app(ansi_text: &str) -> App {
    let mut a = App::new(Buffer::from_ansi(ansi_text), false, None);
    a.set_size(80, 11);
    a
}

#[test]
fn spans_split_on_source_style_change() {
    let a = styled_app("\x1b\x5b31mred\x1b\x5b0m plain");
    let spans = row_spans(&a, 0);
    assert_eq!(spans[0].0.hl, Hl::Cursor);
    assert_eq!(spans[1].1, "ed");
    assert_eq!(spans[1].0.style.fg, ansi::Color::Indexed(1));
    assert_eq!(spans[2].1, " plain");
    assert_eq!(spans[2].0.style, ansi::Style::default());
}

#[test]
fn highlight_merges_across_source_colors() {
    let mut a = styled_app("\x1b\x5b31ma\x1b\x5b32mb\x1b\x5b0m tail");
    a.handle_key(key('/'));
    a.handle_key(key('a'));
    a.handle_key(key('b'));
    a.handle_key(code(Code::Enter));
    let spans = row_spans(&a, 0);
    assert_eq!(hls(spans.clone())[0], (Hl::Cursor, "a".into()));
    assert_eq!(hls(spans)[1], (Hl::CurrentMatch, "b".into()));
}

#[test]
fn buffer_row_spans_merge_by_style() {
    let b = Buffer::from_ansi("\x1b\x5b31mab\x1b\x5b0mcd");
    let spans = buffer_row_spans(&b, 0);
    assert_eq!(spans.len(), 2);
    assert_eq!(spans[0].1, "ab");
    assert_eq!(spans[0].0.fg, ansi::Color::Indexed(1));
    assert_eq!(spans[1].1, "cd");
    assert_eq!(spans[1].0, ansi::Style::default());
}

#[test]
fn clip_drops_cells_left_of_hoff_and_pads_straddling_wide_char() {
    let spans = vec![(Hl::Plain, "\u{4e2d}\u{6587}abc".to_string())];
    assert_eq!(
        clip_spans(spans, 1, 80),
        vec![(Hl::Plain, " \u{6587}abc".to_string())]
    );
}

#[test]
fn clip_stops_at_right_edge_without_splitting_wide_char() {
    let spans = vec![(Hl::Plain, "ab\u{4e2d}cd".to_string())];
    assert_eq!(clip_spans(spans, 0, 3), vec![(Hl::Plain, "ab".to_string())]);
}

#[test]
fn prompt_spans_show_cursor_then_row_yields_back() {
    let mut a = app("foo bar");
    a.handle_key(key('/'));
    a.handle_key(key('b'));
    let Mode::Prompt { input, .. } = &a.mode else {
        panic!("prompt should be open");
    };
    assert_eq!(
        line_edit_spans("/", input, 80),
        vec![(false, "/b".to_string()), (true, " ".to_string())]
    );
    a.handle_key(code(Code::Enter));
    assert_eq!(mode_row_message(&a), None);
    assert_eq!(indicator(&a), "/b \x5b1/1\x5d \x5b1/1\x5d");
}

#[test]
fn mode_badge_names_search_while_prompting() {
    let mut a = app("foo");
    assert_eq!(mode_badge(&a), "\x5bcopy\x5d");
    a.handle_key(key('/'));
    assert_eq!(mode_badge(&a), "\x5bsearch\x5d");
    a.handle_key(code(Code::Esc));
    assert_eq!(mode_badge(&a), "\x5bcopy\x5d");
}

fn line_edit(text: &str, left: usize) -> LineEdit {
    let mut le = LineEdit::default();
    for c in text.chars() {
        le.insert(c);
    }
    for _ in 0..left {
        le.left();
    }
    le
}

#[test]
fn line_edit_spans_mark_the_char_under_the_cursor() {
    assert_eq!(
        line_edit_spans("/", &line_edit("abc", 2), 80),
        vec![
            (false, "/a".to_string()),
            (true, "b".to_string()),
            (false, "c".to_string()),
        ]
    );
}

#[test]
fn line_edit_spans_trim_the_left_to_keep_the_cursor_visible() {
    assert_eq!(
        line_edit_spans("/", &line_edit("abcdef", 0), 5),
        vec![(false, "/def".to_string()), (true, " ".to_string())]
    );
}

#[test]
fn line_edit_spans_clip_the_tail_after_the_cursor() {
    assert_eq!(
        line_edit_spans("/", &line_edit("abcdef", 6), 5),
        vec![
            (false, "/".to_string()),
            (true, "a".to_string()),
            (false, "bcd".to_string()),
        ]
    );
}

#[test]
fn line_edit_spans_handle_wide_chars() {
    let wide = "\u{4e2d}\u{6587}";
    assert_eq!(
        line_edit_spans("/", &line_edit(wide, 0), 4),
        vec![(false, "/\u{6587}".to_string()), (true, " ".to_string())]
    );
}

#[test]
fn mode_row_shows_messages_and_menu() {
    let mut a = app("foo");
    a.handle_key(key('n'));
    assert_eq!(mode_row_message(&a).as_deref(), Some("no previous search"));
    a.handle_key(key('p'));
    assert!(mode_row_message(&a).unwrap().starts_with("pattern:"));
}

#[test]
fn indicator_reflects_selection_and_position() {
    let mut a = app("one\ntwo\nthree");
    assert_eq!(indicator(&a), "\x5b3/3\x5d");
    a.handle_key(key('V'));
    assert_eq!(indicator(&a), "VISUAL LINE \x5b3/3\x5d");
}

#[test]
fn extract_hint_names_core_keys() {
    let h = extract_hint();
    for k in ["copy", "insert", "word/line", "Esc"] {
        assert!(h.contains(k), "extract hint mentions {k}: {h}");
    }
}

#[test]
fn separator_rule_is_one_cell_short_of_the_width() {
    assert_eq!(separator_rule(4), "\u{2500}\u{2500}\u{2500}");
    assert_eq!(separator_rule(0), "");
}

#[test]
fn prompt_too_narrow_shows_only_the_prefix() {
    assert_eq!(
        line_edit_spans("abc", &line_edit("x", 0), 2),
        vec![(false, "a".to_string())]
    );
}

#[test]
fn clip_keeps_span_keys_and_merges_runs() {
    let spans = vec![
        (Hl::Plain, "ab".to_string()),
        (Hl::Match, "cd".to_string()),
        (Hl::Match, "ef".to_string()),
    ];
    assert_eq!(
        clip_spans(spans, 1, 4),
        vec![(Hl::Plain, "b".to_string()), (Hl::Match, "cde".to_string())]
    );
}
