use herdr_copy_search::extract::{
    fuzzy_score, popup_layout, rank, tokenize_lines, tokenize_words, ExtractApp, ExtractEffect,
    Granularity,
};
use herdr_copy_search::keys::{Code, Key, Mods, Mouse, MouseKind};

fn key(c: char) -> Key {
    Key::new(Code::Char(c), Mods::none())
}

fn ctrl(c: char) -> Key {
    Key::new(Code::Char(c), Mods::control())
}

fn code(c: Code) -> Key {
    Key::new(c, Mods::none())
}

#[test]
fn words_are_trimmed_deduped_and_newest_first() {
    let text = "run src/app.rs:12:5 \x28ok\x29\nsee https://x.dev, done\nsee run";
    assert_eq!(
        tokenize_words(text, 3),
        vec!["see", "run", "https://x.dev", "done", "src/app.rs:12:5"]
    );
}

#[test]
fn short_tokens_are_dropped() {
    assert_eq!(tokenize_words("a bb ccc dddd", 3), vec!["ccc", "dddd"]);
}

#[test]
fn lines_are_trimmed_deduped_and_newest_first() {
    let text = "first\n\n  second  \nfirst";
    assert_eq!(tokenize_lines(text), vec!["first", "second"]);
}

#[test]
fn fuzzy_requires_subsequence() {
    assert!(fuzzy_score("xyz", "abc").is_none());
    assert!(fuzzy_score("abc", "a1b2c3").is_some());
    assert_eq!(fuzzy_score("", "anything"), Some(0));
}

#[test]
fn fuzzy_is_case_insensitive() {
    assert!(fuzzy_score("ABC", "abc").is_some());
}

#[test]
fn consecutive_hits_beat_gapped_hits() {
    assert!(fuzzy_score("abc", "abc").unwrap() > fuzzy_score("abc", "a_b_c").unwrap());
}

#[test]
fn segment_starts_beat_interior_hits() {
    assert!(fuzzy_score("app", "src/app.rs").unwrap() > fuzzy_score("app", "zapp.rs").unwrap());
}

#[test]
fn rank_keeps_recency_on_ties() {
    let cands = vec!["bbb".to_string(), "aaa".to_string()];
    assert_eq!(rank("", &cands), vec![0, 1]);
}

#[test]
fn popup_layout_splits_forty_percent() {
    assert_eq!(popup_layout(30, 40), (18, 9));
}

#[test]
fn popup_layout_clamps_small_and_full() {
    assert_eq!(popup_layout(30, 100), (0, 27));
    assert_eq!(popup_layout(30, 1), (26, 1), "minimum popup of 4 rows");
    assert_eq!(popup_layout(2, 40), (0, 1), "tiny terminal survives");
}

#[test]
fn typing_filters_and_enter_inserts_best_match() {
    let mut a = ExtractApp::new("alpha\nbeta\ngamma", 100, 0);
    assert_eq!(a.selected_text(), Some("gamma"));
    a.handle_key(key('b'));
    a.handle_key(key('e'));
    assert_eq!(a.selected_text(), Some("beta"));
    let eff = a.handle_key(code(Code::Enter));
    assert_eq!(eff, Some(ExtractEffect::Insert("beta".into())));
    assert!(a.quit);
}

#[test]
fn tab_copies_selected() {
    let mut a = ExtractApp::new("alpha\nbeta", 100, 0);
    let eff = a.handle_key(code(Code::Tab));
    assert_eq!(eff, Some(ExtractEffect::Copy("beta".into())));
    assert!(a.quit);
}

#[test]
fn ctrl_t_toggles_line_granularity() {
    let mut a = ExtractApp::new("one two\nthree four", 100, 0);
    a.handle_key(ctrl('t'));
    assert_eq!(a.granularity, Granularity::Line);
    assert_eq!(a.selected_text(), Some("three four"));
}

#[test]
fn esc_clears_query_then_quits() {
    let mut a = ExtractApp::new("alpha", 100, 0);
    a.handle_key(key('a'));
    a.handle_key(code(Code::Esc));
    assert_eq!(a.query.text(), "");
    assert!(!a.quit);
    a.handle_key(code(Code::Esc));
    assert!(a.quit);
}

#[test]
fn query_cursor_editing_refilters() {
    let mut a = ExtractApp::new("beta\nbta", 100, 0);
    a.handle_key(key('b'));
    a.handle_key(key('t'));
    a.handle_key(key('a'));
    assert_eq!(a.selected_text(), Some("bta"));
    a.handle_key(code(Code::Left));
    a.handle_key(code(Code::Left));
    a.handle_key(key('e'));
    assert_eq!(a.query.text(), "beta");
    assert_eq!(a.selected_text(), Some("beta"));
}

#[test]
fn backdrop_scroll_clamps_to_history() {
    let mut a = ExtractApp::new("x", 40, 50);
    a.set_size(80, 30);
    a.scroll_backdrop(3);
    assert_eq!(a.backdrop_off, 3);
    a.scroll_backdrop(1000);
    assert_eq!(a.backdrop_off, 33, "oldest read line stays on screen");
    a.scroll_backdrop(-1000);
    assert_eq!(a.backdrop_off, 0);
}

#[test]
fn backdrop_scroll_noop_without_backdrop_or_history() {
    let mut a = ExtractApp::new("x", 100, 50);
    a.set_size(80, 30);
    a.scroll_backdrop(5);
    assert_eq!(a.backdrop_off, 0);
    let mut b = ExtractApp::new("x", 40, 10);
    b.set_size(80, 30);
    b.scroll_backdrop(5);
    assert_eq!(b.backdrop_off, 0);
}

#[test]
fn page_keys_scroll_the_backdrop() {
    let mut a = ExtractApp::new("x", 40, 100);
    a.set_size(80, 30);
    a.handle_key(code(Code::PageUp));
    assert_eq!(a.backdrop_off, 17);
    a.handle_key(code(Code::PageDown));
    assert_eq!(a.backdrop_off, 0);
}

#[test]
fn resize_reclamps_the_backdrop_offset() {
    let mut a = ExtractApp::new("x", 40, 20);
    a.set_size(80, 30);
    a.scroll_backdrop(1000);
    assert_eq!(a.backdrop_off, 3);
    a.set_size(80, 40);
    assert_eq!(a.backdrop_off, 0);
}

#[test]
fn wheel_scrolls_backdrop_or_selection_by_region() {
    let mut a = ExtractApp::new("one\ntwo\nthree\nfour", 40, 100);
    a.set_size(80, 30);
    let wheel = |row: u16, kind| Mouse {
        kind,
        column: 0,
        row,
    };
    a.handle_mouse(wheel(0, MouseKind::ScrollUp));
    assert_eq!(a.backdrop_off, 3);
    a.handle_mouse(wheel(0, MouseKind::ScrollDown));
    assert_eq!(a.backdrop_off, 0);
    a.handle_mouse(wheel(20, MouseKind::ScrollUp));
    assert_eq!(a.selected, 1);
    a.handle_mouse(wheel(20, MouseKind::ScrollDown));
    assert_eq!(a.selected, 0);
}

#[test]
fn selection_moves_within_bounds_and_window_follows() {
    let mut a = ExtractApp::new("one\ntwo\nthree\nfour", 100, 0);
    a.set_size(80, 5);
    assert_eq!(a.filtered.len(), 4);
    a.handle_key(code(Code::Up));
    a.handle_key(code(Code::Up));
    a.handle_key(code(Code::Up));
    assert_eq!(a.selected, 3);
    a.handle_key(code(Code::Up));
    assert_eq!(a.selected, 3, "clamped at oldest");
    assert_eq!(a.window(), &a.filtered[2..4]);
    assert_eq!(a.window_selected(), 1);
    a.handle_key(ctrl('n'));
    assert_eq!(a.selected, 2);
}

#[test]
fn fuzzy_scores_exact_values() {
    // 'a' at a segment start: 4 + 8; 'b' consecutive: 4 + 16; 'c': 4 + 16.
    assert_eq!(fuzzy_score("abc", "abc"), Some(52));
    // Each skipped char costs 1, and chars after the query ran out too.
    assert_eq!(fuzzy_score("a", "xa"), Some(-1 + 4));
    assert_eq!(fuzzy_score("a", "ax"), Some(12 - 1));
}

#[test]
fn rank_orders_by_score_then_recency() {
    let cands = vec!["a_b".to_string(), "ab".to_string(), "zzz".to_string(), "ab".to_string()];
    assert_eq!(rank("ab", &cands), vec![1, 3, 0]);
}

#[test]
fn tokens_are_distinct() {
    let words = tokenize_words("abc abc abc\nabc def", 3);
    assert_eq!(words, vec!["abc", "def"]);
    let lines = tokenize_lines("x\nx\n x \n");
    assert_eq!(lines, vec!["x"]);
}

#[test]
fn empty_list_ignores_enter_and_moves() {
    let mut a = ExtractApp::new("", 40, 0);
    assert_eq!(a.selected_text(), None);
    assert_eq!(a.handle_key(code(Code::Enter)), None);
    a.handle_key(code(Code::Up));
    assert_eq!(a.selected, 0);
    assert!(!a.quit);
}
