use herdr_copy_search::buffer::{Buffer, Pos};
use herdr_copy_search::search::{Direction, Match, Search};

fn buf() -> Buffer {
    Buffer::from_text("foo bar foo\nbaz\nfoo end")
}

fn p(row: usize, col: usize) -> Pos {
    Pos { row, col }
}

/// Single-row match spanning cols `start..=end` (both inclusive).
fn hit(row: usize, start: usize, end: usize) -> Match {
    Match {
        start: Pos { row, col: start },
        end: Pos { row, col: end },
    }
}

#[test]
fn finds_all_matches_with_char_indices() {
    let b = buf();
    let mut s = Search::default();
    s.run(&b, "foo", Direction::Forward);
    assert_eq!(s.matches, vec![hit(0, 0, 2), hit(0, 8, 10), hit(2, 0, 2)]);
}

#[test]
fn smartcase_lowercase_matches_any_case() {
    let b = Buffer::from_text("Foo foo FOO");
    let mut s = Search::default();
    s.run(&b, "foo", Direction::Forward);
    assert_eq!(s.matches.len(), 3);
}

#[test]
fn smartcase_uppercase_is_case_sensitive() {
    let b = Buffer::from_text("Foo foo FOO");
    let mut s = Search::default();
    s.run(&b, "Foo", Direction::Forward);
    assert_eq!(s.matches, vec![hit(0, 0, 2)]);
}

#[test]
fn smartcase_off_is_always_case_sensitive() {
    let b = Buffer::from_text("Foo foo FOO");
    let mut s = Search {
        smartcase: false,
        ..Default::default()
    };
    s.run(&b, "foo", Direction::Forward);
    assert_eq!(s.matches, vec![hit(0, 4, 6)]);
}

#[test]
fn invalid_regex_falls_back_to_literal() {
    let b = Buffer::from_text("a\x28b\nc");
    let mut s = Search::default();
    s.run(&b, "a\x28b", Direction::Forward);
    assert_eq!(s.matches.len(), 1);
}

#[test]
fn wide_chars_use_char_columns() {
    let b = Buffer::from_text("\u{4e2d}\u{6587}foo");
    let mut s = Search::default();
    s.run(&b, "foo", Direction::Forward);
    assert_eq!(s.matches, vec![hit(0, 2, 4)]);
}

#[test]
fn matches_across_soft_wrap() {
    let b = Buffer::from_reads("foobar\nend", "foo\nbar\nend");
    let mut s = Search::default();
    s.run(&b, "oobar", Direction::Forward);
    assert_eq!(
        s.matches,
        vec![Match {
            start: p(0, 1),
            end: p(1, 2),
        }]
    );
    assert!(s.match_at(p(0, 1)).is_some());
    assert!(s.match_at(p(1, 0)).is_some());
    assert!(s.match_at(p(1, 2)).is_some());
    assert!(s.match_at(p(0, 0)).is_none());
}

#[test]
fn hard_newline_is_not_crossed() {
    let b = Buffer::from_text("foo\nbar");
    let mut s = Search::default();
    s.run(&b, "oobar", Direction::Forward);
    assert!(s.matches.is_empty());
}

#[test]
fn seek_forward_wraps() {
    let b = buf();
    let mut s = Search::default();
    s.run(&b, "foo", Direction::Forward);
    let m = s.seek(p(2, 1), Direction::Forward, false).unwrap();
    assert_eq!(m.start, p(0, 0));
}

#[test]
fn seek_inclusive_stays_on_cursor_match() {
    let b = buf();
    let mut s = Search::default();
    s.run(&b, "foo", Direction::Forward);
    let m = s.seek(p(0, 0), Direction::Forward, true).unwrap();
    assert_eq!(m.start, p(0, 0));
    let m = s.seek(p(0, 0), Direction::Forward, false).unwrap();
    assert_eq!(m.start, p(0, 8));
}

#[test]
fn seek_backward_wraps() {
    let b = buf();
    let mut s = Search::default();
    s.run(&b, "foo", Direction::Backward);
    let m = s.seek(p(0, 0), Direction::Backward, false).unwrap();
    assert_eq!(m.start.row, 2);
}

#[test]
fn next_and_prev_respect_direction() {
    let b = buf();
    let mut s = Search::default();
    s.run(&b, "foo", Direction::Backward);
    let m = s.next(p(2, 0)).unwrap();
    assert_eq!(m.start, p(0, 8));
    let m = s.prev(p(0, 8)).unwrap();
    assert_eq!(m.start, p(2, 0));
}

#[test]
fn match_at_covers_position() {
    let b = buf();
    let mut s = Search::default();
    s.run(&b, "foo", Direction::Forward);
    assert!(s.match_at(Pos { row: 0, col: 9 }).is_some());
    assert!(s.match_at(Pos { row: 0, col: 3 }).is_none());
}

#[test]
fn empty_pattern_has_no_matches_and_seek_none() {
    let b = buf();
    let mut s = Search::default();
    s.run(&b, "", Direction::Forward);
    assert!(s.matches.is_empty());
    assert_eq!(s.seek(p(0, 0), Direction::Forward, true), None);
    assert_eq!(s.current, None);
}

#[test]
fn next_without_a_search_is_none() {
    let mut s = Search::default();
    assert_eq!(s.next(p(0, 0)), None);
    assert_eq!(s.prev(p(0, 0)), None);
}

#[test]
fn seek_sets_current_to_the_returned_match() {
    let b = buf();
    let mut s = Search::default();
    s.run(&b, "foo", Direction::Forward);
    let m = s.seek(p(0, 1), Direction::Forward, false).unwrap();
    assert_eq!(s.current, Some(1));
    assert_eq!(s.matches[1], m);
    s.clear();
    assert!(s.pattern.is_empty() && s.matches.is_empty() && s.current.is_none());
}

#[test]
fn flipping_twice_gives_the_direction_back() {
    assert_eq!(Direction::Forward.flipped(), Direction::Backward);
    assert_eq!(Direction::Backward.flipped().flipped(), Direction::Backward);
}

#[test]
fn regex_pattern_and_empty_matches() {
    let b = Buffer::from_text("a1 b22 c333");
    let mut s = Search::default();
    s.run(&b, "\\d+", Direction::Forward);
    assert_eq!(s.matches, vec![hit(0, 1, 1), hit(0, 4, 5), hit(0, 8, 10)]);
    // A pattern that only matches the empty string yields no hits.
    s.run(&b, "x*", Direction::Forward);
    assert!(s.matches.is_empty());
}

#[test]
fn matches_come_in_buffer_order() {
    let b = Buffer::from_text("a1 b2 c3\nd4\n\ne5 f6");
    let mut s = Search::default();
    s.run(&b, "[0-9]", Direction::Backward);
    assert_eq!(s.matches.len(), 6);
    for w in s.matches.windows(2) {
        let (x, y) = (w[0].start, w[1].start);
        assert!(x.row < y.row || (x.row == y.row && x.col < y.col));
    }
}
