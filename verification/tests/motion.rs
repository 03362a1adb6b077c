use herdr_copy_search::buffer::{Buffer, Pos};
use herdr_copy_search::motion::{
    para_backward, para_forward, word_backward, word_end, word_forward, word_object,
};

fn p(row: usize, col: usize) -> Pos {
    Pos { row, col }
}

#[test]
fn word_forward_walks_runs_and_lines() {
    let b = Buffer::from_text("foo  bar.baz\nqux");
    assert_eq!(word_forward(&b, p(0, 0)), p(0, 5));
    assert_eq!(word_forward(&b, p(0, 5)), p(0, 8));
    assert_eq!(word_forward(&b, p(0, 8)), p(0, 9));
    assert_eq!(word_forward(&b, p(0, 9)), p(1, 0));
    assert_eq!(word_forward(&b, p(1, 0)), p(1, 2));
}

#[test]
fn word_backward_walks_runs_and_lines() {
    let b = Buffer::from_text("foo  bar.baz\nqux");
    assert_eq!(word_backward(&b, p(1, 0)), p(0, 9));
    assert_eq!(word_backward(&b, p(0, 9)), p(0, 8));
    assert_eq!(word_backward(&b, p(0, 8)), p(0, 5));
    assert_eq!(word_backward(&b, p(0, 5)), p(0, 0));
    assert_eq!(word_backward(&b, p(0, 0)), p(0, 0));
}

#[test]
fn word_end_stops_at_run_ends() {
    let b = Buffer::from_text("foo bar\nbaz");
    assert_eq!(word_end(&b, p(0, 0)), p(0, 2));
    assert_eq!(word_end(&b, p(0, 2)), p(0, 6));
    assert_eq!(word_end(&b, p(0, 6)), p(1, 2));
}

#[test]
fn word_motions_span_soft_wrapped_words() {
    let b = Buffer::from_reads("foobar\nend", "foo\nbar\nend");
    assert!(b.line(0).soft_wrap);
    assert!(!b.line(1).soft_wrap);
    assert_eq!(word_forward(&b, p(0, 0)), p(2, 0));
    assert_eq!(word_end(&b, p(0, 0)), p(1, 2));
    assert_eq!(word_backward(&b, p(2, 0)), p(0, 0));
    assert_eq!(word_backward(&b, p(1, 1)), p(0, 0));
}

#[test]
fn word_backward_respects_hard_newline() {
    let b = Buffer::from_text("foo\nbar");
    assert_eq!(word_backward(&b, p(1, 1)), p(1, 0));
}

#[test]
fn word_motions_skip_empty_lines() {
    let b = Buffer::from_text("foo\n\nbar");
    assert_eq!(word_forward(&b, p(0, 2)), p(2, 0));
    assert_eq!(word_backward(&b, p(2, 0)), p(0, 0));
}

#[test]
fn inner_word_spans_the_word_under_cursor() {
    let b = Buffer::from_text("foo bar.baz");
    assert_eq!(word_object(&b, p(0, 5), false, false), (p(0, 4), p(0, 6)));
    assert_eq!(word_object(&b, p(0, 1), false, false), (p(0, 0), p(0, 2)));
    assert_eq!(word_object(&b, p(0, 7), false, false), (p(0, 7), p(0, 7)));
}

#[test]
fn word_object_spans_soft_wrapped_word() {
    let b = Buffer::from_reads("foobar\nend", "foo\nbar\nend");
    assert_eq!(word_object(&b, p(1, 1), false, false), (p(0, 0), p(1, 2)));
    assert_eq!(word_object(&b, p(0, 1), false, false), (p(0, 0), p(1, 2)));
}

#[test]
fn inner_big_word_spans_to_whitespace() {
    let b = Buffer::from_text("foo bar.baz qux");
    assert_eq!(word_object(&b, p(0, 5), false, true), (p(0, 4), p(0, 10)));
}

#[test]
fn around_word_includes_trailing_space() {
    let b = Buffer::from_text("foo bar baz");
    assert_eq!(word_object(&b, p(0, 5), true, false), (p(0, 4), p(0, 7)));
}

#[test]
fn around_word_at_line_end_includes_leading_space() {
    let b = Buffer::from_text("foo bar");
    assert_eq!(word_object(&b, p(0, 5), true, false), (p(0, 3), p(0, 6)));
}

#[test]
fn inner_word_on_space_selects_the_space_run() {
    let b = Buffer::from_text("foo   bar");
    assert_eq!(word_object(&b, p(0, 4), false, false), (p(0, 3), p(0, 5)));
}

#[test]
fn around_word_on_space_includes_following_word() {
    let b = Buffer::from_text("foo   bar.baz");
    assert_eq!(word_object(&b, p(0, 4), true, false), (p(0, 3), p(0, 8)));
}

#[test]
fn word_object_on_empty_line_is_a_point() {
    let b = Buffer::from_text("foo\n\nbar");
    assert_eq!(word_object(&b, p(1, 0), false, false), (p(1, 0), p(1, 0)));
}

#[test]
fn paragraph_motions_find_blank_lines() {
    let b = Buffer::from_text("a\nb\n\nc\nd\n\ne");
    assert_eq!(para_forward(&b, 0), 2);
    assert_eq!(para_forward(&b, 2), 5);
    assert_eq!(para_backward(&b, 6), 5);
    assert_eq!(para_backward(&b, 5), 2);
    assert_eq!(para_backward(&b, 1), 0);
}

#[test]
fn word_motions_stay_put_at_buffer_ends() {
    let b = Buffer::from_text("one two");
    assert_eq!(word_forward(&b, p(0, 4)), p(0, 6));
    assert_eq!(word_backward(&b, p(0, 0)), p(0, 0));
    assert_eq!(word_end(&b, p(0, 6)), p(0, 6));
}
