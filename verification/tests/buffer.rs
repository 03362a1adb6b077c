use herdr_copy_search::ansi;
use herdr_copy_search::buffer::{Buffer, Line, Pos};

#[test]
fn from_text_trims_trailing_blank_lines() {
    let b = Buffer::from_text("a\nb\n\n\n");
    assert_eq!(b.lines.len(), 2);
}

#[test]
fn from_ansi_plain_matches_from_text() {
    let b = Buffer::from_ansi("a\tb\nc\n\n");
    assert_eq!(b.lines.len(), 2);
    assert_eq!(b.lines[0].text(), "a    b");
    assert!(b.lines[0].styles.is_empty());
}

#[test]
fn from_ansi_keeps_styles() {
    let b = Buffer::from_ansi("\x1b\x5b31mred\x1b\x5b0m ok");
    assert_eq!(b.lines[0].text(), "red ok");
    assert_eq!(b.lines[0].style_at(0).fg, ansi::Color::Indexed(1));
    assert_eq!(b.lines[0].style_at(4), ansi::Style::default());
}

#[test]
fn from_reads_marks_wrapped_rows_and_joins_yanks() {
    // Logical: one 8-char line wrapped at 4 cols, then a short line.
    let unwrapped = "abcdefgh\nok";
    let wrapped = "abcd\nefgh\nok";
    let b = Buffer::from_reads(unwrapped, wrapped);
    assert_eq!(b.lines.len(), 3);
    assert!(b.lines[0].soft_wrap);
    assert!(!b.lines[1].soft_wrap);
    assert!(!b.lines[2].soft_wrap);
    assert_eq!(b.slice_lines(0, 1), "abcdefgh\n");
    assert_eq!(
        b.slice_inclusive(Pos { row: 0, col: 2 }, Pos { row: 1, col: 1 }),
        "cdef"
    );
    assert_eq!(b.text(), "abcdefgh\nok\n");
}

#[test]
fn from_reads_tolerates_trailing_space_mismatch() {
    let unwrapped = "abcdefgh\nok";
    let wrapped = "abcd\nefgh\nok ";
    let b = Buffer::from_reads(unwrapped, wrapped);
    assert!(b.lines[0].soft_wrap);
    assert!(!b.lines[1].soft_wrap);
    assert!(!b.lines[2].soft_wrap);
    assert_eq!(b.slice_lines(0, 1), "abcdefgh\n");
    assert_eq!(b.text(), "abcdefgh\nok \n");
}

#[test]
fn from_reads_accepts_partial_oldest_line() {
    let unwrapped = "0123456789abc\nok";
    let wrapped = "89ab\nc\nok";
    let b = Buffer::from_reads(unwrapped, wrapped);
    assert!(b.lines[0].soft_wrap);
    assert!(!b.lines[1].soft_wrap);
    assert_eq!(b.slice_lines(0, 1), "89abc\n");
}

#[test]
fn from_reads_covers_fewer_logical_lines_than_unwrapped() {
    let unwrapped = "old-history\nabcd\nok";
    let wrapped = "abcd\nok";
    let b = Buffer::from_reads(unwrapped, wrapped);
    assert_eq!(b.lines.len(), 2);
    assert!(!b.lines[0].soft_wrap);
}

#[test]
fn from_reads_mismatch_degrades_to_hard_breaks() {
    let b = Buffer::from_reads("something\nelse", "abcd\nefgh");
    assert!(b.lines.iter().all(|l| !l.soft_wrap));
    assert_eq!(b.slice_lines(0, 1), "abcd\nefgh\n");
}

#[test]
fn from_reads_handles_empty_lines() {
    let unwrapped = "one\n\ntwo";
    let wrapped = "one\n\ntwo";
    let b = Buffer::from_reads(unwrapped, wrapped);
    assert_eq!(b.lines.len(), 3);
    assert!(b.lines.iter().all(|l| !l.soft_wrap));
}

#[test]
fn logical_span_groups_soft_wrapped_rows() {
    let b = Buffer::from_reads("abcdefgh\nok", "abcd\nefgh\nok");
    assert_eq!(b.logical_span(0), (0, 1));
    assert_eq!(b.logical_span(1), (0, 1));
    assert_eq!(b.logical_span(2), (2, 2));
}

#[test]
fn logical_span_is_single_row_without_wrap() {
    let b = Buffer::from_text("one\ntwo");
    assert_eq!(b.logical_span(0), (0, 0));
    assert_eq!(b.logical_span(1), (1, 1));
}

#[test]
fn slice_inclusive_single_line() {
    let b = Buffer::from_text("hello world");
    let s = b.slice_inclusive(Pos { row: 0, col: 6 }, Pos { row: 0, col: 10 });
    assert_eq!(s, "world");
}

#[test]
fn slice_inclusive_multi_line_and_swapped() {
    let b = Buffer::from_text("one\ntwo\nthree");
    let s = b.slice_inclusive(Pos { row: 2, col: 2 }, Pos { row: 0, col: 1 });
    assert_eq!(s, "ne\ntwo\nthr");
}

#[test]
fn slice_lines_has_trailing_newline() {
    let b = Buffer::from_text("one\ntwo");
    assert_eq!(b.slice_lines(1, 0), "one\ntwo\n");
}

#[test]
fn col_at_x_handles_wide_chars() {
    let line = Line::from_text("a\u{4e2d}b");
    assert_eq!(line.col_at_x(0), 0);
    assert_eq!(line.col_at_x(1), 1);
    assert_eq!(line.col_at_x(2), 1);
    assert_eq!(line.col_at_x(3), 2);
    assert_eq!(line.width_before(2), 3);
}

#[test]
fn slice_is_the_same_from_either_end() {
    let b = Buffer::from_text("alpha\nbeta\ngamma");
    let p = Pos { row: 0, col: 3 };
    let q = Pos { row: 2, col: 1 };
    assert_eq!(b.slice_inclusive(p, q), b.slice_inclusive(q, p));
    assert_eq!(b.slice_inclusive(p, q), "ha\nbeta\nga");
    assert_eq!(b.slice_lines(2, 1), b.slice_lines(1, 2));
}

#[test]
fn clamp_keeps_positions_on_chars() {
    let b = Buffer::from_text("abc\n\nxy");
    assert_eq!(b.clamp(Pos { row: 9, col: 9 }), Pos { row: 2, col: 1 });
    assert_eq!(b.clamp(Pos { row: 1, col: 5 }), Pos { row: 1, col: 0 });
    assert_eq!(b.max_col(0), 2);
    assert_eq!(b.last_row(), 2);
    assert_eq!(b.first_non_blank(0), 0);
}

#[test]
fn first_non_blank_skips_leading_space() {
    let b = Buffer::from_text("   x y\n   \nz");
    assert_eq!(b.first_non_blank(0), 3);
    assert_eq!(b.first_non_blank(1), 0);
    assert!(b.lines[1].is_blank());
    assert!(!b.lines[0].is_blank());
}

#[test]
fn empty_text_still_has_one_row() {
    let b = Buffer::from_text("");
    assert_eq!(b.lines.len(), 1);
    assert!(b.lines[0].is_empty());
    assert_eq!(b.lines[0].len(), 0);
}

#[test]
fn cell_width_of_wide_and_missing_chars() {
    let line = Line::from_text("a\u{4e2d}");
    assert_eq!(line.cell_width(0), 1);
    assert_eq!(line.cell_width(1), 2);
    assert_eq!(line.cell_width(5), 1);
}

#[test]
fn reads_keep_the_wrapped_rows() {
    let wrapped = "\x1b[31mabc\x1b[0m\ndef\nxy";
    let composed = Buffer::from_reads("abcdef\nxy", wrapped);
    let plain = Buffer::from_ansi(wrapped);
    assert_eq!(composed.lines.len(), plain.lines.len());
    for (a, b) in composed.lines.iter().zip(plain.lines.iter()) {
        assert_eq!(a.text(), b.text());
        assert_eq!(a.style_at(0), b.style_at(0));
    }
    assert!(composed.lines[0].soft_wrap);
    assert!(!plain.lines[0].soft_wrap);
}
