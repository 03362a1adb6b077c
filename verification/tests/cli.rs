use herdr_copy_search::buffer::Buffer;
use herdr_copy_search::cli::{
    has_styled_rows, pane_buffer, parse_args, screen_rows, Cli, RunMode, DEFAULT_LINES,
};

fn parse(args: &[&str]) -> Result<Cli, String> {
    parse_args(args.iter().map(|s| s.to_string()).collect())
}

#[test]
fn defaults_to_copy_mode() {
    let cli = parse(&[]).unwrap();
    assert_eq!(cli.mode, RunMode::Copy);
    assert_eq!(cli.input, None);
    assert_eq!(cli.pane, None);
    assert_eq!(cli.lines, DEFAULT_LINES);
}

#[test]
fn parses_mode_and_input() {
    let cli = parse(&["--mode", "search", "--input", "/tmp/x"]).unwrap();
    assert_eq!(cli.mode, RunMode::Search);
    assert_eq!(cli.input.as_deref(), Some("/tmp/x"));
}

#[test]
fn parses_pane_and_lines() {
    let cli = parse(&["--pane", "w8:p1", "--lines", "500"]).unwrap();
    assert_eq!(cli.pane.as_deref(), Some("w8:p1"));
    assert_eq!(cli.lines, 500);
}

#[test]
fn rejects_unknown_arguments_and_modes() {
    assert!(parse(&["--bogus"]).is_err());
    assert!(parse(&["--mode", "bogus"]).is_err());
    assert!(parse(&["--mode"]).is_err());
    assert!(parse(&["--lines", "abc"]).is_err());
}

#[test]
fn screen_rows_verifies_the_buffer_tail() {
    let buf = Buffer::from_text("a\nb\nc\nd");
    assert_eq!(screen_rows(&buf, "c\nd"), Some(2));
    assert_eq!(screen_rows(&buf, "a\nb\nc\nd"), Some(4));
    assert_eq!(screen_rows(&buf, "x\nd"), None, "pane changed between reads");
    assert_eq!(screen_rows(&buf, ""), None);
}

#[test]
fn screen_rows_ignores_trailing_whitespace() {
    let buf = Buffer::from_text("a  \nb");
    assert_eq!(screen_rows(&buf, "a\nb   "), Some(2));
}

#[test]
fn screen_rows_rejects_more_rows_than_the_buffer() {
    let buf = Buffer::from_text("a");
    assert_eq!(screen_rows(&buf, "a\nb"), None);
}

#[test]
fn argument_errors_name_the_problem() {
    assert_eq!(parse(&["--mode"]).unwrap_err(), "--mode needs a value");
    assert_eq!(parse(&["--mode", "x"]).unwrap_err(), "unknown mode: x");
    assert_eq!(parse(&["--lines", "x"]).unwrap_err(), "--lines needs a number");
    assert_eq!(parse(&["--height", "0"]).unwrap_err(), "--height must be 1-100");
    assert_eq!(parse(&["--height", "300"]).unwrap_err(), "--height needs a number");
    assert_eq!(parse(&["-x"]).unwrap_err(), "unknown argument: -x");
    assert_eq!(parse(&["--height", "50", "--mode", "extract"]).unwrap().height, Some(50));
}

#[test]
fn pane_buffer_falls_back_to_plain_text_without_styled_rows() {
    let (b, rows) = pane_buffer("one\ntwo", "  \n", "two");
    assert_eq!(b.lines.len(), 2);
    assert_eq!(b.lines[1].text(), "two");
    assert_eq!(rows, None);
    assert!(!has_styled_rows(" \n\t"));
}

#[test]
fn pane_buffer_aligns_styled_rows_and_anchors_the_screen() {
    let (b, rows) = pane_buffer("abcdef\nxy", "abc\ndef\nxy", "def\nxy");
    assert_eq!(b.lines.len(), 3);
    assert!(b.lines[0].soft_wrap);
    assert_eq!(rows, Some(2));
}
