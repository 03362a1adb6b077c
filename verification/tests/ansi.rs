use herdr_copy_search::ansi::{parse, Color, Style, StyledLine};

fn fg(n: u8) -> Style {
    Style {
        fg: Color::Indexed(n),
        ..Style::default()
    }
}

fn text_of(line: &StyledLine) -> String {
    line.chars.iter().collect()
}

#[test]
fn plain_text_has_empty_styles() {
    let lines = parse("hello\nworld");
    assert_eq!(lines.len(), 2);
    assert_eq!(text_of(&lines[0]), "hello");
    assert!(lines[0].styles.is_empty());
    assert!(lines[1].styles.is_empty());
}

#[test]
fn sixteen_color_and_reset() {
    let lines = parse("\x1b\x5b31mred\x1b\x5b0m plain");
    let l = &lines[0];
    assert_eq!(text_of(l), "red plain");
    assert_eq!(l.styles[0], fg(1));
    assert_eq!(l.styles[2], fg(1));
    assert_eq!(l.styles[3], Style::default());
}

#[test]
fn bright_and_background_colors() {
    let lines = parse("\x1b\x5b91;44mx");
    assert_eq!(
        lines[0].styles[0],
        Style {
            fg: Color::Indexed(9),
            bg: Color::Indexed(4),
            ..Style::default()
        }
    );
}

#[test]
fn indexed_256_and_rgb() {
    let lines = parse("\x1b\x5b38;5;215ma\x1b\x5b48;2;10;20;30mb");
    assert_eq!(lines[0].styles[0].fg, Color::Indexed(215));
    assert_eq!(lines[0].styles[1].fg, Color::Indexed(215));
    assert_eq!(lines[0].styles[1].bg, Color::Rgb(10, 20, 30));
}

#[test]
fn multi_param_and_bare_reset() {
    let lines = parse("\x1b\x5b1;31ma\x1b\x5bmb");
    assert_eq!(
        lines[0].styles[0],
        Style {
            fg: Color::Indexed(1),
            bold: true,
            ..Style::default()
        }
    );
    assert_eq!(lines[0].styles[1], Style::default());
}

#[test]
fn attribute_set_and_clear() {
    let lines = parse("\x1b\x5b1;2;3;4;7ma\x1b\x5b22;23;24;27mb\x1b\x5b39;49mc");
    let a = lines[0].styles[0];
    assert!(a.bold && a.dim && a.italic && a.underline && a.reverse);
    assert_eq!(lines[0].styles[1], Style::default());
}

#[test]
fn style_persists_across_lines() {
    let lines = parse("\x1b\x5b31mone\ntwo\x1b\x5b0m");
    assert_eq!(lines[1].styles[0], fg(1));
}

#[test]
fn tab_expands_to_styled_spaces() {
    let lines = parse("\x1b\x5b31m\ta");
    assert_eq!(text_of(&lines[0]), "    a");
    assert_eq!(lines[0].styles[0], fg(1));
    assert_eq!(lines[0].styles[3], fg(1));
}

#[test]
fn carriage_returns_are_dropped() {
    let lines = parse("one\r\ntwo\r");
    assert_eq!(text_of(&lines[0]), "one");
    assert_eq!(text_of(&lines[1]), "two");
}

#[test]
fn trailing_newline_adds_no_line() {
    assert_eq!(parse("a\nb\n").len(), 2);
    assert_eq!(parse("").len(), 0);
}

#[test]
fn non_sgr_sequences_are_skipped() {
    let lines = parse("a\x1b\x5b2Jb\x1b\x5d0;title\x07c\x1b\x5d52;c;xyz\x1b\\d\x1b\x28Be\x1b=f");
    assert_eq!(text_of(&lines[0]), "abcdef");
    assert!(lines[0].styles.is_empty());
}

#[test]
fn colon_subparams_degrade_to_unstyled() {
    let lines = parse("\x1b\x5b38:5:196mx");
    assert_eq!(text_of(&lines[0]), "x");
    assert!(lines[0].styles.is_empty());
}

#[test]
fn sgr_reset_inside_a_run_splits_the_styles() {
    let lines = parse("\x1b\x5b1mab\x1b\x5b22mc");
    assert!(lines[0].styles[0].bold);
    assert!(lines[0].styles[1].bold);
    assert!(!lines[0].styles[2].bold);
}
