use herdr_copy_search::ansi::Color;
use herdr_copy_search::config::{
    parse_color, pattern_overrides, toml_int_field, toml_str_field, Config, Theme,
};

#[test]
fn int_field_parses_flat_keys_and_comments() {
    let toml = "# heading\nextract_height = 60 # inline\nother = 2\n";
    assert_eq!(toml_int_field(toml, "extract_height"), Some(60));
    assert_eq!(toml_int_field(toml, "other"), Some(2));
    assert_eq!(toml_int_field(toml, "missing"), None);
}

#[test]
fn scan_stops_at_table_header() {
    let toml = "a = 1\n\x5btable\x5d\nb = 2\n";
    assert_eq!(toml_int_field(toml, "a"), Some(1));
    assert_eq!(toml_int_field(toml, "b"), None);
}

#[test]
fn str_field_strips_quotes() {
    let toml = "name = \"hello # not a comment\"\nbare = word\n";
    assert_eq!(
        toml_str_field(toml, "name").as_deref(),
        Some("hello # not a comment")
    );
    assert_eq!(toml_str_field(toml, "bare").as_deref(), Some("word"));
}

#[test]
fn pattern_overrides_collects_single_char_keys() {
    let toml = "extract_height = 50\n\
                pattern_j = \"\\bTODO\\b\" # tasks\n\
                pattern_u = \"\"\n\
                pattern_multi = \"ignored\"\n\
                \x5btable\x5d\n\
                pattern_x = \"nope\"\n";
    assert_eq!(
        pattern_overrides(toml),
        vec![('j', "\\bTODO\\b".to_string()), ('u', String::new())]
    );
}

#[test]
fn from_toml_clamps_and_defaults() {
    assert_eq!(Config::from_toml("").extract_height, 40);
    assert_eq!(Config::from_toml("extract_height = 60").extract_height, 60);
    assert_eq!(Config::from_toml("extract_height = 0").extract_height, 1);
    assert_eq!(Config::from_toml("extract_height = 500").extract_height, 100);
}

#[test]
fn parse_color_handles_hex_index_and_names() {
    assert_eq!(parse_color("#5fafff"), Some(Color::Rgb(0x5f, 0xaf, 0xff)));
    assert_eq!(parse_color("14"), Some(Color::Indexed(14)));
    assert_eq!(parse_color(" cyan "), Some(Color::Indexed(14)));
    assert_eq!(parse_color("dark_yellow"), Some(Color::Indexed(3)));
    assert_eq!(parse_color("gray"), Some(Color::Indexed(7)));
    assert_eq!(parse_color("300"), None, "index out of u8 range");
    assert_eq!(parse_color("#fff"), None, "hex must be 6 digits");
    assert_eq!(parse_color("bogus"), None);
}

#[test]
fn theme_from_toml_defaults_then_overrides() {
    assert_eq!(Theme::from_toml(""), Theme::default());
    let toml = "badge_copy_bg = \"red\"\n\
                match_current_fg = \"#000000\"\n\
                extract_selected_bg = \"12\"\n";
    let t = Theme::from_toml(toml);
    let d = Theme::default();
    assert_eq!(t.badge_copy.bg, Color::Indexed(9));
    assert_eq!(t.badge_copy.fg, d.badge_copy.fg, "fg untouched");
    assert_eq!(t.match_current.fg, Color::Rgb(0, 0, 0));
    assert_eq!(t.extract_selected.bg, Color::Indexed(12));
}

#[test]
fn theme_from_toml_keeps_default_on_invalid_and_stops_at_table() {
    let toml = "badge_copy_bg = \"bogus\"\n\x5bcolors\x5d\nmatch_bg = \"red\"\n";
    let t = Theme::from_toml(toml);
    let d = Theme::default();
    assert_eq!(t.badge_copy.bg, d.badge_copy.bg, "invalid value kept default");
    assert_eq!(t.match_.bg, d.match_.bg, "keys after table are ignored");
}

#[test]
fn hex_digits_accept_a_plus_sign_pair() {
    // u8::from_str_radix takes a leading '+', so each pair may be "+f".
    assert_eq!(parse_color("#+f0a0b"), Some(Color::Rgb(15, 10, 11)));
    assert_eq!(parse_color("#gg0000"), None);
    assert_eq!(parse_color(""), None);
}

#[test]
fn unterminated_quote_reads_as_missing() {
    assert_eq!(toml_str_field("k = \"open", "k"), None);
    assert_eq!(toml_int_field("k = +7", "k"), Some(7));
    assert_eq!(toml_int_field("k = -3", "k"), Some(-3));
}

#[test]
fn hex_values_that_split_a_char_keep_the_default() {
    assert_eq!(parse_color("#a\u{20ac}bc"), None);
    assert_eq!(parse_color("#\u{e9}abcd"), None);
    assert_eq!(parse_color("#a\u{e9}\u{e9}b"), None);
    assert_eq!(
        Theme::from_toml("badge_copy_bg = \"#a\u{20ac}bc\"\n"),
        Theme::default()
    );
}
