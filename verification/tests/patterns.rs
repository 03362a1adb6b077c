use herdr_copy_search::patterns::{default_patterns, Patterns};
use regex::Regex;

fn matches(name: &str, hay: &str) -> Vec<String> {
    let defs = default_patterns();
    let def = defs.iter().find(|d| d.name == name).unwrap();
    Regex::new(&def.regex)
        .unwrap()
        .find_iter(hay)
        .map(|m| m.as_str().to_string())
        .collect()
}

#[test]
fn url_matches_schemes_and_stops_at_delimiters() {
    assert_eq!(
        matches("url", "see https://x.dev/a?b=1 and \x28git://h/r.git\x29"),
        vec!["https://x.dev/a?b=1", "git://h/r.git"]
    );
    assert!(matches("url", "no urls here").is_empty());
}

#[test]
fn file_matches_paths_with_line_suffixes() {
    assert_eq!(
        matches("file", "error at src/app.rs:12:5, see /var/log/x.log and ~/dl/a.txt"),
        vec!["src/app.rs:12:5", "/var/log/x.log", "~/dl/a.txt"]
    );
    assert!(matches("file", "Cargo.toml alone").is_empty());
}

#[test]
fn git_sha_needs_seven_hex_chars() {
    assert_eq!(matches("git-sha", "commit 0a3773dbe"), vec!["0a3773dbe"]);
    assert!(matches("git-sha", "abc123").is_empty());
}

#[test]
fn ip_matches_dotted_quads() {
    assert_eq!(matches("ip", "host 192.168.0.1:8080 up"), vec!["192.168.0.1"]);
    assert!(matches("ip", "1.2.3").is_empty());
}

#[test]
fn digits_and_quoted() {
    assert_eq!(matches("digits", "took 42 ms"), vec!["42"]);
    assert_eq!(
        matches("quoted", "say \"hi there\" or 'bye'"),
        vec!["\"hi there\"", "'bye'"]
    );
}

#[test]
fn default_menu_lists_every_pattern_by_key() {
    let p = Patterns::default();
    assert_eq!(
        p.menu_line(),
        "pattern: \x5bu\x5drl \x5bf\x5dile \x5bg\x5dit-sha \x5bi\x5dp \x5bd\x5digits \x5bq\x5duoted"
    );
    for d in &default_patterns() {
        assert!(p.by_key(d.key).is_some());
    }
}

#[test]
fn from_config_adds_a_custom_pattern() {
    let p = Patterns::from_config("pattern_t = \"\\bTODO\\b\"\n");
    let def = p.by_key('t').expect("custom pattern present");
    assert_eq!(def.regex, "\\bTODO\\b");
    assert!(p.menu_line().contains("\x5bt\x5d"));
}

#[test]
fn from_config_empty_value_disables_a_default() {
    let p = Patterns::from_config("pattern_u = \"\"\n");
    assert!(p.by_key('u').is_none());
    assert!(!p.menu_line().contains("\x5bu\x5d"));
}

#[test]
fn from_config_override_replaces_regex_keeps_name() {
    let p = Patterns::from_config("pattern_d = \"X+\"\n");
    let def = p.by_key('d').expect("digits key still present");
    assert_eq!(def.regex, "X+");
    assert_eq!(def.name, "digits");
    assert!(p.menu_line().contains("\x5bd\x5digits"));
}

#[test]
fn later_override_of_a_key_wins() {
    let p = Patterns::from_config("pattern_k = \"a\"\npattern_k = \"\"\npattern_k = \"b\"\n");
    assert_eq!(p.by_key('k').expect("re-added").regex, "b");
    assert_eq!(p.by_key('k').unwrap().name, "k");
}
