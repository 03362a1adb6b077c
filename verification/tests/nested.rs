use herdr_copy_search::nested::{is_nested, marker_name};

#[test]
fn is_nested_only_when_source_is_a_live_overlay() {
    assert!(!is_nested(None, |_: &str| true), "no source pane");
    assert!(!is_nested(Some("w1:p1"), |_: &str| false), "source not active");
    assert!(is_nested(Some("w1:p1"), |p: &str| p == "w1:p1"), "source active");
}

#[test]
fn marker_names_are_filesystem_safe() {
    assert_eq!(marker_name("w8:p1"), "w8_p1");
    assert_eq!(marker_name("a/b.c"), "a_b_c");
    assert_eq!(marker_name(""), "");
}
