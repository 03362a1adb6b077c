use herdr_copy_search::osc52::{is_oversize, sequence};

#[test]
fn sequence_wraps_base64_payload() {
    assert_eq!(sequence("hello"), "\x1b\x5d52;c;aGVsbG8=\x07");
}

#[test]
fn sequence_of_empty_text_is_valid() {
    assert_eq!(sequence(""), "\x1b\x5d52;c;\x07");
}

#[test]
fn oversize_flags_large_payloads_only() {
    assert!(!is_oversize("small"));
    let big = "x".repeat(80_000);
    assert!(is_oversize(&big));
}

#[test]
fn oversize_threshold_is_on_the_encoded_length() {
    // 75_000 bytes encode to exactly 100_000 chars: not over the limit.
    assert!(!is_oversize(&"x".repeat(75_000)));
    assert!(is_oversize(&"x".repeat(75_001)));
    // Multi-byte chars count by their UTF-8 bytes.
    assert_eq!(sequence("\u{e9}"), "\x1b\x5d52;c;w6k=\x07");
}
